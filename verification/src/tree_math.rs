//! Index arithmetic for the MLS array representation of a left-balanced
//! binary tree.
//!
//! A tree with `n` leaves is stored as an array of `2n - 1` node slots.
//! Leaf `i` lives at array index `2i`; odd indices hold parent nodes. The
//! *level* of a node index is the number of trailing one bits of its binary
//! representation: leaves are level 0, and a node at level `k` is the root
//! of a subtree that spans the index range `[x - 2^k + 1, x + 2^k - 1]`,
//! intersected with the tree width.

use vstd::prelude::*;
use vstd::arithmetic::power2::*;
use vstd::arithmetic::div_mod::*;

verus! {

/// Largest node-array width this library accepts; keeps all index
/// arithmetic far away from `usize` overflow even on 32-bit targets.
pub const MAX_NODE_WIDTH: usize = 0x3FFF_FFFF;

/// Level of a node index: the number of trailing one bits.
pub open spec fn node_level(x: nat) -> nat
    decreases x,
{
    if x % 2 == 0 {
        0
    } else {
        1 + node_level((x / 2) as nat)
    }
}

/// Floor of the base-two logarithm.
pub open spec fn floor_log2(x: nat) -> nat
    decreases x,
{
    if x <= 1 {
        0
    } else {
        1 + floor_log2((x / 2) as nat)
    }
}

/// The level-`k` node whose full subtree range covers index `x`
/// (meaningful for `k >= node_level(x)`).
pub open spec fn ancestor(x: nat, k: nat) -> nat {
    ((x - (x % pow2((k + 1) as nat))) + pow2(k) - 1) as nat
}

/// The root index of a tree of width `w`.
pub open spec fn root_index(w: nat) -> nat {
    (pow2(floor_log2(w)) - 1) as nat
}

/// `p` is the root of a subtree containing `x` (reflexively).
pub open spec fn is_below(x: nat, p: nat) -> bool {
    ancestor(x, node_level(p)) == p
}

/// Ancestors of `x` at levels `k` and above that lie inside the tree,
/// ordered bottom-up.
pub open spec fn path_from(x: nat, k: nat, w: nat) -> Seq<nat>
    decreases floor_log2(w) + 1 - k,
{
    if k > floor_log2(w) {
        Seq::empty()
    } else if ancestor(x, k) < w {
        seq![ancestor(x, k)] + path_from(x, (k + 1) as nat, w)
    } else {
        path_from(x, (k + 1) as nat, w)
    }
}

/// The direct path of node `x`: its ancestors inside the tree,
/// ordered from just above `x` up to the root.
pub open spec fn direct_path(x: nat, w: nat) -> Seq<nat> {
    path_from(x, (node_level(x) + 1) as nat, w)
}

/// The left child of an internal node (level at least 1).
pub open spec fn left_child(p: nat) -> nat {
    (p - pow2((node_level(p) - 1) as nat)) as nat
}

/// Search downward for the right child: the highest-level node of the
/// form `p + 2^j` that lies inside the tree.
pub open spec fn right_child_from(p: nat, j: nat, w: nat) -> nat
    decreases j,
{
    if p + pow2(j) < w {
        (p + pow2(j)) as nat
    } else if j == 0 {
        (p + 1) as nat
    } else {
        right_child_from(p, (j - 1) as nat, w)
    }
}

/// The right child of an internal node in a tree of width `w`.
pub open spec fn right_child(p: nat, w: nat) -> nat {
    right_child_from(p, (node_level(p) - 1) as nat, w)
}

/// The characteristic residue of a level-`k` node: its low `k + 1` bits
/// are `0` followed by `k` ones.
pub proof fn lemma_level_char(x: nat)
    ensures
        x % pow2((node_level(x) + 1) as nat) == pow2(node_level(x)) - 1,
    decreases x,
{
    broadcast use lemma_pow2_pos;

    if x % 2 == 0 {
        assert(pow2(1) == 2 && pow2(0) == 1) by {
            lemma2_to64();
        }
        assert(x % pow2(1) == 0);
    } else {
        let h = (x / 2) as nat;
        let l = node_level(h);
        lemma_level_char(h);
        // h = a * 2^(l+1) + (2^l - 1)
        let a = h / pow2((l + 1) as nat);
        lemma_fundamental_div_mod(h as int, pow2((l + 1) as nat) as int);
        // x = 2h + 1
        lemma_fundamental_div_mod(x as int, 2);
        assert(x == 2 * h + 1);
        lemma_pow2_adds((l + 1) as nat, 1);
        lemma_pow2_adds((l + 2) as nat, 0);
        assert(pow2((l + 2) as nat) == 2 * pow2((l + 1) as nat)) by {
            lemma_pow2_unfold((l + 2) as nat);
        }
        assert(pow2((l + 1) as nat) == 2 * pow2(l)) by {
            lemma_pow2_unfold((l + 1) as nat);
        }
        assert(x == a * pow2((l + 2) as nat) + (pow2((l + 1) as nat) - 1)) by (nonlinear_arith)
            requires
                x == 2 * h + 1,
                h == a * pow2((l + 1) as nat) + (pow2(l) - 1),
                pow2((l + 2) as nat) == 2 * pow2((l + 1) as nat),
                pow2((l + 1) as nat) == 2 * pow2(l),
                pow2(l) >= 1,
        ;
        lemma_fundamental_div_mod_converse_mod(
            x as int,
            pow2((l + 2) as nat) as int,
            a as int,
            pow2((l + 1) as nat) - 1,
        );
        assert(node_level(x) == l + 1);
    }
}

/// Converse of `lemma_level_char`: the residue determines the level.
pub proof fn lemma_level_unique(x: nat, k: nat)
    requires
        x % pow2((k + 1) as nat) == pow2(k) - 1,
    ensures
        node_level(x) == k,
    decreases k,
{
    broadcast use lemma_pow2_pos;

    let p1 = pow2((k + 1) as nat);
    let q = x / p1;
    lemma_fundamental_div_mod(x as int, p1 as int);
    assert(x == q * p1 + (pow2(k) - 1));
    if k == 0 {
        assert(pow2(1) == 2 && pow2(0) == 1) by {
            lemma2_to64();
        }
        assert(x % 2 == 0);
    } else {
        assert(pow2((k + 1) as nat) == 2 * pow2(k)) by {
            lemma_pow2_unfold((k + 1) as nat);
        }
        assert(pow2(k) == 2 * pow2((k - 1) as nat)) by {
            lemma_pow2_unfold(k);
        }
        // x is odd: x = 2 * (q * 2^k + 2^(k-1) - 1) + 1
        let h = (q * pow2(k) + pow2((k - 1) as nat) - 1) as int;
        assert(x == 2 * h + 1) by (nonlinear_arith)
            requires
                x == q * p1 + (pow2(k) - 1),
                p1 == 2 * pow2(k),
                pow2(k) == 2 * pow2((k - 1) as nat),
                h == q * pow2(k) + pow2((k - 1) as nat) - 1,
                pow2((k - 1) as nat) >= 1,
        ;
        assert(h >= 0) by (nonlinear_arith)
            requires
                h == q * pow2(k) + pow2((k - 1) as nat) - 1,
                q >= 0,
                pow2(k) >= 1,
                pow2((k - 1) as nat) >= 1,
        ;
        lemma_fundamental_div_mod_converse(x as int, 2, h, 1);
        assert(x % 2 == 1);
        assert(x / 2 == h);
        // h has the characteristic residue for level k - 1
        assert(h % pow2(k) as int == pow2((k - 1) as nat) - 1) by {
            lemma_fundamental_div_mod_converse_mod(
                h,
                pow2(k) as int,
                q as int,
                pow2((k - 1) as nat) - 1,
            );
        }
        lemma_level_unique(h as nat, (k - 1) as nat);
        assert(node_level(x) == 1 + node_level((x / 2) as nat));
    }
}

/// The ancestor function indeed produces a node of level `k`, with the
/// expected residue.
pub proof fn lemma_ancestor_level(x: nat, k: nat)
    ensures
        node_level(ancestor(x, k)) == k,
        ancestor(x, k) % pow2((k + 1) as nat) == pow2(k) - 1,
        ancestor(x, k) == (x / pow2((k + 1) as nat)) * pow2((k + 1) as nat) + pow2(k) - 1,
{
    broadcast use lemma_pow2_pos;

    let p1 = pow2((k + 1) as nat);
    let q = x / p1;
    lemma_fundamental_div_mod(x as int, p1 as int);
    assert(x - (x % p1) == q * p1);
    assert(pow2(k) < p1) by {
        lemma_pow2_strictly_increases(k, (k + 1) as nat);
    }
    assert(ancestor(x, k) == q * p1 + pow2(k) - 1);
    assert(q * p1 >= 0) by (nonlinear_arith)
        requires
            q >= 0,
            p1 >= 1,
    ;
    lemma_fundamental_div_mod_converse_mod(
        ancestor(x, k) as int,
        p1 as int,
        q as int,
        pow2(k) - 1,
    );
    lemma_level_unique(ancestor(x, k), k);
}

/// Bounds of the floor logarithm.
pub proof fn lemma_log2_bounds(x: nat)
    requires
        x >= 1,
    ensures
        pow2(floor_log2(x)) <= x < pow2((floor_log2(x) + 1) as nat),
    decreases x,
{
    broadcast use lemma_pow2_pos;

    if x <= 1 {
        lemma2_to64();
    } else {
        let h = (x / 2) as nat;
        lemma_log2_bounds(h);
        let l = floor_log2(h);
        lemma_fundamental_div_mod(x as int, 2);
        assert(pow2((l + 1) as nat) == 2 * pow2(l)) by {
            lemma_pow2_unfold((l + 1) as nat);
        }
        assert(pow2((l + 2) as nat) == 2 * pow2((l + 1) as nat)) by {
            lemma_pow2_unfold((l + 2) as nat);
        }
    }
}

/// Every node index below the width has level at most `floor_log2(w)`.
pub proof fn lemma_level_bounded(p: nat, w: nat)
    requires
        p < w,
        w >= 1,
    ensures
        node_level(p) <= floor_log2(w),
{
    broadcast use lemma_pow2_pos, lemma_mod_decreases;

    let l = node_level(p);
    lemma_level_char(p);
    // p >= 2^l - 1
    lemma_mod_division_less_than_divisor(p as int, pow2((l + 1) as nat) as int);
    assert(p % pow2((l + 1) as nat) <= p);
    assert(p + 1 >= pow2(l));
    lemma_log2_bounds(w);
    if l > floor_log2(w) {
        lemma_pow2_strictly_increases((floor_log2(w) + 1) as nat, (l + 1) as nat);
        assert(pow2(l) < pow2((l + 1) as nat)) by {
            lemma_pow2_strictly_increases(l, (l + 1) as nat);
        }
        if l >= floor_log2(w) + 1 {
            if l == floor_log2(w) + 1 {
                assert(pow2(l) >= pow2((floor_log2(w) + 1) as nat));
            } else {
                lemma_pow2_strictly_increases((floor_log2(w) + 1) as nat, l);
            }
            assert(pow2(l) >= pow2((floor_log2(w) + 1) as nat));
            assert(p + 1 > w);
            assert(false);
        }
    }
}

/// The root of a tree of odd width `w` is inside the tree, has level
/// `floor_log2(w)`, and is an ancestor of every node.
pub proof fn lemma_root_facts(w: nat)
    requires
        w >= 1,
    ensures
        root_index(w) < w,
        node_level(root_index(w)) == floor_log2(w),
        forall|x: nat| x < w ==> ancestor(x, floor_log2(w)) == root_index(w),
{
    broadcast use lemma_pow2_pos;

    let l = floor_log2(w);
    lemma_log2_bounds(w);
    let r = root_index(w);
    assert(pow2((l + 1) as nat) == 2 * pow2(l)) by {
        lemma_pow2_unfold((l + 1) as nat);
    }
    lemma_small_mod((pow2(l) - 1) as nat, pow2((l + 1) as nat));
    lemma_level_unique(r, l);
    assert forall|x: nat| x < w implies ancestor(x, l) == root_index(w) by {
        lemma_small_mod(x, pow2((l + 1) as nat));
    }
}

/// Membership in `path_from`: exactly the in-tree ancestors of `x`
/// at levels in `[k, floor_log2(w)]`.
pub proof fn lemma_path_from_membership(x: nat, k: nat, w: nat, p: nat)
    requires
        w >= 1,
    ensures
        path_from(x, k, w).contains(p) <==> (p < w && k <= node_level(p) <= floor_log2(w)
            && ancestor(x, node_level(p)) == p),
    decreases floor_log2(w) + 1 - k,
{
    if k > floor_log2(w) {
        if p < w && k <= node_level(p) {
            lemma_level_bounded(p, w);
        }
    } else {
        lemma_path_from_membership(x, (k + 1) as nat, w, p);
        lemma_ancestor_level(x, k);
        if ancestor(x, k) < w {
            let s = path_from(x, k, w);
            assert(s == seq![ancestor(x, k)] + path_from(x, (k + 1) as nat, w));
            if p == ancestor(x, k) {
                assert(s[0] == p);
                assert(s.contains(p));
            } else {
                if s.contains(p) {
                    let i = choose|i: int| 0 <= i < s.len() && #[trigger] s[i] == p;
                    assert(path_from(x, (k + 1) as nat, w)[i - 1] == p);
                    assert(path_from(x, (k + 1) as nat, w).contains(p));
                }
                if p < w && k <= node_level(p) <= floor_log2(w) && ancestor(
                    x,
                    node_level(p),
                ) == p {
                    // p is an ancestor of x at a level other than k
                    assert(node_level(p) != k);
                    let rest = path_from(x, (k + 1) as nat, w);
                    assert(rest.contains(p));
                    let i = choose|i: int| 0 <= i < rest.len() && #[trigger] rest[i] == p;
                    assert(s[i + 1] == p);
                }
            }
        } else {
            if p < w && k <= node_level(p) <= floor_log2(w) && ancestor(x, node_level(p)) == p {
                assert(node_level(p) != k);
            }
        }
    }
}

/// Membership in the direct path: exactly the proper in-tree ancestors.
pub proof fn lemma_direct_path_membership(x: nat, w: nat, p: nat)
    requires
        w >= 1,
    ensures
        direct_path(x, w).contains(p) <==> (p < w && node_level(p) > node_level(x) && is_below(
            x,
            p,
        )),
{
    lemma_path_from_membership(x, (node_level(x) + 1) as nat, w, p);
    if p < w && node_level(p) > node_level(x) && is_below(x, p) {
        lemma_level_bounded(p, w);
    }
}

/// A nonempty path ends at the root.
pub proof fn lemma_path_from_last(x: nat, k: nat, w: nat)
    requires
        w >= 1,
        x < w,
        k <= floor_log2(w),
    ensures
        path_from(x, k, w).len() >= 1,
        path_from(x, k, w).last() == root_index(w),
    decreases floor_log2(w) + 1 - k,
{
    lemma_root_facts(w);
    if k == floor_log2(w) {
        assert(ancestor(x, k) == root_index(w));
        assert(path_from(x, (k + 1) as nat, w) == Seq::<nat>::empty());
    } else {
        lemma_path_from_last(x, (k + 1) as nat, w);
        if ancestor(x, k) < w {
            assert(path_from(x, k, w).last() == path_from(x, (k + 1) as nat, w).last());
        }
    }
}

/// The direct path of the root is empty; the direct path of any other
/// node ends at the root.
pub proof fn lemma_direct_path_root(x: nat, w: nat)
    requires
        w >= 1,
        x < w,
    ensures
        x == root_index(w) ==> direct_path(x, w) == Seq::<nat>::empty(),
        x != root_index(w) ==> direct_path(x, w).len() >= 1 && direct_path(x, w).last()
            == root_index(w),
{
    broadcast use lemma_pow2_pos;

    lemma_root_facts(w);
    lemma_level_bounded(x, w);
    let l = floor_log2(w);
    if x == root_index(w) {
        assert(node_level(x) == l);
        assert(direct_path(x, w) == path_from(x, (l + 1) as nat, w));
    } else {
        if node_level(x) == l {
            // only the root has level floor_log2(w) below w
            lemma_level_char(x);
            lemma_log2_bounds(w);
            lemma_small_mod(x, pow2((l + 1) as nat));
            assert(false);
        }
        lemma_path_from_last(x, (node_level(x) + 1) as nat, w);
    }
}

} // verus!

verus! {

/// Structure of the left child of an internal node.
pub proof fn lemma_left_child(p: nat)
    requires
        node_level(p) >= 1,
    ensures
        node_level(left_child(p)) == node_level(p) - 1,
        left_child(p) < p,
        is_below(left_child(p), p),
        left_child(p) + pow2((node_level(p) - 1) as nat) == p,
{
    broadcast use lemma_pow2_pos;

    let k = node_level(p);
    let km = (k - 1) as nat;
    lemma_level_char(p);
    let p1 = pow2((k + 1) as nat);
    let q = p / p1;
    lemma_fundamental_div_mod(p as int, p1 as int);
    assert(pow2((k + 1) as nat) == 2 * pow2(k)) by {
        lemma_pow2_unfold((k + 1) as nat);
    }
    assert(pow2(k) == 2 * pow2(km)) by {
        lemma_pow2_unfold(k);
    }
    let l = left_child(p);
    assert(l == p1 * q + (pow2(km) - 1)) by (nonlinear_arith)
        requires
            p == p1 * q + (pow2(k) - 1),
            pow2(k) == 2 * pow2(km),
            l == p - pow2(km),
    ;
    // level of the left child
    let pk = pow2(k);
    assert(l == pk * (2 * q) + (pow2(km) - 1)) by (nonlinear_arith)
        requires
            l == p1 * q + (pow2(km) - 1),
            p1 == 2 * pk,
    ;
    assert(pk * (2 * q) == (2 * q) * pk) by (nonlinear_arith);
    assert(pk * (2 * q) >= 0) by (nonlinear_arith)
        requires
            q >= 0,
            pk >= 1,
    ;
    lemma_fundamental_div_mod_converse_mod(l as int, pk as int, (2 * q) as int, pow2(km) - 1);
    lemma_level_unique(l, km);
    // the left child is below p
    assert(l % p1 == pow2(km) - 1) by {
        assert(p1 * q >= 0) by (nonlinear_arith)
            requires
                q >= 0,
                p1 >= 1,
        ;
        assert(l == q * p1 + (pow2(km) - 1)) by (nonlinear_arith)
            requires
                l == p1 * q + (pow2(km) - 1),
        ;
        lemma_fundamental_div_mod_converse_mod(l as int, p1 as int, q as int, pow2(km) - 1);
    }
    assert(ancestor(l, k) == l - (pow2(km) - 1) + pow2(k) - 1);
}

/// Structure of the right child search: the result is a proper
/// descendant of `p` on its right side, inside the tree.
pub proof fn lemma_right_child_from(p: nat, j: nat, w: nat)
    requires
        node_level(p) >= 1,
        j < node_level(p),
        p + 1 < w,
    ensures
        p < right_child_from(p, j, w) < w,
        node_level(right_child_from(p, j, w)) <= j,
        is_below(right_child_from(p, j, w), p),
        right_child_from(p, j, w) == p + pow2(node_level(right_child_from(p, j, w))),
    decreases j,
{
    broadcast use lemma_pow2_pos;

    let k = node_level(p);
    lemma_level_char(p);
    let p1 = pow2((k + 1) as nat);
    let q = p / p1;
    lemma_fundamental_div_mod(p as int, p1 as int);
    assert(pow2((k + 1) as nat) == 2 * pow2(k)) by {
        lemma_pow2_unfold((k + 1) as nat);
    }
    if p + pow2(j) < w {
        let r = (p + pow2(j)) as nat;
        // r = q * 2^(k+1) + 2^k + 2^j - 1, whose level is j
        let pj1 = pow2((j + 1) as nat);
        assert(pow2((j + 1) as nat) == 2 * pow2(j)) by {
            lemma_pow2_unfold((j + 1) as nat);
        }
        let m = pow2((k - (j + 1)) as nat);
        lemma_pow2_adds((k - (j + 1)) as nat, (j + 1) as nat);
        assert(pow2(k) == m * pj1);
        // r = pj1 * (2 * q * m + m) + (2^j - 1)
        assert(r == pj1 * (2 * q * m + m) + (pow2(j) - 1)) by (nonlinear_arith)
            requires
                p == p1 * q + (pow2(k) - 1),
                p1 == 2 * pow2(k),
                pow2(k) == m * pj1,
                r == p + pow2(j),
        ;
        assert(pj1 * (2 * q * m + m) == (2 * q * m + m) * pj1) by (nonlinear_arith);
        assert((2 * q * m + m) * pj1 >= 0) by (nonlinear_arith)
            requires
                q >= 0,
                m >= 1,
                pj1 >= 1,
        ;
        lemma_fundamental_div_mod_converse_mod(r as int, pj1 as int, (2 * q * m + m) as int, pow2(j) - 1);
        lemma_level_unique(r, j);
        // r is below p: its residue modulo 2^(k+1) is 2^k + 2^j - 1
        assert(pow2(j) <= pow2(k)) by {
            lemma_pow2_strictly_increases(j, k);
        }
        assert(r == q * p1 + (pow2(k) + pow2(j) - 1)) by (nonlinear_arith)
            requires
                p == p1 * q + (pow2(k) - 1),
                r == p + pow2(j),
        ;
        lemma_fundamental_div_mod_converse_mod(
            r as int,
            p1 as int,
            q as int,
            pow2(k) + pow2(j) - 1,
        );
        assert(ancestor(r, k) == r - (pow2(k) + pow2(j) - 1) + pow2(k) - 1);
    } else {
        if j == 0 {
            // unreachable: p + 1 < w always satisfies the first branch
            assert(pow2(0) == 1) by {
                lemma2_to64();
            }
            assert(false);
        } else {
            lemma_right_child_from(p, (j - 1) as nat, w);
        }
    }
}

/// Structure of the right child of an internal node.
pub proof fn lemma_right_child(p: nat, w: nat)
    requires
        node_level(p) >= 1,
        p + 1 < w,
    ensures
        p < right_child(p, w) < w,
        node_level(right_child(p, w)) < node_level(p),
        is_below(right_child(p, w), p),
{
    lemma_right_child_from(p, (node_level(p) - 1) as nat, w);
}

/// Elements of `path_from` have strictly increasing levels, all at
/// least `k`; in particular the elements are pairwise distinct.
pub proof fn lemma_path_from_levels(x: nat, k: nat, w: nat)
    requires
        w >= 1,
    ensures
        forall|i: int|
            0 <= i < path_from(x, k, w).len() ==> node_level(#[trigger] path_from(x, k, w)[i])
                >= k,
        forall|i: int, j: int|
            0 <= i < j < path_from(x, k, w).len() ==> node_level(#[trigger] path_from(x, k, w)[i])
                < node_level(#[trigger] path_from(x, k, w)[j]),
    decreases floor_log2(w) + 1 - k,
{
    if k > floor_log2(w) {
    } else {
        lemma_path_from_levels(x, (k + 1) as nat, w);
        lemma_ancestor_level(x, k);
        let rest = path_from(x, (k + 1) as nat, w);
        if ancestor(x, k) < w {
            let s = path_from(x, k, w);
            assert(s == seq![ancestor(x, k)] + rest);
            assert forall|i: int| 0 <= i < s.len() implies node_level(#[trigger] s[i]) >= k by {
                if i > 0 {
                    assert(s[i] == rest[i - 1]);
                }
            }
            assert forall|i: int, j: int| 0 <= i < j < s.len() implies node_level(
                #[trigger] s[i],
            ) < node_level(#[trigger] s[j]) by {
                assert(s[j] == rest[j - 1]);
                if i > 0 {
                    assert(s[i] == rest[i - 1]);
                }
            }
        }
    }
}

} // verus!

verus! {

/// View of a vector of indices as a sequence of naturals.
pub open spec fn seq_to_nat(s: Seq<usize>) -> Seq<nat> {
    s.map_values(|v: usize| v as nat)
}

/// A node index is odd exactly when its level is positive.
pub proof fn lemma_odd_level(x: nat)
    ensures
        x % 2 == 1 <==> node_level(x) >= 1,
{
}

/// Executable power of two.
pub fn exec_pow2(k: u64) -> (r: usize)
    requires
        pow2(k as nat) <= 0x8000_0000,
    ensures
        r == pow2(k as nat),
{
    let mut r: usize = 1;
    let mut i: u64 = 0;
    assert(r == pow2(0)) by {
        lemma2_to64();
    }
    while i < k
        invariant
            i <= k,
            r == pow2(i as nat),
            pow2(k as nat) <= 0x8000_0000,
        decreases k - i,
    {
        proof {
            lemma_pow2_unfold((i + 1) as nat);
            if i + 1 < k {
                lemma_pow2_strictly_increases((i + 1) as nat, k as nat);
            }
        }
        r = r * 2;
        i = i + 1;
    }
    r
}

/// Executable node level: count trailing one bits.
pub fn exec_level(x: usize) -> (k: u64)
    requires
        x <= MAX_NODE_WIDTH,
    ensures
        k as nat == node_level(x as nat),
        pow2(k as nat) <= x + 1,
        k <= 30,
{
    let mut v = x;
    let mut k: u64 = 0;
    assert(pow2(0) == 1) by {
        lemma2_to64();
    }
    while v % 2 == 1
        invariant
            node_level(x as nat) == k as nat + node_level(v as nat),
            (v as nat + 1) * pow2(k as nat) <= x as nat + 1,
            v <= x <= MAX_NODE_WIDTH,
            k <= 62,
        decreases v,
    {
        proof {
            broadcast use lemma_pow2_pos;

            lemma_pow2_unfold((k + 1) as nat);
            let vh = (v as nat) / 2;
            assert(v as nat == 2 * vh + 1);
            assert((vh + 1) * pow2((k + 1) as nat) == (v as nat + 1) * pow2(k as nat))
                by (nonlinear_arith)
                requires
                    v as nat == 2 * vh + 1,
                    pow2((k + 1) as nat) == 2 * pow2(k as nat),
            ;
            // the level is bounded, so k + 1 cannot overflow
            assert(pow2((k + 1) as nat) <= (vh + 1) * pow2((k + 1) as nat)) by (nonlinear_arith)
                requires
                    vh >= 0,
                    pow2((k + 1) as nat) >= 1,
            ;
            if k + 1 > 62 {
                lemma2_to64();
                lemma2_to64_rest();
                lemma_pow2_strictly_increases(31, (k + 1) as nat);
                assert(false);
            }
        }
        v = v / 2;
        k = k + 1;
    }
    proof {
        broadcast use lemma_pow2_pos;

        assert(pow2(k as nat) <= (v as nat + 1) * pow2(k as nat)) by (nonlinear_arith)
            requires
                v >= 0,
                pow2(k as nat) >= 1,
        ;
        if k > 30 {
            lemma2_to64();
            lemma_pow2_strictly_increases(30, k as nat);
            assert(false);
        }
    }
    k
}

/// Executable floor logarithm.
pub fn exec_log2(x: usize) -> (k: u64)
    requires
        x <= MAX_NODE_WIDTH,
    ensures
        k as nat == floor_log2(x as nat),
        x >= 1 ==> pow2(k as nat) <= x,
        k <= 29,
{
    let mut v = x;
    let mut k: u64 = 0;
    assert(pow2(0) == 1) by {
        lemma2_to64();
    }
    while v > 1
        invariant
            floor_log2(x as nat) == k as nat + floor_log2(v as nat),
            (v as nat) * pow2(k as nat) <= x as nat,
            v <= x <= MAX_NODE_WIDTH,
            k <= 62,
            x >= 1 ==> v >= 1,
        decreases v,
    {
        proof {
            broadcast use lemma_pow2_pos;

            lemma_pow2_unfold((k + 1) as nat);
            let vh = (v as nat) / 2;
            assert(2 * vh <= v as nat);
            assert(vh * pow2((k + 1) as nat) <= (v as nat) * pow2(k as nat)) by (nonlinear_arith)
                requires
                    2 * vh <= v as nat,
                    pow2((k + 1) as nat) == 2 * pow2(k as nat),
                    pow2(k as nat) >= 1,
            ;
            assert(vh >= 1);
            assert(pow2((k + 1) as nat) <= vh * pow2((k + 1) as nat)) by (nonlinear_arith)
                requires
                    vh >= 1,
                    pow2((k + 1) as nat) >= 1,
            ;
            if k + 1 > 62 {
                lemma2_to64();
                lemma2_to64_rest();
                lemma_pow2_strictly_increases(31, (k + 1) as nat);
                assert(false);
            }
        }
        v = v / 2;
        k = k + 1;
    }
    proof {
        broadcast use lemma_pow2_pos;

        if x >= 1 {
            assert(pow2(k as nat) <= (v as nat) * pow2(k as nat)) by (nonlinear_arith)
                requires
                    v >= 1,
                    pow2(k as nat) >= 1,
            ;
        }
        if k > 29 {
            assert(x >= v >= 1);
            lemma2_to64();
            if k > 30 {
                lemma_pow2_strictly_increases(30, k as nat);
            }
            assert(pow2(k as nat) >= 0x40000000);
            assert(false);
        }
    }
    k
}

/// Executable ancestor computation.
pub fn exec_ancestor(x: usize, k: u64) -> (r: usize)
    requires
        x <= MAX_NODE_WIDTH,
        pow2((k + 1) as nat) <= 0x8000_0000,
    ensures
        r as nat == ancestor(x as nat, k as nat),
        r <= MAX_NODE_WIDTH + 0x8000_0000,
{
    proof {
        broadcast use lemma_pow2_pos;

        lemma_pow2_unfold((k + 1) as nat);
        broadcast use lemma_mod_decreases;

    }
    let pk = exec_pow2(k);
    let p1 = 2 * pk;
    assert(x % p1 <= x) by {
        broadcast use lemma_mod_decreases;

    }
    x - x % p1 + (pk - 1)
}

/// Executable root index.
pub fn exec_root(w: usize) -> (r: usize)
    requires
        1 <= w <= MAX_NODE_WIDTH,
    ensures
        r as nat == root_index(w as nat),
        r < w,
        node_level(r as nat) == floor_log2(w as nat),
{
    proof {
        broadcast use lemma_pow2_pos;

        lemma_log2_bounds(w as nat);
        lemma_root_facts(w as nat);
    }
    let l = exec_log2(w);
    let p = exec_pow2(l);
    p - 1
}

/// Executable direct path: the ordered ancestors of node `x` inside a
/// tree of width `w`, from just above `x` up to the root.
pub fn direct_path_indices(x: usize, w: usize) -> (r: Vec<usize>)
    requires
        x < w,
        w <= MAX_NODE_WIDTH,
    ensures
        seq_to_nat(r@) == direct_path(x as nat, w as nat),
        forall|i: int| 0 <= i < r@.len() ==> r@[i] < w,
{
    let mut res: Vec<usize> = Vec::new();
    let lev = exec_level(x);
    let lg = exec_log2(w);
    proof {
        lemma_level_bounded(x as nat, w as nat);
        lemma_log2_bounds(w as nat);
        assert(seq_to_nat(res@) =~= Seq::<nat>::empty());
        assert(direct_path(x as nat, w as nat) == seq_to_nat(res@) + path_from(
            x as nat,
            (lev + 1) as nat,
            w as nat,
        ));
    }
    let mut k: u64 = lev + 1;
    while k <= lg
        invariant
            lev as nat == node_level(x as nat),
            lg as nat == floor_log2(w as nat),
            lg <= 29,
            pow2(lg as nat) <= w,
            lev + 1 <= k <= lg + 1,
            x < w <= MAX_NODE_WIDTH,
            direct_path(x as nat, w as nat) == seq_to_nat(res@) + path_from(
                x as nat,
                k as nat,
                w as nat,
            ),
            forall|i: int| 0 <= i < res@.len() ==> res@[i] < w,
        decreases lg + 1 - k,
    {
        proof {
            broadcast use lemma_pow2_pos;

            // pow2(k + 1) stays small: k <= lg and pow2(lg) <= w
            lemma_pow2_unfold((k + 1) as nat);
            if (k as nat) < lg as nat {
                lemma_pow2_strictly_increases(k as nat, lg as nat);
            }
            assert(pow2(k as nat) <= w);
            assert(pow2((k + 1) as nat) <= 2 * w);
        }
        let a = exec_ancestor(x, k);
        let ghost pre = res@;
        if a < w {
            res.push(a);
        }
        proof {
            assert(path_from(x as nat, k as nat, w as nat) == if ancestor(x as nat, k as nat)
                < w as nat {
                seq![ancestor(x as nat, k as nat)] + path_from(
                    x as nat,
                    (k + 1) as nat,
                    w as nat,
                )
            } else {
                path_from(x as nat, (k + 1) as nat, w as nat)
            });
            if a < w {
                assert(seq_to_nat(res@) =~= seq_to_nat(pre).push(a as nat));
                assert(seq_to_nat(pre) + (seq![a as nat] + path_from(
                    x as nat,
                    (k + 1) as nat,
                    w as nat,
                )) =~= seq_to_nat(res@) + path_from(x as nat, (k + 1) as nat, w as nat));
            }
        }
        k = k + 1;
    }
    proof {
        assert(path_from(x as nat, k as nat, w as nat) == Seq::<nat>::empty());
        assert(seq_to_nat(res@) + Seq::<nat>::empty() =~= seq_to_nat(res@));
    }
    res
}

} // verus!

verus! {

/// The parent of a non-root node: the first entry of its direct path.
pub open spec fn parent(x: nat, w: nat) -> nat {
    direct_path(x, w)[0]
}

/// The sibling of a non-root node: the other child of its parent.
pub open spec fn sibling(x: nat, w: nat) -> nat {
    if x < parent(x, w) {
        right_child(parent(x, w), w)
    } else {
        left_child(parent(x, w))
    }
}

/// Executable parent computation.
pub fn parent_index(x: usize, w: usize) -> (r: usize)
    requires
        x < w,
        w <= MAX_NODE_WIDTH,
        x as nat != root_index(w as nat),
    ensures
        direct_path(x as nat, w as nat).len() >= 1,
        r as nat == parent(x as nat, w as nat),
        r < w,
        node_level(r as nat) > node_level(x as nat),
        is_below(x as nat, r as nat),
{
    proof {
        lemma_direct_path_root(x as nat, w as nat);
    }
    let dp = direct_path_indices(x, w);
    proof {
        let d = direct_path(x as nat, w as nat);
        assert(d.contains(d[0]));
        lemma_direct_path_membership(x as nat, w as nat, d[0]);
        assert(seq_to_nat(dp@)[0] == dp@[0] as nat);
    }
    dp[0]
}

/// Executable left child computation.
pub fn left_child_index(p: usize) -> (r: usize)
    requires
        p <= MAX_NODE_WIDTH,
        p % 2 == 1,
    ensures
        r as nat == left_child(p as nat),
        r < p,
        node_level(r as nat) == node_level(p as nat) - 1,
        is_below(r as nat, p as nat),
{
    proof {
        lemma_odd_level(p as nat);
        lemma_left_child(p as nat);
    }
    let lev = exec_level(p);
    proof {
        lemma_pow2_strictly_increases((lev - 1) as nat, lev as nat);
    }
    let pk = exec_pow2(lev - 1);
    p - pk
}

/// Executable right child computation.
pub fn right_child_index(p: usize, w: usize) -> (r: usize)
    requires
        p < w,
        w <= MAX_NODE_WIDTH,
        p % 2 == 1,
        w % 2 == 1,
    ensures
        r as nat == right_child(p as nat, w as nat),
        p < r < w,
        node_level(r as nat) < node_level(p as nat),
        is_below(r as nat, p as nat),
{
    proof {
        lemma_odd_level(p as nat);
        assert(p != w - 1);
    }
    let lev = exec_level(p);
    let mut j = lev - 1;
    loop
        invariant
            lev as nat == node_level(p as nat),
            1 <= lev <= 30,
            j <= lev - 1,
            p < w <= MAX_NODE_WIDTH,
            p % 2 == 1,
            w % 2 == 1,
            p + 1 < w,
            pow2(lev as nat) <= p + 1,
            right_child(p as nat, w as nat) == right_child_from(p as nat, j as nat, w as nat),
        decreases j,
    {
        proof {
            if (j as nat) < lev as nat {
                lemma_pow2_strictly_increases(j as nat, lev as nat);
            }
        }
        let pj = exec_pow2(j);
        if p + pj < w {
            proof {
                lemma_right_child(p as nat, w as nat);
            }
            return p + pj;
        }
        proof {
            if j == 0 {
                assert(pow2(0) == 1) by {
                    lemma2_to64();
                }
                assert(false);
            }
        }
        j = j - 1;
    }
}

/// Executable sibling computation.
pub fn sibling_index(x: usize, w: usize) -> (r: usize)
    requires
        x < w,
        w <= MAX_NODE_WIDTH,
        w % 2 == 1,
        x as nat != root_index(w as nat),
    ensures
        r as nat == sibling(x as nat, w as nat),
        r < w,
{
    let p = parent_index(x, w);
    proof {
        lemma_odd_level(p as nat);
    }
    if x < p {
        right_child_index(p, w)
    } else {
        left_child_index(p)
    }
}

/// Executable subtree-membership test.
pub fn is_below_check(x: usize, p: usize) -> (r: bool)
    requires
        x <= MAX_NODE_WIDTH,
        p <= MAX_NODE_WIDTH,
    ensures
        r == is_below(x as nat, p as nat),
{
    let lev = exec_level(p);
    proof {
        lemma_pow2_unfold((lev + 1) as nat);
    }
    let a = exec_ancestor(x, lev);
    a == p
}

} // verus!

verus! {

/// Level of the immediate right branch node `p + 2^j` (for `j` below
/// the level of `p`).
pub proof fn lemma_right_branch_level(p: nat, j: nat)
    requires
        node_level(p) >= 1,
        j < node_level(p),
    ensures
        node_level((p + pow2(j)) as nat) == j,
{
    broadcast use lemma_pow2_pos;

    let k = node_level(p);
    lemma_level_char(p);
    let p1 = pow2((k + 1) as nat);
    let q = p / p1;
    lemma_fundamental_div_mod(p as int, p1 as int);
    assert(pow2((k + 1) as nat) == 2 * pow2(k)) by {
        lemma_pow2_unfold((k + 1) as nat);
    }
    let r = (p + pow2(j)) as nat;
    let pj1 = pow2((j + 1) as nat);
    assert(pow2((j + 1) as nat) == 2 * pow2(j)) by {
        lemma_pow2_unfold((j + 1) as nat);
    }
    let m = pow2((k - (j + 1)) as nat);
    lemma_pow2_adds((k - (j + 1)) as nat, (j + 1) as nat);
    assert(pow2(k) == m * pj1);
    assert(r == pj1 * (2 * q * m + m) + (pow2(j) - 1)) by (nonlinear_arith)
        requires
            p == p1 * q + (pow2(k) - 1),
            p1 == 2 * pow2(k),
            pow2(k) == m * pj1,
            r == p + pow2(j),
    ;
    assert(pj1 * (2 * q * m + m) == (2 * q * m + m) * pj1) by (nonlinear_arith);
    assert((2 * q * m + m) * pj1 >= 0) by (nonlinear_arith)
        requires
            q >= 0,
            m >= 1,
            pj1 >= 1,
    ;
    lemma_fundamental_div_mod_converse_mod(
        r as int,
        pj1 as int,
        (2 * q * m + m) as int,
        pow2(j) - 1,
    );
    lemma_level_unique(r, j);
}

/// The right-child search never increases the level beyond its search
/// bound, in a tree of any width.
pub proof fn lemma_right_child_level_bound(p: nat, j: nat, w: nat)
    requires
        node_level(p) >= 1,
        j < node_level(p),
    ensures
        node_level(right_child_from(p, j, w)) <= j,
    decreases j,
{
    broadcast use lemma_pow2_pos;

    if p + pow2(j) < w {
        lemma_right_branch_level(p, j);
    } else if j == 0 {
        lemma_odd_level(p);
        assert((p + 1) % 2 == 0);
    } else {
        lemma_right_child_level_bound(p, (j - 1) as nat, w);
    }
}

} // verus!

verus! {

/// The number of path entries is bounded by the tree depth.
pub proof fn lemma_path_from_len(x: nat, k: nat, w: nat)
    ensures
        k <= floor_log2(w) + 1 ==> path_from(x, k, w).len() + k <= floor_log2(w) + 1,
    decreases floor_log2(w) + 1 - k,
{
    if k > floor_log2(w) {
    } else {
        lemma_path_from_len(x, (k + 1) as nat, w);
    }
}

} // verus!
