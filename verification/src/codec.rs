//! Deterministic, length-prefixed byte encodings.
//!
//! The tree-hash and parent-hash computations, and the storage provider's
//! composed sub-keys, all need an injective serialization of byte strings
//! and lists of byte strings. A fixed-width big-endian length prefix
//! followed by the raw bytes serves for a single string; lists carry an
//! element count up front.

use vstd::prelude::*;

verus! {

/// Big-endian encoding of a 16-bit value.
pub open spec fn be16(x: u16) -> Seq<u8> {
    seq![(x / 256) as u8, (x % 256) as u8]
}

/// Big-endian encoding of a 32-bit value.
pub open spec fn be32(x: u32) -> Seq<u8> {
    seq![
        (x / 0x100_0000) as u8,
        ((x / 0x1_0000) % 256) as u8,
        ((x / 256) % 256) as u8,
        (x % 256) as u8,
    ]
}

/// Big-endian encoding of a 64-bit value.
pub open spec fn be64(x: u64) -> Seq<u8> {
    seq![
        ((x / 0x100_0000_0000_0000) % 256) as u8,
        ((x / 0x1_0000_0000_0000) % 256) as u8,
        ((x / 0x100_0000_0000) % 256) as u8,
        ((x / 0x1_0000_0000) % 256) as u8,
        ((x / 0x100_0000) % 256) as u8,
        ((x / 0x1_0000) % 256) as u8,
        ((x / 256) % 256) as u8,
        (x % 256) as u8,
    ]
}

/// A byte string, prefixed with its length.
pub open spec fn enc_bytes(b: Seq<u8>) -> Seq<u8> {
    be64(b.len() as u64) + b
}

/// A list of byte strings: element count, then each element
/// length-prefixed.
pub open spec fn enc_bytes_list(l: Seq<Seq<u8>>) -> Seq<u8> {
    be64(l.len() as u64) + enc_bytes_concat(l)
}

/// Concatenation of length-prefixed byte strings.
pub open spec fn enc_bytes_concat(l: Seq<Seq<u8>>) -> Seq<u8>
    decreases l.len(),
{
    if l.len() == 0 {
        Seq::empty()
    } else {
        enc_bytes(l[0]) + enc_bytes_concat(l.drop_first())
    }
}

/// A list of 32-bit values: element count, then each in big-endian form.
pub open spec fn enc_u32_list(l: Seq<u32>) -> Seq<u8> {
    be64(l.len() as u64) + enc_u32_concat(l)
}

/// Concatenation of big-endian 32-bit values.
pub open spec fn enc_u32_concat(l: Seq<u32>) -> Seq<u8>
    decreases l.len(),
{
    if l.len() == 0 {
        Seq::empty()
    } else {
        be32(l[0]) + enc_u32_concat(l.drop_first())
    }
}

/// An optional byte string: a presence tag, then the string if present.
pub open spec fn enc_opt_bytes(b: Option<Seq<u8>>) -> Seq<u8> {
    match b {
        Option::None => seq![0u8],
        Option::Some(s) => seq![1u8] + enc_bytes(s),
    }
}

/// Copy a byte vector element by element.
pub fn copy_bytes(v: &Vec<u8>) -> (r: Vec<u8>)
    ensures
        r@ == v@,
{
    let mut r: Vec<u8> = Vec::new();
    let mut i: usize = 0;
    while i < v.len()
        invariant
            i <= v.len(),
            r@ == v@.take(i as int),
        decreases v.len() - i,
    {
        r.push(v[i]);
        proof {
            assert(r@ =~= v@.take(i + 1));
        }
        i = i + 1;
    }
    proof {
        assert(v@.take(v@.len() as int) =~= v@);
    }
    r
}

/// Copy an optional byte vector.
pub fn copy_opt_bytes(v: &Option<Vec<u8>>) -> (r: Option<Vec<u8>>)
    ensures
        r is Some <==> v is Some,
        r is Some ==> r->0@ == v->0@,
{
    match v {
        Option::None => Option::None,
        Option::Some(b) => Option::Some(copy_bytes(b)),
    }
}

/// Copy a vector of 32-bit values.
pub fn copy_u32s(v: &Vec<u32>) -> (r: Vec<u32>)
    ensures
        r@ == v@,
{
    let mut r: Vec<u32> = Vec::new();
    let mut i: usize = 0;
    while i < v.len()
        invariant
            i <= v.len(),
            r@ == v@.take(i as int),
        decreases v.len() - i,
    {
        r.push(v[i]);
        proof {
            assert(r@ =~= v@.take(i + 1));
        }
        i = i + 1;
    }
    proof {
        assert(v@.take(v@.len() as int) =~= v@);
    }
    r
}

/// Append the contents of `b` to `out`.
pub fn append_bytes(out: &mut Vec<u8>, b: &Vec<u8>)
    ensures
        final(out)@ == old(out)@ + b@,
{
    let mut i: usize = 0;
    while i < b.len()
        invariant
            i <= b.len(),
            out@ == old(out)@ + b@.take(i as int),
        decreases b.len() - i,
    {
        out.push(b[i]);
        proof {
            assert(old(out)@ + b@.take(i as int) + seq![b@[i as int]] =~= old(out)@ + b@.take(
                i + 1,
            ));
        }
        i = i + 1;
    }
    proof {
        assert(old(out)@ + b@.take(b@.len() as int) =~= old(out)@ + b@);
    }
}

/// Append the big-endian form of a 16-bit value.
pub fn append_be16(out: &mut Vec<u8>, x: u16)
    ensures
        final(out)@ == old(out)@ + be16(x),
{
    out.push((x / 256) as u8);
    out.push((x % 256) as u8);
    proof {
        assert(out@ =~= old(out)@ + be16(x));
    }
}

/// Append the big-endian form of a 32-bit value.
pub fn append_be32(out: &mut Vec<u8>, x: u32)
    ensures
        final(out)@ == old(out)@ + be32(x),
{
    out.push((x / 0x100_0000) as u8);
    out.push(((x / 0x1_0000) % 256) as u8);
    out.push(((x / 256) % 256) as u8);
    out.push((x % 256) as u8);
    proof {
        assert(out@ =~= old(out)@ + be32(x));
    }
}

/// Append the big-endian form of a 64-bit value.
pub fn append_be64(out: &mut Vec<u8>, x: u64)
    ensures
        final(out)@ == old(out)@ + be64(x),
{
    out.push(((x / 0x100_0000_0000_0000) % 256) as u8);
    out.push(((x / 0x1_0000_0000_0000) % 256) as u8);
    out.push(((x / 0x100_0000_0000) % 256) as u8);
    out.push(((x / 0x1_0000_0000) % 256) as u8);
    out.push(((x / 0x100_0000) % 256) as u8);
    out.push(((x / 0x1_0000) % 256) as u8);
    out.push(((x / 256) % 256) as u8);
    out.push((x % 256) as u8);
    proof {
        assert(out@ =~= old(out)@ + be64(x));
    }
}

/// Append a length-prefixed byte string.
pub fn append_enc_bytes(out: &mut Vec<u8>, b: &Vec<u8>)
    ensures
        final(out)@ == old(out)@ + enc_bytes(b@),
{
    append_be64(out, b.len() as u64);
    append_bytes(out, b);
    proof {
        assert(out@ =~= old(out)@ + enc_bytes(b@));
    }
}

/// Append a length-prefixed list of byte strings.
pub fn append_enc_bytes_list(out: &mut Vec<u8>, l: &Vec<Vec<u8>>)
    ensures
        final(out)@ == old(out)@ + enc_bytes_list(l.deep_view()),
{
    append_be64(out, l.len() as u64);
    let ghost all = l.deep_view();
    proof {
        assert(all.len() == l@.len());
        assert(all.skip(0) =~= all);
    }
    let mut i: usize = 0;
    while i < l.len()
        invariant
            i <= l.len(),
            all == l.deep_view(),
            all.len() == l@.len(),
            forall|j: int| 0 <= j < l@.len() ==> all[j] == #[trigger] l@[j]@,
            out@ == old(out)@ + be64(l@.len() as u64) + enc_bytes_concat(all.take(i as int)),
        decreases l.len() - i,
    {
        let b = &l[i];
        append_enc_bytes(out, b);
        proof {
            lemma_enc_bytes_concat_snoc(all, i as int);
            assert(out@ =~= old(out)@ + be64(l@.len() as u64) + enc_bytes_concat(
                all.take(i + 1),
            ));
        }
        i = i + 1;
    }
    proof {
        assert(all.take(all.len() as int) =~= all);
        assert(out@ =~= old(out)@ + enc_bytes_list(all));
    }
}

/// Extending the prefix of a concatenation by one element appends that
/// element's encoding.
pub proof fn lemma_enc_bytes_concat_snoc(l: Seq<Seq<u8>>, i: int)
    requires
        0 <= i < l.len(),
    ensures
        enc_bytes_concat(l.take(i + 1)) == enc_bytes_concat(l.take(i)) + enc_bytes(l[i]),
    decreases i,
{
    if i == 0 {
        assert(l.take(1).drop_first() =~= Seq::<Seq<u8>>::empty());
        assert(l.take(1)[0] == l[0]);
        assert(enc_bytes_concat(l.take(1)) == enc_bytes(l.take(1)[0]) + enc_bytes_concat(
            l.take(1).drop_first(),
        ));
        assert(enc_bytes(l[0]) + Seq::<u8>::empty() =~= enc_bytes(l[0]));
        assert(enc_bytes_concat(l.take(0)) =~= Seq::<u8>::empty());
        assert(enc_bytes_concat(l.take(0)) + enc_bytes(l[0]) =~= enc_bytes(l[0]));
    } else {
        let t = l.drop_first();
        lemma_enc_bytes_concat_snoc(t, i - 1);
        assert(l.take(i + 1).drop_first() =~= t.take(i));
        assert(l.take(i).drop_first() =~= t.take(i - 1));
        assert(l.take(i + 1)[0] == l[0]);
        assert(l.take(i)[0] == l[0]);
        assert(t[i - 1] == l[i]);
        assert(enc_bytes_concat(l.take(i + 1)) == enc_bytes(l.take(i + 1)[0]) + enc_bytes_concat(
            l.take(i + 1).drop_first(),
        ));
        assert(enc_bytes_concat(l.take(i)) == enc_bytes(l.take(i)[0]) + enc_bytes_concat(
            l.take(i).drop_first(),
        ));
        assert(enc_bytes(l[0]) + (enc_bytes_concat(t.take(i - 1)) + enc_bytes(l[i])) =~= (
        enc_bytes(l[0]) + enc_bytes_concat(t.take(i - 1))) + enc_bytes(l[i]));
    }
}

/// Append a length-prefixed list of 32-bit values.
pub fn append_enc_u32_list(out: &mut Vec<u8>, l: &Vec<u32>)
    ensures
        final(out)@ == old(out)@ + enc_u32_list(l@),
{
    append_be64(out, l.len() as u64);
    let ghost all = l@;
    let mut i: usize = 0;
    while i < l.len()
        invariant
            i <= l.len(),
            all == l@,
            out@ == old(out)@ + be64(l@.len() as u64) + enc_u32_concat(all.take(i as int)),
        decreases l.len() - i,
    {
        append_be32(out, l[i]);
        proof {
            lemma_enc_u32_concat_snoc(all, i as int);
            assert(out@ =~= old(out)@ + be64(l@.len() as u64) + enc_u32_concat(all.take(i + 1)));
        }
        i = i + 1;
    }
    proof {
        assert(all.take(all.len() as int) =~= all);
        assert(out@ =~= old(out)@ + enc_u32_list(all));
    }
}

/// Companion of `lemma_enc_bytes_concat_snoc` for 32-bit lists.
pub proof fn lemma_enc_u32_concat_snoc(l: Seq<u32>, i: int)
    requires
        0 <= i < l.len(),
    ensures
        enc_u32_concat(l.take(i + 1)) == enc_u32_concat(l.take(i)) + be32(l[i]),
    decreases i,
{
    if i == 0 {
        assert(l.take(1).drop_first() =~= Seq::<u32>::empty());
        assert(l.take(1)[0] == l[0]);
        assert(enc_u32_concat(l.take(1)) == be32(l.take(1)[0]) + enc_u32_concat(
            l.take(1).drop_first(),
        ));
        assert(be32(l[0]) + Seq::<u8>::empty() =~= be32(l[0]));
        assert(enc_u32_concat(l.take(0)) =~= Seq::<u8>::empty());
        assert(enc_u32_concat(l.take(0)) + be32(l[0]) =~= be32(l[0]));
    } else {
        let t = l.drop_first();
        lemma_enc_u32_concat_snoc(t, i - 1);
        assert(l.take(i + 1).drop_first() =~= t.take(i));
        assert(l.take(i).drop_first() =~= t.take(i - 1));
        assert(l.take(i + 1)[0] == l[0]);
        assert(l.take(i)[0] == l[0]);
        assert(t[i - 1] == l[i]);
        assert(enc_u32_concat(l.take(i + 1)) == be32(l.take(i + 1)[0]) + enc_u32_concat(
            l.take(i + 1).drop_first(),
        ));
        assert(enc_u32_concat(l.take(i)) == be32(l.take(i)[0]) + enc_u32_concat(
            l.take(i).drop_first(),
        ));
        assert(be32(l[0]) + (enc_u32_concat(t.take(i - 1)) + be32(l[i])) =~= (be32(l[0])
            + enc_u32_concat(t.take(i - 1))) + be32(l[i]));
    }
}

} // verus!

verus! {

/// Byte-string equality.
pub fn bytes_eq(a: &Vec<u8>, b: &Vec<u8>) -> (r: bool)
    ensures
        r == (a@ == b@),
{
    if a.len() != b.len() {
        proof {
            assert(a@.len() != b@.len());
        }
        return false;
    }
    let mut i: usize = 0;
    while i < a.len()
        invariant
            i <= a.len(),
            a@.len() == b@.len(),
            forall|j: int| 0 <= j < i ==> a@[j] == b@[j],
        decreases a.len() - i,
    {
        if a[i] != b[i] {
            return false;
        }
        i = i + 1;
    }
    proof {
        assert(a@ =~= b@);
    }
    true
}

/// Membership of a 32-bit value in a vector.
pub fn u32s_contains(v: &Vec<u32>, x: u32) -> (r: bool)
    ensures
        r == v@.contains(x),
{
    let mut i: usize = 0;
    while i < v.len()
        invariant
            i <= v.len(),
            forall|j: int| 0 <= j < i ==> v@[j] != x,
        decreases v.len() - i,
    {
        if v[i] == x {
            return true;
        }
        i = i + 1;
    }
    false
}

} // verus!
