//! The TreeSync node model.
//!
//! A tree slot (`TreeSyncNode`) is either blank or holds a `Node`, which
//! is a leaf (a key package, plus the holder's private key in the owner's
//! own leaf) or a parent node (an HPKE public key, an optional private
//! key, a parent hash, and the unmerged-leaves bookkeeping). Each slot
//! also carries an optional cached tree hash.

use vstd::prelude::*;
use crate::codec::{be32, be64, enc_bytes, enc_opt_bytes, enc_u32_list, enc_bytes_list, copy_bytes, copy_opt_bytes, copy_u32s, append_be32, append_be64, append_enc_bytes, append_enc_u32_list};
use crate::crypto::CryptoProvider;

verus! {

/// Mathematical view of a key package.
pub struct KeyPackageV {
    pub public_key: Seq<u8>,
    pub credential: Seq<u8>,
    pub parent_hash: Option<Seq<u8>>,
    pub signature: Seq<u8>,
}

/// Mathematical view of a leaf node.
pub struct LeafNodeV {
    pub key_package: KeyPackageV,
    pub private_key: Option<Seq<u8>>,
}

/// Mathematical view of a parent node.
pub struct ParentNodeV {
    pub public_key: Seq<u8>,
    pub private_key: Option<Seq<u8>>,
    pub parent_hash: Seq<u8>,
    pub unmerged_leaves: Seq<u32>,
}

/// Mathematical view of a non-blank node.
pub enum NodeV {
    LeafNode(LeafNodeV),
    ParentNode(ParentNodeV),
}

/// Mathematical view of a tree slot.
pub struct TreeSyncNodeV {
    pub node: Option<NodeV>,
    pub tree_hash: Option<Seq<u8>>,
}

/// View of an optional byte vector.
pub open spec fn opt_bytes_view(o: Option<Vec<u8>>) -> Option<Seq<u8>> {
    match o {
        Option::None => Option::None,
        Option::Some(v) => Option::Some(v@),
    }
}

/// An MLS leaf: the public key package, and, in the owner's own leaf,
/// the matching HPKE private key.
pub struct KeyPackage {
    pub public_key: Vec<u8>,
    pub credential: Vec<u8>,
    pub parent_hash: Option<Vec<u8>>,
    pub signature: Vec<u8>,
}

impl View for KeyPackage {
    type V = KeyPackageV;

    open spec fn view(&self) -> KeyPackageV {
        KeyPackageV {
            public_key: self.public_key@,
            credential: self.credential@,
            parent_hash: opt_bytes_view(self.parent_hash),
            signature: self.signature@,
        }
    }
}

/// A leaf node of the tree.
pub struct LeafNode {
    pub key_package: KeyPackage,
    pub private_key: Option<Vec<u8>>,
}

impl View for LeafNode {
    type V = LeafNodeV;

    open spec fn view(&self) -> LeafNodeV {
        LeafNodeV { key_package: self.key_package@, private_key: opt_bytes_view(self.private_key) }
    }
}

/// A parent node of the tree.
pub struct ParentNode {
    pub public_key: Vec<u8>,
    pub private_key: Option<Vec<u8>>,
    pub parent_hash: Vec<u8>,
    pub unmerged_leaves: Vec<u32>,
}

impl View for ParentNode {
    type V = ParentNodeV;

    open spec fn view(&self) -> ParentNodeV {
        ParentNodeV {
            public_key: self.public_key@,
            private_key: opt_bytes_view(self.private_key),
            parent_hash: self.parent_hash@,
            unmerged_leaves: self.unmerged_leaves@,
        }
    }
}

/// A non-blank node.
pub enum Node {
    LeafNode(LeafNode),
    ParentNode(ParentNode),
}

impl View for Node {
    type V = NodeV;

    open spec fn view(&self) -> NodeV {
        match self {
            Node::LeafNode(l) => NodeV::LeafNode(l@),
            Node::ParentNode(p) => NodeV::ParentNode(p@),
        }
    }
}

/// A tree slot: an optional node plus an optional cached tree hash.
pub struct TreeSyncNode {
    pub node: Option<Node>,
    pub tree_hash: Option<Vec<u8>>,
}

/// View of an optional node.
pub open spec fn opt_node_view(o: Option<Node>) -> Option<NodeV> {
    match o {
        Option::None => Option::None,
        Option::Some(n) => Option::Some(n@),
    }
}

impl View for TreeSyncNode {
    type V = TreeSyncNodeV;

    open spec fn view(&self) -> TreeSyncNodeV {
        TreeSyncNodeV { node: opt_node_view(self.node), tree_hash: opt_bytes_view(self.tree_hash) }
    }
}

/// The public key of a node's view.
pub open spec fn node_public_key(n: NodeV) -> Seq<u8> {
    match n {
        NodeV::LeafNode(l) => l.key_package.public_key,
        NodeV::ParentNode(p) => p.public_key,
    }
}

/// The private key of a node's view, if one is held.
pub open spec fn node_private_key(n: NodeV) -> Option<Seq<u8>> {
    match n {
        NodeV::LeafNode(l) => l.private_key,
        NodeV::ParentNode(p) => p.private_key,
    }
}

/// A slot's view with a private key present.
pub open spec fn slot_has_private_key(t: TreeSyncNodeV) -> bool {
    match t.node {
        Option::Some(n) => node_private_key(n) is Some,
        Option::None => false,
    }
}

/// The public part of a slot's content, encoded for hashing. Private
/// keys and the cached hash are no part of it.
pub open spec fn spec_node_content(n: Option<NodeV>) -> Seq<u8> {
    match n {
        Option::None => seq![0u8],
        Option::Some(NodeV::LeafNode(l)) => seq![1u8] + enc_bytes(l.key_package.public_key)
            + enc_bytes(l.key_package.credential) + enc_opt_bytes(l.key_package.parent_hash)
            + enc_bytes(l.key_package.signature),
        Option::Some(NodeV::ParentNode(p)) => seq![2u8] + enc_bytes(p.public_key) + enc_bytes(
            p.parent_hash,
        ) + enc_u32_list(p.unmerged_leaves),
    }
}

/// The tree-hash input of one node: its position, its public content,
/// and the child hashes.
pub open spec fn spec_tree_hash_input(
    leaf_index: Option<u32>,
    node_index: u64,
    content: Seq<u8>,
    left_hash: Seq<u8>,
    right_hash: Seq<u8>,
) -> Seq<u8> {
    (match leaf_index {
        Option::None => seq![0u8],
        Option::Some(i) => seq![1u8] + be32(i),
    }) + be64(node_index) + content + enc_bytes(left_hash) + enc_bytes(right_hash)
}

/// The parent-hash input: the node's own parent hash and the filtered
/// copath resolution.
pub open spec fn spec_parent_hash_input(parent_hash: Seq<u8>, resolution: Seq<Seq<u8>>) -> Seq<
    u8,
> {
    enc_bytes(parent_hash) + enc_bytes_list(resolution)
}

/// The canonical parent hash of one node.
pub open spec fn spec_parent_hash<P: CryptoProvider>(
    provider: P,
    ciphersuite: u16,
    parent_hash: Seq<u8>,
    resolution: Seq<Seq<u8>>,
) -> Seq<u8> {
    provider.spec_hash(ciphersuite, spec_parent_hash_input(parent_hash, resolution))
}

impl KeyPackage {
    /// Field-by-field copy.
    pub fn duplicate(&self) -> (r: KeyPackage)
        ensures
            r@ == self@,
    {
        KeyPackage {
            public_key: copy_bytes(&self.public_key),
            credential: copy_bytes(&self.credential),
            parent_hash: copy_opt_bytes(&self.parent_hash),
            signature: copy_bytes(&self.signature),
        }
    }

    /// The payload a key package is signed over: everything but the
    /// signature itself.
    pub fn unsigned_payload(&self) -> (r: Vec<u8>)
        ensures
            r@ == spec_key_package_payload(self@),
    {
        let mut out: Vec<u8> = Vec::new();
        append_enc_bytes(&mut out, &self.public_key);
        append_enc_bytes(&mut out, &self.credential);
        match &self.parent_hash {
            Option::None => {
                out.push(0u8);
            },
            Option::Some(ph) => {
                out.push(1u8);
                append_enc_bytes(&mut out, ph);
            },
        }
        proof {
            assert(out@ =~= spec_key_package_payload(self@));
        }
        out
    }
}

/// The signed payload of a key package.
pub open spec fn spec_key_package_payload(kp: KeyPackageV) -> Seq<u8> {
    enc_bytes(kp.public_key) + enc_bytes(kp.credential) + enc_opt_bytes(kp.parent_hash)
}

impl LeafNode {
    /// Field-by-field copy.
    pub fn duplicate(&self) -> (r: LeafNode)
        ensures
            r@ == self@,
    {
        LeafNode {
            key_package: self.key_package.duplicate(),
            private_key: copy_opt_bytes(&self.private_key),
        }
    }
}

impl ParentNode {
    /// A fresh parent node carrying only a public key: empty parent
    /// hash, no unmerged leaves, no private key.
    pub fn from_public_key(public_key: Vec<u8>) -> (r: ParentNode)
        ensures
            r@.public_key == public_key@,
            r@.private_key is None,
            r@.parent_hash == Seq::<u8>::empty(),
            r@.unmerged_leaves == Seq::<u32>::empty(),
    {
        let r = ParentNode {
            public_key,
            private_key: Option::None,
            parent_hash: Vec::new(),
            unmerged_leaves: Vec::new(),
        };
        proof {
            assert(r@.parent_hash =~= Seq::<u8>::empty());
            assert(r@.unmerged_leaves =~= Seq::<u32>::empty());
        }
        r
    }

    /// Field-by-field copy.
    pub fn duplicate(&self) -> (r: ParentNode)
        ensures
            r@ == self@,
    {
        ParentNode {
            public_key: copy_bytes(&self.public_key),
            private_key: copy_opt_bytes(&self.private_key),
            parent_hash: copy_bytes(&self.parent_hash),
            unmerged_leaves: copy_u32s(&self.unmerged_leaves),
        }
    }

    /// Record a leaf added below this node since its last key refresh.
    pub fn add_unmerged_leaf(&mut self, leaf_index: u32)
        ensures
            final(self)@ == (ParentNodeV {
                unmerged_leaves: old(self)@.unmerged_leaves.push(leaf_index),
                ..old(self)@
            }),
    {
        self.unmerged_leaves.push(leaf_index);
    }

    /// Replace the stored parent hash.
    pub fn set_parent_hash(&mut self, parent_hash: Vec<u8>)
        ensures
            final(self)@ == (ParentNodeV { parent_hash: parent_hash@, ..old(self)@ }),
    {
        self.parent_hash = parent_hash;
    }

    /// Store a derived private key on this node.
    pub fn set_private_key(&mut self, private_key: Vec<u8>)
        ensures
            final(self)@ == (ParentNodeV {
                private_key: Option::Some(private_key@),
                ..old(self)@
            }),
    {
        self.private_key = Option::Some(private_key);
    }
}

impl Node {
    /// Field-by-field copy.
    pub fn duplicate(&self) -> (r: Node)
        ensures
            r@ == self@,
    {
        match self {
            Node::LeafNode(l) => Node::LeafNode(l.duplicate()),
            Node::ParentNode(p) => Node::ParentNode(p.duplicate()),
        }
    }

    /// The node's HPKE public key.
    pub fn public_key(&self) -> (r: &Vec<u8>)
        ensures
            r@ == node_public_key(self@),
    {
        match self {
            Node::LeafNode(l) => &l.key_package.public_key,
            Node::ParentNode(p) => &p.public_key,
        }
    }

    /// The node's HPKE private key, if held.
    pub fn private_key(&self) -> (r: Option<&Vec<u8>>)
        ensures
            r is Some <==> node_private_key(self@) is Some,
            r is Some ==> r->0@ == node_private_key(self@)->0,
    {
        match self {
            Node::LeafNode(l) => {
                match &l.private_key {
                    Option::None => Option::None,
                    Option::Some(sk) => Option::Some(sk),
                }
            },
            Node::ParentNode(p) => {
                match &p.private_key {
                    Option::None => Option::None,
                    Option::Some(sk) => Option::Some(sk),
                }
            },
        }
    }
}

impl TreeSyncNode {
    /// A blank slot.
    pub fn blank() -> (r: TreeSyncNode)
        ensures
            r@.node is None,
            r@.tree_hash is None,
    {
        TreeSyncNode { node: Option::None, tree_hash: Option::None }
    }

    /// A slot holding the given node, with no cached hash.
    pub fn from_node(node: Node) -> (r: TreeSyncNode)
        ensures
            r@.node == Option::Some(node@),
            r@.tree_hash is None,
    {
        TreeSyncNode { node: Option::Some(node), tree_hash: Option::None }
    }

    /// Field-by-field copy.
    pub fn duplicate(&self) -> (r: TreeSyncNode)
        ensures
            r@ == self@,
    {
        let node = match &self.node {
            Option::None => Option::None,
            Option::Some(n) => Option::Some(n.duplicate()),
        };
        TreeSyncNode { node, tree_hash: copy_opt_bytes(&self.tree_hash) }
    }

    /// Drop the cached tree hash.
    pub fn erase_tree_hash(&mut self)
        ensures
            final(self)@.node == old(self)@.node,
            final(self)@.tree_hash is None,
    {
        self.tree_hash = Option::None;
    }

    /// Encode the public content of this slot for hashing.
    pub fn append_content(&self, out: &mut Vec<u8>)
        ensures
            final(out)@ == old(out)@ + spec_node_content(self@.node),
    {
        match &self.node {
            Option::None => {
                out.push(0u8);
                proof {
                    assert(out@ =~= old(out)@ + spec_node_content(self@.node));
                }
            },
            Option::Some(Node::LeafNode(l)) => {
                out.push(1u8);
                append_enc_bytes(out, &l.key_package.public_key);
                append_enc_bytes(out, &l.key_package.credential);
                match &l.key_package.parent_hash {
                    Option::None => {
                        out.push(0u8);
                    },
                    Option::Some(ph) => {
                        out.push(1u8);
                        append_enc_bytes(out, ph);
                    },
                }
                append_enc_bytes(out, &l.key_package.signature);
                proof {
                    assert(out@ =~= old(out)@ + spec_node_content(self@.node));
                }
            },
            Option::Some(Node::ParentNode(p)) => {
                out.push(2u8);
                append_enc_bytes(out, &p.public_key);
                append_enc_bytes(out, &p.parent_hash);
                append_enc_u32_list(out, &p.unmerged_leaves);
                proof {
                    assert(out@ =~= old(out)@ + spec_node_content(self@.node));
                }
            },
        }
    }
}

/// The canonical hash of one node given its position and child hashes.
pub open spec fn spec_node_hash<P: CryptoProvider>(
    provider: P,
    ciphersuite: u16,
    leaf_index: Option<u32>,
    node_index: u64,
    node: Option<NodeV>,
    left_hash: Seq<u8>,
    right_hash: Seq<u8>,
) -> Seq<u8> {
    provider.spec_hash(
        ciphersuite,
        spec_tree_hash_input(leaf_index, node_index, spec_node_content(node), left_hash, right_hash),
    )
}

impl TreeSyncNode {
    /// Compute this slot's tree hash from its position, its public
    /// content and the child hashes, and cache the result.
    pub fn compute_tree_hash<P: CryptoProvider>(
        &mut self,
        provider: &P,
        ciphersuite: u16,
        leaf_index: Option<u32>,
        node_index: u64,
        left_hash: Vec<u8>,
        right_hash: Vec<u8>,
    ) -> (r: Vec<u8>)
        ensures
            r@ == spec_node_hash(
                *provider,
                ciphersuite,
                leaf_index,
                node_index,
                old(self)@.node,
                left_hash@,
                right_hash@,
            ),
            final(self)@.node == old(self)@.node,
            final(self)@.tree_hash == Option::Some(r@),
    {
        let mut input: Vec<u8> = Vec::new();
        match leaf_index {
            Option::None => {
                input.push(0u8);
            },
            Option::Some(i) => {
                input.push(1u8);
                append_be32(&mut input, i);
            },
        }
        append_be64(&mut input, node_index);
        self.append_content(&mut input);
        append_enc_bytes(&mut input, &left_hash);
        append_enc_bytes(&mut input, &right_hash);
        proof {
            assert(input@ =~= spec_tree_hash_input(
                leaf_index,
                node_index,
                spec_node_content(self@.node),
                left_hash@,
                right_hash@,
            ));
        }
        let r = provider.hash(ciphersuite, &input);
        self.tree_hash = Option::Some(copy_bytes(&r));
        r
    }
}

} // verus!

verus! {

/// A plaintext update-path node: the derived public key and the path
/// secret that the committer encrypts to the matching copath resolution.
pub struct PlainUpdatePathNode {
    pub public_key: Vec<u8>,
    pub path_secret: Vec<u8>,
}

/// The commit secret: the path secret derived one step above the root.
pub struct CommitSecret {
    pub secret: Vec<u8>,
}

/// An unsigned key package in the making, together with the secrets it
/// was derived from.
pub struct KeyPackageBundlePayload {
    pub public_key: Vec<u8>,
    pub credential: Vec<u8>,
    pub parent_hash: Option<Vec<u8>>,
    pub private_key: Vec<u8>,
    pub leaf_secret: Vec<u8>,
}

/// A signed key package together with its private key and leaf secret.
pub struct KeyPackageBundle {
    pub key_package: KeyPackage,
    pub private_key: Vec<u8>,
    pub leaf_secret: Vec<u8>,
}

impl KeyPackageBundlePayload {
    /// Stamp the computed parent hash into the payload.
    pub fn update_parent_hash(&mut self, parent_hash: &Vec<u8>)
        ensures
            final(self).public_key@ == old(self).public_key@,
            final(self).credential@ == old(self).credential@,
            opt_bytes_view(final(self).parent_hash) == Option::Some(parent_hash@),
            final(self).private_key@ == old(self).private_key@,
            final(self).leaf_secret@ == old(self).leaf_secret@,
    {
        self.parent_hash = Option::Some(copy_bytes(parent_hash));
    }

    /// Sign the payload under the given credential, producing the
    /// finished bundle.
    pub fn sign<P: CryptoProvider>(
        self,
        provider: &P,
        ciphersuite: u16,
        credential_bundle: &Vec<u8>,
    ) -> (r: KeyPackageBundle)
        ensures
            r.key_package@ == (KeyPackageV {
                public_key: self.public_key@,
                credential: self.credential@,
                parent_hash: opt_bytes_view(self.parent_hash),
                signature: provider.spec_sign(
                    ciphersuite,
                    spec_key_package_payload(
                        KeyPackageV {
                            public_key: self.public_key@,
                            credential: self.credential@,
                            parent_hash: opt_bytes_view(self.parent_hash),
                            signature: Seq::empty(),
                        },
                    ),
                    credential_bundle@,
                ),
            }),
            r.private_key@ == self.private_key@,
            r.leaf_secret@ == self.leaf_secret@,
    {
        let mut unsigned = KeyPackage {
            public_key: self.public_key,
            credential: self.credential,
            parent_hash: self.parent_hash,
            signature: Vec::new(),
        };
        let payload = unsigned.unsigned_payload();
        let signature = provider.sign(ciphersuite, &payload, credential_bundle);
        unsigned.signature = signature;
        KeyPackageBundle {
            key_package: unsigned,
            private_key: self.private_key,
            leaf_secret: self.leaf_secret,
        }
    }
}

/// The path secret at level `k` of the derivation chain that starts at
/// `s0`.
pub open spec fn spec_secret_chain<P: CryptoProvider>(
    provider: P,
    ciphersuite: u16,
    s0: Seq<u8>,
    k: nat,
) -> Seq<u8>
    decreases k,
{
    if k == 0 {
        s0
    } else {
        provider.spec_derive_path_secret(
            ciphersuite,
            spec_secret_chain(provider, ciphersuite, s0, (k - 1) as nat),
        )
    }
}

/// The parent node derived at level `k` of the chain: the derived key
/// pair, an empty parent hash and no unmerged leaves.
pub open spec fn spec_derived_parent_node<P: CryptoProvider>(
    provider: P,
    ciphersuite: u16,
    s0: Seq<u8>,
    k: nat,
) -> ParentNodeV {
    ParentNodeV {
        public_key: provider.spec_derive_public(
            ciphersuite,
            spec_secret_chain(provider, ciphersuite, s0, k),
        ),
        private_key: Option::Some(
            provider.spec_derive_private(
                ciphersuite,
                spec_secret_chain(provider, ciphersuite, s0, k),
            ),
        ),
        parent_hash: Seq::empty(),
        unmerged_leaves: Seq::empty(),
    }
}

impl ParentNode {
    /// Derive a fresh direct path of the given length from a path
    /// secret: one key pair per level by chained derivation, the
    /// plaintext update-path nodes for the copath encryption, and the
    /// commit secret above the root.
    pub fn derive_path<P: CryptoProvider>(
        provider: &P,
        ciphersuite: u16,
        path_secret: Vec<u8>,
        path_length: usize,
    ) -> (r: (Vec<ParentNode>, Vec<PlainUpdatePathNode>, CommitSecret))
        ensures
            r.0@.len() == path_length,
            r.1@.len() == path_length,
            forall|k: int|
                0 <= k < path_length ==> (#[trigger] r.0@[k])@ == spec_derived_parent_node(
                    *provider,
                    ciphersuite,
                    path_secret@,
                    k as nat,
                ),
            forall|k: int|
                0 <= k < path_length ==> (#[trigger] r.1@[k]).public_key@
                    == provider.spec_derive_public(
                    ciphersuite,
                    spec_secret_chain(*provider, ciphersuite, path_secret@, k as nat),
                ) && r.1@[k].path_secret@ == spec_secret_chain(
                    *provider,
                    ciphersuite,
                    path_secret@,
                    k as nat,
                ),
            r.2.secret@ == spec_secret_chain(
                *provider,
                ciphersuite,
                path_secret@,
                path_length as nat,
            ),
    {
        let mut path: Vec<ParentNode> = Vec::new();
        let mut update_nodes: Vec<PlainUpdatePathNode> = Vec::new();
        let mut secret = path_secret;
        let ghost s0 = secret@;
        let mut k: usize = 0;
        while k < path_length
            invariant
                k <= path_length,
                path@.len() == k,
                update_nodes@.len() == k,
                secret@ == spec_secret_chain(*provider, ciphersuite, s0, k as nat),
                forall|j: int|
                    0 <= j < k ==> (#[trigger] path@[j])@ == spec_derived_parent_node(
                        *provider,
                        ciphersuite,
                        s0,
                        j as nat,
                    ),
                forall|j: int|
                    0 <= j < k ==> (#[trigger] update_nodes@[j]).public_key@
                        == provider.spec_derive_public(
                        ciphersuite,
                        spec_secret_chain(*provider, ciphersuite, s0, j as nat),
                    ) && update_nodes@[j].path_secret@ == spec_secret_chain(
                        *provider,
                        ciphersuite,
                        s0,
                        j as nat,
                    ),
            decreases path_length - k,
        {
            let (public_key, private_key) = provider.derive_key_pair(ciphersuite, &secret);
            let node = ParentNode {
                public_key: copy_bytes(&public_key),
                private_key: Option::Some(private_key),
                parent_hash: Vec::new(),
                unmerged_leaves: Vec::new(),
            };
            proof {
                assert(node@.parent_hash =~= Seq::<u8>::empty());
                assert(node@.unmerged_leaves =~= Seq::<u32>::empty());
            }
            path.push(node);
            update_nodes.push(
                PlainUpdatePathNode { public_key, path_secret: copy_bytes(&secret) },
            );
            secret = provider.derive_path_secret(ciphersuite, &secret);
            k = k + 1;
        }
        (path, update_nodes, CommitSecret { secret })
    }
}

} // verus!
