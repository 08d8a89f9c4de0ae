//! A verified core of an MLS group-state engine.
//!
//! The tree half maintains the left-balanced binary ratchet tree behind
//! continuous group key agreement: `TreeSync` snapshots, `TreeSyncDiff`
//! mutations (add, remove and update leaves, update-path application,
//! path-secret derivation, parent-hash and tree-hash computation), and
//! `StagedTreeSyncDiff` records that merge back. The storage half is a
//! versioned, labelled key-value provider for per-group cryptographic
//! state, together with a facade over pluggable key-value backends.
//!
//! Ciphersuite primitives stay behind the `CryptoProvider` trait;
//! serialization of typed entities stays outside, with every storage
//! operation working on plain bytes.

pub mod codec;
pub mod crypto;
pub mod diff;
pub mod kv;
pub mod laws;
pub mod node;
pub mod storage;
pub mod tree_math;
pub mod treesync;
