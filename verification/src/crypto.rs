//! The crypto-provider contract that the tree subsystem consumes.
//!
//! The ciphersuite's primitives are outside this library's scope: a
//! backend supplies a hash, a key-derivation step, key-pair derivation
//! and signing. Each operation is required to be a pure function of its
//! inputs, which every real primitive is; the per-implementation spec
//! functions name those values so that the tree operations' contracts
//! can speak about them.

use vstd::prelude::*;
use crate::codec::{be16, enc_bytes, append_be16, append_bytes, append_enc_bytes};

verus! {

/// Contract of a cryptographic backend. All operations are
/// deterministic: the exec methods return exactly the values named by
/// the corresponding spec functions.
pub trait CryptoProvider: Sized {
    /// The hash primitive over an already-encoded input.
    spec fn spec_hash(&self, ciphersuite: u16, input: Seq<u8>) -> Seq<u8>;

    /// One step of the path-secret key-derivation chain.
    spec fn spec_derive_path_secret(&self, ciphersuite: u16, secret: Seq<u8>) -> Seq<u8>;

    /// Public half of the HPKE key pair derived from a path secret.
    spec fn spec_derive_public(&self, ciphersuite: u16, secret: Seq<u8>) -> Seq<u8>;

    /// Private half of the HPKE key pair derived from a path secret.
    spec fn spec_derive_private(&self, ciphersuite: u16, secret: Seq<u8>) -> Seq<u8>;

    /// Signature over a payload under a credential's signature key.
    spec fn spec_sign(&self, ciphersuite: u16, payload: Seq<u8>, credential: Seq<u8>) -> Seq<u8>;

    fn hash(&self, ciphersuite: u16, input: &Vec<u8>) -> (r: Vec<u8>)
        ensures
            r@ == self.spec_hash(ciphersuite, input@),
    ;

    fn derive_path_secret(&self, ciphersuite: u16, secret: &Vec<u8>) -> (r: Vec<u8>)
        ensures
            r@ == self.spec_derive_path_secret(ciphersuite, secret@),
    ;

    fn derive_key_pair(&self, ciphersuite: u16, secret: &Vec<u8>) -> (r: (Vec<u8>, Vec<u8>))
        ensures
            r.0@ == self.spec_derive_public(ciphersuite, secret@),
            r.1@ == self.spec_derive_private(ciphersuite, secret@),
    ;

    fn sign(&self, ciphersuite: u16, payload: &Vec<u8>, credential: &Vec<u8>) -> (r: Vec<u8>)
        ensures
            r@ == self.spec_sign(ciphersuite, payload@, credential@),
    ;
}

/// A deterministic, non-cryptographic reference backend. Every output
/// is a tagged transcript of the inputs, so distinct inputs give
/// distinct outputs and all provider laws hold by construction. It
/// exercises the tree logic in tests; a production deployment supplies
/// a real ciphersuite behind the same trait.
pub struct ReferenceCryptoProvider;

impl CryptoProvider for ReferenceCryptoProvider {
    open spec fn spec_hash(&self, ciphersuite: u16, input: Seq<u8>) -> Seq<u8> {
        seq![1u8] + be16(ciphersuite) + input
    }

    open spec fn spec_derive_path_secret(&self, ciphersuite: u16, secret: Seq<u8>) -> Seq<u8> {
        seq![2u8] + be16(ciphersuite) + secret
    }

    open spec fn spec_derive_public(&self, ciphersuite: u16, secret: Seq<u8>) -> Seq<u8> {
        seq![3u8] + be16(ciphersuite) + secret
    }

    open spec fn spec_derive_private(&self, ciphersuite: u16, secret: Seq<u8>) -> Seq<u8> {
        seq![4u8] + be16(ciphersuite) + secret
    }

    open spec fn spec_sign(&self, ciphersuite: u16, payload: Seq<u8>, credential: Seq<u8>) -> Seq<
        u8,
    > {
        seq![5u8] + be16(ciphersuite) + enc_bytes(payload) + credential
    }

    fn hash(&self, ciphersuite: u16, input: &Vec<u8>) -> (r: Vec<u8>) {
        let mut out: Vec<u8> = Vec::new();
        out.push(1u8);
        append_be16(&mut out, ciphersuite);
        append_bytes(&mut out, input);
        proof {
            assert(out@ =~= seq![1u8] + be16(ciphersuite) + input@);
        }
        out
    }

    fn derive_path_secret(&self, ciphersuite: u16, secret: &Vec<u8>) -> (r: Vec<u8>) {
        let mut out: Vec<u8> = Vec::new();
        out.push(2u8);
        append_be16(&mut out, ciphersuite);
        append_bytes(&mut out, secret);
        proof {
            assert(out@ =~= seq![2u8] + be16(ciphersuite) + secret@);
        }
        out
    }

    fn derive_key_pair(&self, ciphersuite: u16, secret: &Vec<u8>) -> (r: (Vec<u8>, Vec<u8>)) {
        let mut pk: Vec<u8> = Vec::new();
        pk.push(3u8);
        append_be16(&mut pk, ciphersuite);
        append_bytes(&mut pk, secret);
        let mut sk: Vec<u8> = Vec::new();
        sk.push(4u8);
        append_be16(&mut sk, ciphersuite);
        append_bytes(&mut sk, secret);
        proof {
            assert(pk@ =~= seq![3u8] + be16(ciphersuite) + secret@);
            assert(sk@ =~= seq![4u8] + be16(ciphersuite) + secret@);
        }
        (pk, sk)
    }

    fn sign(&self, ciphersuite: u16, payload: &Vec<u8>, credential: &Vec<u8>) -> (r: Vec<u8>) {
        let mut out: Vec<u8> = Vec::new();
        out.push(5u8);
        append_be16(&mut out, ciphersuite);
        append_enc_bytes(&mut out, payload);
        append_bytes(&mut out, credential);
        proof {
            assert(out@ =~= seq![5u8] + be16(ciphersuite) + enc_bytes(payload@) + credential@);
        }
        out
    }
}

} // verus!
