//! The outside cryptographic and system calls that the library relies
//! on, each behind one trusted wrapper with the contract it is believed
//! to satisfy: Ed25519 signing, a message digest, PEM decoding, and the
//! random source for nonces.

use vstd::prelude::*;
use crate::keys::MintPrivateKey;
use ed25519_dalek::Signer;
use sha2::Digest;
use rand::RngCore;

verus! {

/// The Ed25519 signature that the 32-byte seed `key` produces over
/// `msg`. Ed25519 signing is deterministic: the result depends on the
/// key and message bytes alone.
pub uninterp spec fn sig_of(key: Seq<u8>, msg: Seq<u8>) -> Seq<u8>;

/// The 32-byte SHA-256 digest of `data`.
pub uninterp spec fn digest_of(data: Seq<u8>) -> Seq<u8>;

/// The decoded body of a PEM container: the base64 payload between the
/// BEGIN and END lines, as bytes.
pub uninterp spec fn pem_body_of(data: Seq<u8>) -> Seq<u8>;

/// Whether `data` holds a well-formed PEM block: PEM parsing is a pure
/// function of the input bytes, so success is one too.
pub uninterp spec fn pem_parses(data: Seq<u8>) -> bool;

/// Relies on ed25519_dalek::SigningKey::from_bytes and Signer::try_sign:
/// deterministic RFC 8032 signing of `msg` under the seed `key`, always
/// producing a 64-byte signature.
#[verifier::external_body]
pub fn ed25519_sign(key: &MintPrivateKey, msg: &Vec<u8>) -> (r: Vec<u8>)
    requires
        key.wf(),
    ensures
        r@ == sig_of(key@, msg@),
        r@.len() == 64,
{
    let seed: [u8; 32] = key.bytes.as_slice().try_into().expect("checked length");
    let signing_key = ed25519_dalek::SigningKey::from_bytes(&seed);
    let signature = signing_key.try_sign(msg.as_slice()).expect("ed25519 signing is total");
    signature.to_bytes().to_vec()
}

/// Relies on sha2::Sha256: the 32-byte digest of `data`, a function of
/// the input bytes alone.
#[verifier::external_body]
pub fn sha256_digest(data: &Vec<u8>) -> (r: Vec<u8>)
    ensures
        r@ == digest_of(data@),
        r@.len() == 32,
{
    let digest = sha2::Sha256::digest(data.as_slice());
    digest.to_vec()
}

/// Relies on pem::parse: a pure, panic-free function of the input
/// bytes. It succeeds exactly on inputs holding a well-formed PEM
/// block, and the result is the block's decoded body.
#[verifier::external_body]
pub fn pem_decode(data: &Vec<u8>) -> (r: Result<Vec<u8>, ()>)
    ensures
        r is Ok <==> pem_parses(data@),
        r is Ok ==> r.unwrap()@ == pem_body_of(data@),
{
    match pem::parse(data.as_slice()) {
        Ok(p) => Ok(p.contents),
        Err(_) => Err(()),
    }
}

/// Relies on rand::thread_rng and RngCore::fill_bytes: `n` bytes drawn
/// from the process-wide cryptographically secure source. Nothing holds
/// of the bytes themselves.
#[verifier::external_body]
pub fn random_bytes(n: usize) -> (r: Vec<u8>)
    ensures
        r@.len() == n,
{
    let mut out = vec![0u8; n];
    rand::thread_rng().fill_bytes(&mut out);
    out
}

} // verus!
