//! Key and signature material as plain byte strings with fixed lengths,
//! and the DER templates that carry Ed25519 keys inside PEM containers.

use vstd::prelude::*;
use crate::errors::Error;

verus! {

/// Byte length of an Ed25519 public key.
pub const ED25519_PUBLIC_LEN: usize = 32;

/// Byte length of an Ed25519 private key.
pub const ED25519_PRIVATE_LEN: usize = 32;

/// Byte length of an Ed25519 signature.
pub const ED25519_SIGNATURE_LEN: usize = 64;

/// An Ed25519 public key: 32 bytes.
#[derive(Debug)]
pub struct Ed25519Public {
    pub bytes: Vec<u8>,
}

impl View for Ed25519Public {
    type V = Seq<u8>;

    open spec fn view(&self) -> Seq<u8> {
        self.bytes@
    }
}

impl Ed25519Public {
    /// The key has its fixed byte length.
    pub open spec fn wf(&self) -> bool {
        self@.len() == ED25519_PUBLIC_LEN
    }

    /// Wraps 32 key bytes.
    pub fn new(bytes: Vec<u8>) -> (r: Self)
        requires
            bytes@.len() == ED25519_PUBLIC_LEN,
        ensures
            r.wf(),
            r@ == bytes@,
    {
        Ed25519Public { bytes }
    }
}

impl Clone for Ed25519Public {
    fn clone(&self) -> (r: Self)
        ensures
            r@ == self@,
    {
        let bytes = self.bytes.clone();
        assert(bytes@ =~= self.bytes@);
        Ed25519Public { bytes }
    }
}

/// An Ed25519 private key held in memory as its 32 seed bytes.
#[derive(Debug)]
pub struct MintPrivateKey {
    pub bytes: Vec<u8>,
}

impl View for MintPrivateKey {
    type V = Seq<u8>;

    open spec fn view(&self) -> Seq<u8> {
        self.bytes@
    }
}

impl MintPrivateKey {
    /// The key has its fixed byte length.
    pub open spec fn wf(&self) -> bool {
        self@.len() == ED25519_PRIVATE_LEN
    }

    /// Wraps 32 seed bytes.
    pub fn new(bytes: Vec<u8>) -> (r: Self)
        requires
            bytes@.len() == ED25519_PRIVATE_LEN,
        ensures
            r.wf(),
            r@ == bytes@,
    {
        MintPrivateKey { bytes }
    }
}

impl Clone for MintPrivateKey {
    fn clone(&self) -> (r: Self)
        ensures
            r@ == self@,
    {
        let bytes = self.bytes.clone();
        assert(bytes@ =~= self.bytes@);
        MintPrivateKey { bytes }
    }
}

/// An Ed25519 signature: 64 bytes.
#[derive(Debug)]
pub struct Ed25519Signature {
    pub bytes: Vec<u8>,
}

impl View for Ed25519Signature {
    type V = Seq<u8>;

    open spec fn view(&self) -> Seq<u8> {
        self.bytes@
    }
}

impl Ed25519Signature {
    /// The signature has its fixed byte length.
    pub open spec fn wf(&self) -> bool {
        self@.len() == ED25519_SIGNATURE_LEN
    }

    /// Wraps 64 signature bytes.
    pub fn new(bytes: Vec<u8>) -> (r: Self)
        requires
            bytes@.len() == ED25519_SIGNATURE_LEN,
        ensures
            r.wf(),
            r@ == bytes@,
    {
        Ed25519Signature { bytes }
    }
}

impl Clone for Ed25519Signature {
    fn clone(&self) -> (r: Self)
        ensures
            r@ == self@,
    {
        let bytes = self.bytes.clone();
        assert(bytes@ =~= self.bytes@);
        Ed25519Signature { bytes }
    }
}

/// Length of the PKCS#8 DER document that carries an Ed25519 private key.
pub const ED25519_PRIVATE_DER_LEN: usize = 48;

/// Length of the SPKI DER document that carries an Ed25519 public key.
pub const ED25519_PUBLIC_DER_LEN: usize = 44;

/// The fixed 16-byte header of a PKCS#8 v1 Ed25519 private-key DER
/// document; the 32 seed bytes follow it.
pub open spec fn is_private_key_der_header(d: Seq<u8>) -> bool {
    &&& d.len() == ED25519_PRIVATE_DER_LEN
    &&& d[0] == 0x30u8
    &&& d[1] == 0x2eu8
    &&& d[2] == 0x02u8
    &&& d[3] == 0x01u8
    &&& d[4] == 0x00u8
    &&& d[5] == 0x30u8
    &&& d[6] == 0x05u8
    &&& d[7] == 0x06u8
    &&& d[8] == 0x03u8
    &&& d[9] == 0x2bu8
    &&& d[10] == 0x65u8
    &&& d[11] == 0x70u8
    &&& d[12] == 0x04u8
    &&& d[13] == 0x22u8
    &&& d[14] == 0x04u8
    &&& d[15] == 0x20u8
}

/// The fixed 12-byte header of an SPKI Ed25519 public-key DER document;
/// the 32 key bytes follow it.
pub open spec fn is_public_key_der_header(d: Seq<u8>) -> bool {
    &&& d.len() == ED25519_PUBLIC_DER_LEN
    &&& d[0] == 0x30u8
    &&& d[1] == 0x2au8
    &&& d[2] == 0x30u8
    &&& d[3] == 0x05u8
    &&& d[4] == 0x06u8
    &&& d[5] == 0x03u8
    &&& d[6] == 0x2bu8
    &&& d[7] == 0x65u8
    &&& d[8] == 0x70u8
    &&& d[9] == 0x03u8
    &&& d[10] == 0x21u8
    &&& d[11] == 0x00u8
}

/// Parses an Ed25519 private key from its PKCS#8 v1 DER document.
/// Succeeds exactly on a 48-byte document with the fixed header; the
/// result is the 32 trailing seed bytes.
pub fn ed25519_private_from_der(d: &[u8]) -> (r: Result<MintPrivateKey, Error>)
    ensures
        r is Ok <==> is_private_key_der_header(d@),
        r is Ok ==> r.unwrap().wf() && r.unwrap()@ == d@.subrange(16, 48),
        r is Err ==> r.unwrap_err() == Error::DerParse,
{
    if d.len() != ED25519_PRIVATE_DER_LEN {
        return Err(Error::DerParse);
    }
    let ok = d[0] == 0x30 && d[1] == 0x2e && d[2] == 0x02 && d[3] == 0x01 && d[4] == 0x00
        && d[5] == 0x30 && d[6] == 0x05 && d[7] == 0x06 && d[8] == 0x03 && d[9] == 0x2b
        && d[10] == 0x65 && d[11] == 0x70 && d[12] == 0x04 && d[13] == 0x22 && d[14] == 0x04
        && d[15] == 0x20;
    if !ok {
        return Err(Error::DerParse);
    }
    let mut bytes: Vec<u8> = Vec::new();
    let mut i: usize = 16;
    while i < 48
        invariant
            d@.len() == 48,
            16 <= i <= 48,
            bytes@.len() == i - 16,
            forall|k: int| 0 <= k < i - 16 ==> bytes@[k] == d@[k + 16],
        decreases 48 - i,
    {
        bytes.push(d[i]);
        i = i + 1;
    }
    assert(bytes@ =~= d@.subrange(16, 48));
    Ok(MintPrivateKey { bytes })
}

/// Parses an Ed25519 public key from its SPKI DER document.
/// Succeeds exactly on a 44-byte document with the fixed header; the
/// result is the 32 trailing key bytes.
pub fn ed25519_public_from_der(d: &[u8]) -> (r: Result<Ed25519Public, Error>)
    ensures
        r is Ok <==> is_public_key_der_header(d@),
        r is Ok ==> r.unwrap().wf() && r.unwrap()@ == d@.subrange(12, 44),
        r is Err ==> r.unwrap_err() == Error::DerParse,
{
    if d.len() != ED25519_PUBLIC_DER_LEN {
        return Err(Error::DerParse);
    }
    let ok = d[0] == 0x30 && d[1] == 0x2a && d[2] == 0x30 && d[3] == 0x05 && d[4] == 0x06
        && d[5] == 0x03 && d[6] == 0x2b && d[7] == 0x65 && d[8] == 0x70 && d[9] == 0x03
        && d[10] == 0x21 && d[11] == 0x00;
    if !ok {
        return Err(Error::DerParse);
    }
    let mut bytes: Vec<u8> = Vec::new();
    let mut i: usize = 12;
    while i < 44
        invariant
            d@.len() == 44,
            12 <= i <= 44,
            bytes@.len() == i - 12,
            forall|k: int| 0 <= k < i - 12 ==> bytes@[k] == d@[k + 12],
        decreases 44 - i,
    {
        bytes.push(d[i]);
        i = i + 1;
    }
    assert(bytes@ =~= d@.subrange(12, 44));
    Ok(Ed25519Public { bytes })
}

} // verus!
