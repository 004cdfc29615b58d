//! Recipient addresses as the plain values the minting logic reads: the
//! two 32-byte public keys and the optional fog report URL.

use vstd::prelude::*;
use crate::errors::Error;

verus! {

/// A recipient's public address: view and spend public keys, plus the
/// fog report URL the address publishes, if any.
#[derive(Debug)]
pub struct PublicAddress {
    pub view_public_key: Vec<u8>,
    pub spend_public_key: Vec<u8>,
    pub fog_report_url: Option<String>,
}

impl PublicAddress {
    /// Both public keys have their fixed 32-byte length.
    pub open spec fn wf(&self) -> bool {
        self.view_public_key@.len() == 32 && self.spend_public_key@.len() == 32
    }
}

/// What a checksummed printable envelope decodes to: a public address,
/// or one of the other variants the envelope can carry.
#[derive(Debug)]
pub enum DecodedPrintable {
    /// The envelope held a public address.
    PublicAddressVariant(PublicAddress),
    /// The envelope held some other variant (a payment request, a
    /// transfer payload, ...).
    OtherVariant,
}

/// Accepts a decoded printable envelope only if it holds a public
/// address; any other contained variant is rejected.
pub fn public_address_from_printable(decoded: DecodedPrintable) -> (r: Result<
    PublicAddress,
    Error,
>)
    ensures
        r is Ok <==> decoded is PublicAddressVariant,
        r is Ok ==> r.unwrap() == decoded->PublicAddressVariant_0,
        r is Err ==> r.unwrap_err() == Error::NotPublicAddress,
{
    match decoded {
        DecodedPrintable::PublicAddressVariant(address) => Ok(address),
        DecodedPrintable::OtherVariant => Err(Error::NotPublicAddress),
    }
}

} // verus!
