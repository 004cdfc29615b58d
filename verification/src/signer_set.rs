//! An m-of-n threshold authorization policy: a list of signer public
//! keys together with how many of them must sign.

use vstd::prelude::*;
use crate::errors::Error;
use crate::keys::Ed25519Public;

verus! {

/// Every key in the sequence has its fixed byte length.
pub open spec fn keys_wf(v: Seq<Ed25519Public>) -> bool {
    forall|k: int| 0 <= k < v.len() ==> (#[trigger] v[k]).wf()
}

/// A threshold signer policy: `threshold` of the listed keys must
/// sign. Valid only when `0 < threshold <=` the number of keys.
/// Supplied keys are kept as given: duplicates are not removed and
/// each counts toward the total.
#[derive(Clone, Debug)]
pub struct SignerSet {
    pub signers: Vec<Ed25519Public>,
    pub threshold: u32,
}

impl SignerSet {
    /// The threshold is positive and within the number of keys.
    pub open spec fn wf(&self) -> bool {
        0 < self.threshold <= self.signers@.len()
    }

    /// Builds the policy. Succeeds exactly when the threshold is
    /// positive and no larger than the number of supplied keys.
    pub fn new(signers: Vec<Ed25519Public>, threshold: u32) -> (r: Result<SignerSet, Error>)
        ensures
            r is Ok <==> 0 < threshold <= signers@.len(),
            r is Ok ==> r.unwrap().signers@ == signers@ && r.unwrap().threshold == threshold
                && r.unwrap().wf(),
            r is Err ==> r.unwrap_err() == (Error::InvalidThreshold {
                threshold,
                num_keys: signers@.len() as usize,
            }),
    {
        if threshold == 0 || threshold as usize > signers.len() {
            return Err(Error::InvalidThreshold { threshold, num_keys: signers.len() });
        }
        Ok(SignerSet { signers, threshold })
    }
}

} // verus!
