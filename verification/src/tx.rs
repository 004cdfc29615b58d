//! Assembly of fully authorized records: hash the canonical prefix
//! bytes, sign with each local key, adjoin externally supplied
//! signatures, and canonicalize the collection. Also the merging of
//! partially-signed records for the same prefix.

use vstd::prelude::*;
use crate::crypto::{digest_of, ed25519_sign, sha256_digest, sig_of};
use crate::errors::Error;
use crate::keys::{Ed25519Signature, MintPrivateKey};
use crate::lexorder::lex_compare;
use crate::multisig::{MultiSig, sig_set, sigs_wf};
use crate::prefix::{
    MintConfigTxPrefix, MintConfigTxPrefixParams, MintTxPrefix, MintTxPrefixParams, FogResolution,
    encode_mint_config_tx_prefix, encode_mint_tx_prefix, mint_config_tx_prefix_bytes,
    mint_tx_prefix_bytes, NONCE_LENGTH,
};

verus! {

/// Every private key in the sequence has its fixed byte length.
pub open spec fn private_keys_wf(v: Seq<MintPrivateKey>) -> bool {
    forall|k: int| 0 <= k < v.len() ==> (#[trigger] v[k]).wf()
}

/// The signatures owed for a message: one from each local key, plus
/// every externally supplied signature, as a set of byte strings.
pub open spec fn expected_signature_set(
    keys: Seq<MintPrivateKey>,
    supplied: Seq<Ed25519Signature>,
    msg: Seq<u8>,
) -> Set<Seq<u8>> {
    Set::new(
        |b: Seq<u8>|
            (exists|k: int| 0 <= k < keys.len() && sig_of(keys[k]@, msg) == b) || (exists|j: int|
                0 <= j < supplied.len() && supplied[j]@ == b),
    )
}

/// Signs `message` with each local key and adjoins the supplied
/// signatures, then canonicalizes: the result holds exactly the owed
/// signature set, sorted and deduplicated.
fn collect_signatures(
    signing_keys: &Vec<MintPrivateKey>,
    supplied: &Vec<Ed25519Signature>,
    message: &Vec<u8>,
) -> (r: MultiSig)
    requires
        private_keys_wf(signing_keys@),
        sigs_wf(supplied@),
    ensures
        r.wf(),
        sig_set(r@) == expected_signature_set(signing_keys@, supplied@, message@),
{
    let mut collected: Vec<Ed25519Signature> = Vec::new();
    let mut i: usize = 0;
    while i < signing_keys.len()
        invariant
            private_keys_wf(signing_keys@),
            i <= signing_keys@.len(),
            collected@.len() == i,
            forall|k: int|
                0 <= k < i ==> (#[trigger] collected@[k])@ == sig_of(
                    signing_keys@[k]@,
                    message@,
                ) && collected@[k].wf(),
        decreases signing_keys@.len() - i,
    {
        let sig_bytes = ed25519_sign(&signing_keys[i], message);
        collected.push(Ed25519Signature { bytes: sig_bytes });
        i = i + 1;
    }
    let ghost n = signing_keys@.len() as int;
    let mut j: usize = 0;
    while j < supplied.len()
        invariant
            private_keys_wf(signing_keys@),
            sigs_wf(supplied@),
            n == signing_keys@.len(),
            j <= supplied@.len(),
            collected@.len() == n + j,
            forall|k: int|
                0 <= k < n ==> (#[trigger] collected@[k])@ == sig_of(signing_keys@[k]@, message@)
                    && collected@[k].wf(),
            forall|k: int|
                n <= k < collected@.len() ==> (#[trigger] collected@[k])@ == supplied@[k - n]@
                    && collected@[k].wf(),
        decreases supplied@.len() - j,
    {
        let ghost prev = collected@;
        let cloned_sig = supplied[j].clone();
        proof {
            assert(cloned_sig@ == supplied@[j as int]@);
            assert(supplied@[j as int].wf());
        }
        collected.push(cloned_sig);
        proof {
            assert(collected@ == prev.push(cloned_sig));
            assert forall|k: int|
                n <= k < collected@.len() implies (#[trigger] collected@[k])@ == supplied@[k - n]@
                && collected@[k].wf() by {
                if k < prev.len() {
                    assert(0 <= k < prev.len());
                    assert(prev.push(cloned_sig)[k] == prev[k]);
                    assert(collected@[k] == prev[k]);
                    assert(prev[k]@ == supplied@[k - n]@ && prev[k].wf());
                } else {
                    assert(collected@[k] == cloned_sig);
                }
            }
        }
        j = j + 1;
    }
    proof {
        assert(sigs_wf(collected@));
        assert(sig_set(collected@) =~= expected_signature_set(
            signing_keys@,
            supplied@,
            message@,
        )) by {
            assert forall|b: Seq<u8>| sig_set(collected@).contains(b) implies expected_signature_set(
                signing_keys@,
                supplied@,
                message@,
            ).contains(b) by {
                let k = choose|k: int| 0 <= k < collected@.len() && collected@[k]@ == b;
                if k < n {
                    assert(sig_of(signing_keys@[k]@, message@) == b);
                } else {
                    assert(supplied@[k - n]@ == b);
                }
            }
            assert forall|b: Seq<u8>|
                expected_signature_set(signing_keys@, supplied@, message@).contains(
                    b,
                ) implies sig_set(collected@).contains(b) by {
                if exists|k: int| 0 <= k < signing_keys@.len() && sig_of(signing_keys@[k]@, message@)
                    == b {
                    let k = choose|k: int|
                        0 <= k < signing_keys@.len() && sig_of(signing_keys@[k]@, message@) == b;
                    assert(collected@[k]@ == b);
                } else {
                    let k = choose|k: int| 0 <= k < supplied@.len() && supplied@[k]@ == b;
                    assert(collected@[k + n]@ == b);
                }
            }
        }
    }
    MultiSig::new(collected)
}

/// A fully assembled mint-configuration operation: the unsigned
/// prefix and the canonical signature collection over its hash.
#[derive(Debug)]
pub struct MintConfigTx {
    pub prefix: MintConfigTxPrefix,
    pub signature: MultiSig,
}

impl MintConfigTx {
    /// Prefix and signature collection are both well formed.
    pub open spec fn wf(&self) -> bool {
        self.prefix.wf() && self.signature.wf()
    }

    /// Merges another partially-signed record for the same prefix
    /// into this one: the prefixes must encode to the same canonical
    /// bytes, and the result carries the union of the two signature
    /// sets in canonical form.
    pub fn merge(self, other: &MintConfigTx) -> (r: Result<MintConfigTx, Error>)
        requires
            self.wf(),
            other.wf(),
        ensures
            r is Ok <==> mint_config_tx_prefix_bytes(self.prefix) == mint_config_tx_prefix_bytes(
                other.prefix,
            ),
            r is Ok ==> r.unwrap().prefix == self.prefix && r.unwrap().wf() && sig_set(
                r.unwrap().signature@,
            ) == sig_set(self.signature@).union(sig_set(other.signature@)),
            r is Err ==> r.unwrap_err() == Error::PrefixMismatch,
    {
        let own_bytes = encode_mint_config_tx_prefix(&self.prefix);
        let other_bytes = encode_mint_config_tx_prefix(&other.prefix);
        if lex_compare(own_bytes.as_slice(), other_bytes.as_slice()) != 0 {
            return Err(Error::PrefixMismatch);
        }
        let signature = self.signature.merge(&other.signature);
        Ok(MintConfigTx { prefix: self.prefix, signature })
    }
}

/// A fully assembled mint operation: the unsigned prefix and the
/// canonical signature collection over its hash.
#[derive(Debug)]
pub struct MintTx {
    pub prefix: MintTxPrefix,
    pub signature: MultiSig,
}

impl MintTx {
    /// Prefix and signature collection are both well formed.
    pub open spec fn wf(&self) -> bool {
        self.prefix.wf() && self.signature.wf()
    }

    /// Merges another partially-signed record for the same prefix
    /// into this one, as for mint-configuration records.
    pub fn merge(self, other: &MintTx) -> (r: Result<MintTx, Error>)
        requires
            self.wf(),
            other.wf(),
        ensures
            r is Ok <==> mint_tx_prefix_bytes(self.prefix) == mint_tx_prefix_bytes(other.prefix),
            r is Ok ==> r.unwrap().prefix == self.prefix && r.unwrap().wf() && sig_set(
                r.unwrap().signature@,
            ) == sig_set(self.signature@).union(sig_set(other.signature@)),
            r is Err ==> r.unwrap_err() == Error::PrefixMismatch,
    {
        let own_bytes = encode_mint_tx_prefix(&self.prefix);
        let other_bytes = encode_mint_tx_prefix(&other.prefix);
        if lex_compare(own_bytes.as_slice(), other_bytes.as_slice()) != 0 {
            return Err(Error::PrefixMismatch);
        }
        let signature = self.signature.merge(&other.signature);
        Ok(MintTx { prefix: self.prefix, signature })
    }
}

/// Parameters of a full mint-configuration operation: local signing
/// keys, externally supplied signatures, and the prefix parameters.
#[derive(Debug)]
pub struct MintConfigTxParams {
    pub signing_keys: Vec<MintPrivateKey>,
    pub signatures: Vec<Ed25519Signature>,
    pub prefix_params: MintConfigTxPrefixParams,
}

impl MintConfigTxParams {
    /// Keys, signatures and prefix parameters are all well formed.
    pub open spec fn wf(&self) -> bool {
        &&& private_keys_wf(self.signing_keys@)
        &&& sigs_wf(self.signatures@)
        &&& self.prefix_params.wf()
    }

    /// Builds the authorized mint-configuration record: assembles the
    /// prefix, hashes its canonical bytes, signs with each local key,
    /// adjoins the supplied signatures and canonicalizes. The
    /// resulting collection holds exactly the owed signature set for
    /// the prefix's hash.
    pub fn try_into_mint_config_tx(self, fallback_tombstone_block: u64) -> (r: Result<
        MintConfigTx,
        Error,
    >)
        requires
            self.wf(),
        ensures
            r is Ok,
            r.unwrap().wf(),
            ({
                let p = r.unwrap().prefix;
                &&& p.token_id == self.prefix_params.token_id
                &&& p.tombstone_block == (if self.prefix_params.tombstone is Some {
                    self.prefix_params.tombstone.unwrap()
                } else {
                    fallback_tombstone_block
                })
                &&& p.total_mint_limit == self.prefix_params.total_mint_limit
                &&& (self.prefix_params.nonce is Some ==> p.nonce@
                    == self.prefix_params.nonce.unwrap()@)
                &&& p.nonce@.len() == NONCE_LENGTH
                &&& p.configs@.len() == self.prefix_params.configs@.len()
                &&& forall|i: int|
                    0 <= i < self.prefix_params.configs@.len() ==> (
                    #[trigger] p.configs@[i]).token_id == self.prefix_params.token_id
                        && p.configs@[i].mint_limit == self.prefix_params.configs@[i].0
                        && p.configs@[i].signer_set == self.prefix_params.configs@[i].1
            }),
            sig_set(r.unwrap().signature@) == expected_signature_set(
                self.signing_keys@,
                self.signatures@,
                digest_of(mint_config_tx_prefix_bytes(r.unwrap().prefix)),
            ),
    {
        let MintConfigTxParams { signing_keys, signatures, prefix_params } = self;
        let prefix = match prefix_params.try_into_mint_config_tx_prefix(fallback_tombstone_block) {
            Ok(p) => p,
            Err(e) => {
                return Err(e);
            },
        };
        let encoded = encode_mint_config_tx_prefix(&prefix);
        let message = sha256_digest(&encoded);
        let signature = collect_signatures(&signing_keys, &signatures, &message);
        Ok(MintConfigTx { prefix, signature })
    }
}

/// Parameters of a full mint operation: local signing keys,
/// externally supplied signatures, and the prefix parameters.
#[derive(Debug)]
pub struct MintTxParams {
    pub signing_keys: Vec<MintPrivateKey>,
    pub signatures: Vec<Ed25519Signature>,
    pub prefix_params: MintTxPrefixParams,
}

impl MintTxParams {
    /// Keys, signatures and prefix parameters are all well formed.
    pub open spec fn wf(&self) -> bool {
        &&& private_keys_wf(self.signing_keys@)
        &&& sigs_wf(self.signatures@)
        &&& self.prefix_params.wf()
    }

    /// Builds the authorized mint record: assembles the prefix
    /// (resolving the fog hint and tightening the tombstone), hashes
    /// its canonical bytes, signs with each local key, adjoins the
    /// supplied signatures and canonicalizes. Fails exactly when the
    /// recipient publishes a fog report URL but no fog resolution was
    /// supplied.
    pub fn try_into_mint_tx(self, fog: Option<FogResolution>, fallback_tombstone_block: u64) -> (r:
        Result<MintTx, Error>)
        requires
            self.wf(),
        ensures
            r is Ok <==> !(self.prefix_params.recipient.fog_report_url is Some && fog is None),
            r is Err ==> r.unwrap_err() == (Error::MissingFogContext {
                fog_report_url: self.prefix_params.recipient.fog_report_url.unwrap(),
            }),
            r is Ok ==> ({
                let p = r.unwrap().prefix;
                let base = if self.prefix_params.tombstone is Some {
                    self.prefix_params.tombstone.unwrap()
                } else {
                    fallback_tombstone_block
                };
                &&& r.unwrap().wf()
                &&& p.token_id == self.prefix_params.token_id
                &&& p.amount == self.prefix_params.amount
                &&& p.view_public_key@ == self.prefix_params.recipient.view_public_key@
                &&& p.spend_public_key@ == self.prefix_params.recipient.spend_public_key@
                &&& (self.prefix_params.nonce is Some ==> p.nonce@
                    == self.prefix_params.nonce.unwrap()@)
                &&& p.nonce@.len() == NONCE_LENGTH
                &&& (self.prefix_params.recipient.fog_report_url is Some ==> p.e_fog_hint is Some
                    && p.e_fog_hint.unwrap()@ == fog.unwrap().e_fog_hint@ && p.tombstone_block == (
                if fog.unwrap().pubkey_expiry < base {
                    fog.unwrap().pubkey_expiry
                } else {
                    base
                }))
                &&& (self.prefix_params.recipient.fog_report_url is None ==> p.e_fog_hint is None
                    && p.tombstone_block == base)
                &&& sig_set(r.unwrap().signature@) == expected_signature_set(
                    self.signing_keys@,
                    self.signatures@,
                    digest_of(mint_tx_prefix_bytes(p)),
                )
            }),
    {
        let MintTxParams { signing_keys, signatures, prefix_params } = self;
        let prefix = match prefix_params.try_into_mint_tx_prefix(fog, fallback_tombstone_block) {
            Ok(p) => p,
            Err(e) => {
                return Err(e);
            },
        };
        let encoded = encode_mint_tx_prefix(&prefix);
        let message = sha256_digest(&encoded);
        let signature = collect_signatures(&signing_keys, &signatures, &message);
        Ok(MintTx { prefix, signature })
    }
}

} // verus!
