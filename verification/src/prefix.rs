//! Deterministic construction of unsigned operation prefixes: nonce
//! resolution, tombstone resolution (including fog-expiry tightening),
//! and the canonical byte encoding over which prefixes are hashed.

use vstd::prelude::*;
use crate::address::PublicAddress;
use crate::bytes::{u64_be, push_u64_be};
use crate::crypto::random_bytes;
use crate::errors::Error;
use crate::keys::Ed25519Public;
use crate::signer_set::{SignerSet, keys_wf};

verus! {

/// Byte length of an operation nonce.
pub const NONCE_LENGTH: usize = 64;

/// Resolves the nonce of an operation: caller-supplied bytes are used
/// verbatim; otherwise fresh random bytes of the fixed nonce length
/// are drawn.
pub fn get_or_generate_nonce(nonce: Option<Vec<u8>>) -> (r: Vec<u8>)
    requires
        nonce is Some ==> nonce.unwrap()@.len() == NONCE_LENGTH,
    ensures
        r@.len() == NONCE_LENGTH,
        nonce is Some ==> r@ == nonce.unwrap()@,
{
    match nonce {
        Some(n) => n,
        None => random_bytes(NONCE_LENGTH),
    }
}

/// One mint-configuration entry: a mint limit governed by a threshold
/// signer policy, for one token.
#[derive(Debug)]
pub struct MintConfig {
    pub token_id: u64,
    pub mint_limit: u64,
    pub signer_set: SignerSet,
}

impl MintConfig {
    /// The signer policy is valid and its keys have full length.
    pub open spec fn wf(&self) -> bool {
        self.signer_set.wf() && keys_wf(self.signer_set.signers@)
    }
}

/// The unsigned prefix of a mint-configuration operation.
#[derive(Debug)]
pub struct MintConfigTxPrefix {
    pub token_id: u64,
    pub configs: Vec<MintConfig>,
    pub nonce: Vec<u8>,
    pub tombstone_block: u64,
    pub total_mint_limit: u64,
}

impl MintConfigTxPrefix {
    /// The nonce has its fixed length and every entry is valid.
    pub open spec fn wf(&self) -> bool {
        &&& self.nonce@.len() == NONCE_LENGTH
        &&& forall|i: int| 0 <= i < self.configs@.len() ==> (#[trigger] self.configs@[i]).wf()
    }
}

/// The unsigned prefix of a mint operation targeting one recipient.
#[derive(Debug)]
pub struct MintTxPrefix {
    pub token_id: u64,
    pub amount: u64,
    pub view_public_key: Vec<u8>,
    pub spend_public_key: Vec<u8>,
    pub nonce: Vec<u8>,
    pub tombstone_block: u64,
    pub e_fog_hint: Option<Vec<u8>>,
}

impl MintTxPrefix {
    /// Keys and nonce have their fixed lengths.
    pub open spec fn wf(&self) -> bool {
        &&& self.view_public_key@.len() == 32
        &&& self.spend_public_key@.len() == 32
        &&& self.nonce@.len() == NONCE_LENGTH
    }
}

/// Validated parameters of a mint-configuration prefix.
#[derive(Debug)]
pub struct MintConfigTxPrefixParams {
    pub token_id: u64,
    pub tombstone: Option<u64>,
    pub nonce: Option<Vec<u8>>,
    pub configs: Vec<(u64, SignerSet)>,
    pub total_mint_limit: u64,
}

impl MintConfigTxPrefixParams {
    /// A supplied nonce has the fixed length; every supplied signer
    /// policy is valid.
    pub open spec fn wf(&self) -> bool {
        &&& self.nonce is Some ==> self.nonce.unwrap()@.len() == NONCE_LENGTH
        &&& forall|i: int|
            0 <= i < self.configs@.len() ==> (#[trigger] self.configs@[i]).1.wf() && keys_wf(
                self.configs@[i].1.signers@,
            )
    }

    /// Assembles the unsigned mint-configuration prefix: the tombstone
    /// is the caller's, or else the fallback; the nonce is the
    /// caller's, or else fresh random bytes; each supplied
    /// `(mint limit, signer policy)` pair becomes one entry carrying
    /// the shared token id; the total mint limit is shared across all
    /// entries.
    pub fn try_into_mint_config_tx_prefix(self, fallback_tombstone_block: u64) -> (r: Result<
        MintConfigTxPrefix,
        Error,
    >)
        requires
            self.wf(),
        ensures
            r is Ok,
            r.unwrap().wf(),
            r.unwrap().token_id == self.token_id,
            r.unwrap().tombstone_block == (if self.tombstone is Some {
                self.tombstone.unwrap()
            } else {
                fallback_tombstone_block
            }),
            r.unwrap().total_mint_limit == self.total_mint_limit,
            self.nonce is Some ==> r.unwrap().nonce@ == self.nonce.unwrap()@,
            r.unwrap().nonce@.len() == NONCE_LENGTH,
            r.unwrap().configs@.len() == self.configs@.len(),
            forall|i: int|
                0 <= i < self.configs@.len() ==> (#[trigger] r.unwrap().configs@[i]).token_id
                    == self.token_id && r.unwrap().configs@[i].mint_limit == self.configs@[i].0
                    && r.unwrap().configs@[i].signer_set == self.configs@[i].1,
    {
        let MintConfigTxPrefixParams { token_id, tombstone, nonce, mut configs, total_mint_limit } =
            self;
        let tombstone_block = match tombstone {
            Some(t) => t,
            None => fallback_tombstone_block,
        };
        let nonce = get_or_generate_nonce(nonce);
        let ghost orig = configs@;
        let mut entries: Vec<MintConfig> = Vec::new();
        proof {
            assert(configs@ =~= orig.skip(0));
        }
        while configs.len() > 0
            invariant
                entries@.len() + configs@.len() == orig.len(),
                configs@ == orig.skip(entries@.len() as int),
                forall|i: int|
                    0 <= i < entries@.len() ==> (#[trigger] entries@[i]).token_id == token_id
                        && entries@[i].mint_limit == orig[i].0 && entries@[i].signer_set
                        == orig[i].1,
            decreases configs@.len(),
        {
            let ghost k = entries@.len() as int;
            let (mint_limit, signer_set) = configs.remove(0);
            proof {
                assert(orig.skip(k)[0] == orig[k]);
                assert(orig.skip(k).remove(0) =~= orig.skip(k + 1));
            }
            entries.push(MintConfig { token_id, mint_limit, signer_set });
        }
        Ok(
            MintConfigTxPrefix {
                token_id,
                configs: entries,
                nonce,
                tombstone_block,
                total_mint_limit,
            },
        )
    }
}

/// The outcome of resolving a recipient's fog report: the encrypted
/// hint for the recipient's view key, and the height at which the fog
/// ingest key expires.
#[derive(Debug)]
pub struct FogResolution {
    pub e_fog_hint: Vec<u8>,
    pub pubkey_expiry: u64,
}

/// Validated parameters of a recipient-targeted mint prefix.
#[derive(Debug)]
pub struct MintTxPrefixParams {
    pub recipient: PublicAddress,
    pub token_id: u64,
    pub amount: u64,
    pub tombstone: Option<u64>,
    pub nonce: Option<Vec<u8>>,
}

impl MintTxPrefixParams {
    /// The recipient's keys have full length; a supplied nonce has
    /// the fixed length.
    pub open spec fn wf(&self) -> bool {
        &&& self.recipient.wf()
        &&& self.nonce is Some ==> self.nonce.unwrap()@.len() == NONCE_LENGTH
    }

    /// Assembles the unsigned mint prefix. If the recipient publishes
    /// a fog report URL, a fog resolution must be supplied — its
    /// absence is an error naming the URL — and the resolved expiry
    /// height tightens the tombstone to the smaller of the two;
    /// without a fog URL no hint is attached and the tombstone is the
    /// caller's, or else the fallback.
    pub fn try_into_mint_tx_prefix(
        self,
        fog: Option<FogResolution>,
        fallback_tombstone_block: u64,
    ) -> (r: Result<MintTxPrefix, Error>)
        requires
            self.wf(),
        ensures
            r is Ok <==> !(self.recipient.fog_report_url is Some && fog is None),
            r is Err ==> r.unwrap_err() == (Error::MissingFogContext {
                fog_report_url: self.recipient.fog_report_url.unwrap(),
            }),
            r is Ok ==> ({
                let p = r.unwrap();
                let base = if self.tombstone is Some {
                    self.tombstone.unwrap()
                } else {
                    fallback_tombstone_block
                };
                &&& p.wf()
                &&& p.token_id == self.token_id
                &&& p.amount == self.amount
                &&& p.view_public_key@ == self.recipient.view_public_key@
                &&& p.spend_public_key@ == self.recipient.spend_public_key@
                &&& (self.nonce is Some ==> p.nonce@ == self.nonce.unwrap()@)
                &&& p.nonce@.len() == NONCE_LENGTH
                &&& (self.recipient.fog_report_url is Some ==> p.e_fog_hint is Some
                    && p.e_fog_hint.unwrap()@ == fog.unwrap().e_fog_hint@ && p.tombstone_block == (
                if fog.unwrap().pubkey_expiry < base {
                    fog.unwrap().pubkey_expiry
                } else {
                    base
                }))
                &&& (self.recipient.fog_report_url is None ==> p.e_fog_hint is None
                    && p.tombstone_block == base)
            }),
    {
        let MintTxPrefixParams { recipient, token_id, amount, tombstone, nonce } = self;
        let PublicAddress { view_public_key, spend_public_key, fog_report_url } = recipient;
        let mut tombstone_block = match tombstone {
            Some(t) => t,
            None => fallback_tombstone_block,
        };
        let e_fog_hint: Option<Vec<u8>> = match fog_report_url {
            Some(url) => {
                let resolution = match fog {
                    Some(res) => res,
                    None => {
                        return Err(Error::MissingFogContext { fog_report_url: url });
                    },
                };
                if resolution.pubkey_expiry < tombstone_block {
                    tombstone_block = resolution.pubkey_expiry;
                }
                Some(resolution.e_fog_hint)
            },
            None => None,
        };
        let nonce = get_or_generate_nonce(nonce);
        Ok(
            MintTxPrefix {
                token_id,
                amount,
                view_public_key,
                spend_public_key,
                nonce,
                tombstone_block,
                e_fog_hint,
            },
        )
    }
}

/// Canonical bytes of one public key list: a count followed by the
/// 32-byte keys in order.
pub open spec fn keys_bytes(v: Seq<Ed25519Public>) -> Seq<u8>
    decreases v.len(),
{
    if v.len() == 0 {
        Seq::empty()
    } else {
        v[0]@ + keys_bytes(v.drop_first())
    }
}

/// Canonical bytes of a signer policy: key count, keys, threshold.
pub open spec fn signer_set_bytes(s: SignerSet) -> Seq<u8> {
    u64_be(s.signers@.len() as u64) + keys_bytes(s.signers@) + u64_be(s.threshold as u64)
}

/// Canonical bytes of one mint-configuration entry.
pub open spec fn mint_config_bytes(c: MintConfig) -> Seq<u8> {
    u64_be(c.token_id) + u64_be(c.mint_limit) + signer_set_bytes(c.signer_set)
}

/// Canonical bytes of an entry list, in order.
pub open spec fn configs_bytes(v: Seq<MintConfig>) -> Seq<u8>
    decreases v.len(),
{
    if v.len() == 0 {
        Seq::empty()
    } else {
        mint_config_bytes(v[0]) + configs_bytes(v.drop_first())
    }
}

/// Canonical bytes of a mint-configuration prefix: token id, entry
/// count, entries, nonce, tombstone, total mint limit. Two prefixes
/// with the same fields always encode to the same bytes.
pub open spec fn mint_config_tx_prefix_bytes(p: MintConfigTxPrefix) -> Seq<u8> {
    u64_be(p.token_id) + u64_be(p.configs@.len() as u64) + configs_bytes(p.configs@) + p.nonce@
        + u64_be(p.tombstone_block) + u64_be(p.total_mint_limit)
}

/// Canonical bytes of a mint prefix: token id, amount, recipient
/// keys, nonce, tombstone, then the encrypted fog hint (a presence
/// byte, and for a present hint its length and bytes).
pub open spec fn mint_tx_prefix_bytes(p: MintTxPrefix) -> Seq<u8> {
    u64_be(p.token_id) + u64_be(p.amount) + p.view_public_key@ + p.spend_public_key@ + p.nonce@
        + u64_be(p.tombstone_block) + (if p.e_fog_hint is Some {
        seq![1u8] + u64_be(p.e_fog_hint.unwrap()@.len() as u64) + p.e_fog_hint.unwrap()@
    } else {
        seq![0u8]
    })
}

/// Law: prefix construction is deterministic. Two mint-configuration
/// prefixes whose fields agree — as they must when they were built
/// from the same parameters with the same explicit nonce — have the
/// same canonical bytes, so repeated runs produce byte-identical
/// prefixes.
pub proof fn lemma_mint_config_prefix_deterministic(p1: MintConfigTxPrefix, p2: MintConfigTxPrefix)
    requires
        p1.token_id == p2.token_id,
        p1.configs@ == p2.configs@,
        p1.nonce@ == p2.nonce@,
        p1.tombstone_block == p2.tombstone_block,
        p1.total_mint_limit == p2.total_mint_limit,
    ensures
        mint_config_tx_prefix_bytes(p1) == mint_config_tx_prefix_bytes(p2),
{
    assert(configs_bytes(p1.configs@) == configs_bytes(p2.configs@));
    assert(mint_config_tx_prefix_bytes(p1) =~= mint_config_tx_prefix_bytes(p2));
}

/// Law: mint-prefix construction is deterministic, as for
/// mint-configuration prefixes.
pub proof fn lemma_mint_prefix_deterministic(p1: MintTxPrefix, p2: MintTxPrefix)
    requires
        p1.token_id == p2.token_id,
        p1.amount == p2.amount,
        p1.view_public_key@ == p2.view_public_key@,
        p1.spend_public_key@ == p2.spend_public_key@,
        p1.nonce@ == p2.nonce@,
        p1.tombstone_block == p2.tombstone_block,
        p1.e_fog_hint is Some <==> p2.e_fog_hint is Some,
        p1.e_fog_hint is Some ==> p1.e_fog_hint.unwrap()@ == p2.e_fog_hint.unwrap()@,
    ensures
        mint_tx_prefix_bytes(p1) == mint_tx_prefix_bytes(p2),
{
    assert(mint_tx_prefix_bytes(p1) =~= mint_tx_prefix_bytes(p2));
}

/// Splitting a key list after its first element.
proof fn lemma_keys_bytes_take_step(v: Seq<Ed25519Public>, i: int)
    requires
        0 <= i < v.len(),
    ensures
        keys_bytes(v.take(i + 1)) == keys_bytes(v.take(i)) + v[i]@,
    decreases i,
{
    if i == 0 {
        assert(v.take(0) =~= Seq::<Ed25519Public>::empty());
        assert(v.take(1)[0] == v[0]);
        assert(v.take(1).drop_first() =~= Seq::<Ed25519Public>::empty());
        assert(keys_bytes(Seq::<Ed25519Public>::empty()) == Seq::<u8>::empty());
        assert(keys_bytes(v.take(1)) == v.take(1)[0]@ + keys_bytes(v.take(1).drop_first()));
        assert(keys_bytes(v.take(1)) =~= v[0]@);
        assert(keys_bytes(v.take(0)) + v[0]@ =~= v[0]@);
    } else {
        let w = v.drop_first();
        lemma_keys_bytes_take_step(w, i - 1);
        assert(v.take(i + 1).drop_first() =~= w.take(i));
        assert(v.take(i).drop_first() =~= w.take(i - 1));
        assert(v.take(i + 1)[0] == v[0]);
        assert(v.take(i)[0] == v[0]);
        assert(w[i - 1] == v[i]);
        assert(keys_bytes(v.take(i + 1)) == v[0]@ + keys_bytes(w.take(i)));
        assert(keys_bytes(v.take(i)) == v[0]@ + keys_bytes(w.take(i - 1)));
        assert(v[0]@ + (keys_bytes(w.take(i - 1)) + v[i]@) =~= (v[0]@ + keys_bytes(w.take(i - 1)))
            + v[i]@);
    }
}

/// Splitting an entry list after its first element.
proof fn lemma_configs_bytes_take_step(v: Seq<MintConfig>, i: int)
    requires
        0 <= i < v.len(),
    ensures
        configs_bytes(v.take(i + 1)) == configs_bytes(v.take(i)) + mint_config_bytes(v[i]),
    decreases i,
{
    if i == 0 {
        assert(v.take(0) =~= Seq::<MintConfig>::empty());
        assert(v.take(1)[0] == v[0]);
        assert(v.take(1).drop_first() =~= Seq::<MintConfig>::empty());
        assert(configs_bytes(Seq::<MintConfig>::empty()) == Seq::<u8>::empty());
        assert(configs_bytes(v.take(1)) == mint_config_bytes(v.take(1)[0]) + configs_bytes(
            v.take(1).drop_first(),
        ));
        assert(configs_bytes(v.take(1)) =~= mint_config_bytes(v[0]));
        assert(configs_bytes(v.take(0)) + mint_config_bytes(v[0]) =~= mint_config_bytes(v[0]));
    } else {
        let w = v.drop_first();
        lemma_configs_bytes_take_step(w, i - 1);
        assert(v.take(i + 1).drop_first() =~= w.take(i));
        assert(v.take(i).drop_first() =~= w.take(i - 1));
        assert(v.take(i + 1)[0] == v[0]);
        assert(v.take(i)[0] == v[0]);
        assert(w[i - 1] == v[i]);
        assert(configs_bytes(v.take(i + 1)) == mint_config_bytes(v[0]) + configs_bytes(w.take(i)));
        assert(configs_bytes(v.take(i)) == mint_config_bytes(v[0]) + configs_bytes(w.take(i - 1)));
        assert(mint_config_bytes(v[0]) + (configs_bytes(w.take(i - 1)) + mint_config_bytes(v[i]))
            =~= (mint_config_bytes(v[0]) + configs_bytes(w.take(i - 1))) + mint_config_bytes(v[i]));
    }
}

/// Appends the canonical bytes of a signer policy.
fn push_signer_set_bytes(out: &mut Vec<u8>, s: &SignerSet)
    ensures
        final(out)@ == old(out)@ + signer_set_bytes(*s),
{
    push_u64_be(out, s.signers.len() as u64);
    let mut i: usize = 0;
    while i < s.signers.len()
        invariant
            i <= s.signers@.len(),
            out@ == old(out)@ + u64_be(s.signers@.len() as u64) + keys_bytes(s.signers@.take(
                i as int,
            )),
        decreases s.signers@.len() - i,
    {
        let ghost before = out@;
        out.extend_from_slice(s.signers[i].bytes.as_slice());
        proof {
            assert(out@ =~= before + s.signers@[i as int]@);
            lemma_keys_bytes_take_step(s.signers@, i as int);
            assert(out@ =~= old(out)@ + u64_be(s.signers@.len() as u64) + keys_bytes(
                s.signers@.take(i + 1),
            ));
        }
        i = i + 1;
    }
    proof {
        assert(s.signers@.take(s.signers@.len() as int) =~= s.signers@);
    }
    push_u64_be(out, s.threshold as u64);
    proof {
        assert(out@ =~= old(out)@ + signer_set_bytes(*s));
    }
}

/// Encodes a mint-configuration prefix to its canonical bytes.
pub fn encode_mint_config_tx_prefix(p: &MintConfigTxPrefix) -> (r: Vec<u8>)
    ensures
        r@ == mint_config_tx_prefix_bytes(*p),
{
    let mut out: Vec<u8> = Vec::new();
    push_u64_be(&mut out, p.token_id);
    push_u64_be(&mut out, p.configs.len() as u64);
    let ghost header = out@;
    let mut i: usize = 0;
    proof {
        assert(out@ =~= header + configs_bytes(p.configs@.take(0)));
    }
    while i < p.configs.len()
        invariant
            i <= p.configs@.len(),
            out@ == header + configs_bytes(p.configs@.take(i as int)),
        decreases p.configs@.len() - i,
    {
        let ghost before = out@;
        let entry = &p.configs[i];
        push_u64_be(&mut out, entry.token_id);
        push_u64_be(&mut out, entry.mint_limit);
        push_signer_set_bytes(&mut out, &entry.signer_set);
        proof {
            assert(out@ =~= before + mint_config_bytes(p.configs@[i as int]));
            lemma_configs_bytes_take_step(p.configs@, i as int);
            assert(out@ =~= header + configs_bytes(p.configs@.take(i + 1)));
        }
        i = i + 1;
    }
    proof {
        assert(p.configs@.take(p.configs@.len() as int) =~= p.configs@);
    }
    let ghost with_configs = out@;
    out.extend_from_slice(p.nonce.as_slice());
    proof {
        assert(out@ =~= with_configs + p.nonce@);
    }
    push_u64_be(&mut out, p.tombstone_block);
    push_u64_be(&mut out, p.total_mint_limit);
    proof {
        assert(out@ =~= mint_config_tx_prefix_bytes(*p));
    }
    out
}

/// Encodes a mint prefix to its canonical bytes.
pub fn encode_mint_tx_prefix(p: &MintTxPrefix) -> (r: Vec<u8>)
    ensures
        r@ == mint_tx_prefix_bytes(*p),
{
    let mut out: Vec<u8> = Vec::new();
    push_u64_be(&mut out, p.token_id);
    push_u64_be(&mut out, p.amount);
    let ghost step1 = out@;
    out.extend_from_slice(p.view_public_key.as_slice());
    proof {
        assert(out@ =~= step1 + p.view_public_key@);
    }
    let ghost step2 = out@;
    out.extend_from_slice(p.spend_public_key.as_slice());
    proof {
        assert(out@ =~= step2 + p.spend_public_key@);
    }
    let ghost step3 = out@;
    out.extend_from_slice(p.nonce.as_slice());
    proof {
        assert(out@ =~= step3 + p.nonce@);
    }
    push_u64_be(&mut out, p.tombstone_block);
    match &p.e_fog_hint {
        Some(hint) => {
            out.push(1);
            push_u64_be(&mut out, hint.len() as u64);
            let ghost step4 = out@;
            out.extend_from_slice(hint.as_slice());
            proof {
                assert(out@ =~= step4 + hint@);
            }
        },
        None => {
            out.push(0);
        },
    }
    proof {
        assert(out@ =~= mint_tx_prefix_bytes(*p));
    }
    out
}

} // verus!
