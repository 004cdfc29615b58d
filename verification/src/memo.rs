//! The defragmentation memo protocol: a per-transaction state machine
//! that writes one memo for the main output and at most one for the
//! change output, in that order, with the fee locked in before the
//! first memo.

use vstd::prelude::*;
use crate::address::PublicAddress;
use crate::bytes::{u64_be, u64_of_be, push_u64_be, read_u64_be, lemma_u64_be_round_trip};
use crate::errors::NewMemoError;

verus! {

/// Token id of the network's native token.
pub const MOB_TOKEN_ID: u64 = 0;

/// The network's minimum fee for the native token.
pub const MOB_MINIMUM_FEE: u64 = 400_000_000;

/// Byte length of a memo payload: a two-byte type tag and 64 data
/// bytes.
pub const MEMO_PAYLOAD_LEN: usize = 66;

/// A quantity of one token.
#[derive(Clone, Copy, Debug, PartialEq, Eq, Structural)]
pub struct Amount {
    pub value: u64,
    pub token_id: u64,
}

/// Auxiliary call context handed to a memo builder for each output:
/// the output's one-time public key.
#[derive(Debug)]
pub struct MemoContext {
    pub tx_public_key: Vec<u8>,
}

/// An encoded memo payload attached to one transaction output.
#[derive(Debug)]
pub struct MemoPayload {
    pub bytes: Vec<u8>,
}

impl View for MemoPayload {
    type V = Seq<u8>;

    open spec fn view(&self) -> Seq<u8> {
        self.bytes@
    }
}

impl MemoPayload {
    /// The payload has its fixed byte length.
    pub open spec fn wf(&self) -> bool {
        self@.len() == MEMO_PAYLOAD_LEN
    }
}

/// The byte encoding of a defragmentation memo: type tag `0x0003`,
/// then the fee, the total outlay and the defragmentation id as
/// big-endian 64-bit words, zero-padded to the payload length.
pub open spec fn defrag_memo_bytes(fee: u64, total_outlay: u64, defrag_id: u64) -> Seq<u8> {
    seq![0u8, 3u8] + u64_be(fee) + u64_be(total_outlay) + u64_be(defrag_id) + Seq::new(
        40,
        |i: int| 0u8,
    )
}

/// Encodes a defragmentation memo payload.
pub fn encode_defrag_memo(fee: u64, total_outlay: u64, defrag_id: u64) -> (r: MemoPayload)
    ensures
        r.wf(),
        r@ == defrag_memo_bytes(fee, total_outlay, defrag_id),
{
    let mut bytes: Vec<u8> = Vec::new();
    bytes.push(0);
    bytes.push(3);
    push_u64_be(&mut bytes, fee);
    push_u64_be(&mut bytes, total_outlay);
    push_u64_be(&mut bytes, defrag_id);
    proof {
        assert(bytes@ =~= seq![0u8, 3u8] + u64_be(fee) + u64_be(total_outlay) + u64_be(defrag_id));
        assert(bytes@.take(26) =~= bytes@);
    }
    let mut i: usize = 0;
    while i < 40
        invariant
            i <= 40,
            bytes@.len() == 26 + i,
            bytes@.take(26) == seq![0u8, 3u8] + u64_be(fee) + u64_be(total_outlay) + u64_be(
                defrag_id,
            ),
            forall|k: int| 26 <= k < bytes@.len() ==> bytes@[k] == 0u8,
        decreases 40 - i,
    {
        let ghost prev = bytes@;
        bytes.push(0);
        proof {
            assert(bytes@.take(26) =~= prev.take(26));
        }
        i = i + 1;
    }
    proof {
        assert(bytes@ =~= defrag_memo_bytes(fee, total_outlay, defrag_id));
    }
    MemoPayload { bytes }
}

/// The payload is a well-formed defragmentation memo: right length,
/// right type tag, zero padding.
pub open spec fn is_defrag_memo(s: Seq<u8>) -> bool {
    &&& s.len() == MEMO_PAYLOAD_LEN
    &&& s[0] == 0u8
    &&& s[1] == 3u8
    &&& forall|k: int| 26 <= k < s.len() ==> s[k] == 0u8
}

/// Decodes a defragmentation memo payload into its fee, total outlay
/// and defragmentation id. Succeeds exactly on well-formed
/// defragmentation memos, and inverts `encode_defrag_memo`.
pub fn parse_defrag_memo(p: &MemoPayload) -> (r: Option<(u64, u64, u64)>)
    ensures
        r is Some <==> is_defrag_memo(p@),
        r is Some ==> p@ == defrag_memo_bytes(r.unwrap().0, r.unwrap().1, r.unwrap().2),
{
    if p.bytes.len() != MEMO_PAYLOAD_LEN {
        return None;
    }
    if p.bytes[0] != 0 || p.bytes[1] != 3 {
        return None;
    }
    let mut k: usize = 26;
    while k < 66
        invariant
            p@.len() == 66,
            26 <= k <= 66,
            forall|j: int| 26 <= j < k ==> p@[j] == 0u8,
        decreases 66 - k,
    {
        if p.bytes[k] != 0 {
            return None;
        }
        k = k + 1;
    }
    let fee = read_u64_be(p.bytes.as_slice(), 2);
    let total_outlay = read_u64_be(p.bytes.as_slice(), 10);
    let defrag_id = read_u64_be(p.bytes.as_slice(), 18);
    proof {
        let enc = defrag_memo_bytes(fee, total_outlay, defrag_id);
        lemma_u64_be_round_trip(fee);
        lemma_u64_be_round_trip(total_outlay);
        lemma_u64_be_round_trip(defrag_id);
        assert(p@.subrange(2, 10) =~= u64_be(u64_of_be(p@.subrange(2, 10)))) by {
            let sub = p@.subrange(2, 10);
            lemma_u64_be_values(sub);
        }
        assert(p@.subrange(10, 18) =~= u64_be(u64_of_be(p@.subrange(10, 18)))) by {
            let sub = p@.subrange(10, 18);
            lemma_u64_be_values(sub);
        }
        assert(p@.subrange(18, 26) =~= u64_be(u64_of_be(p@.subrange(18, 26)))) by {
            let sub = p@.subrange(18, 26);
            lemma_u64_be_values(sub);
        }
        assert(p@ =~= enc);
    }
    Some((fee, total_outlay, defrag_id))
}

/// Eight bytes read as a word and written back give the same bytes.
proof fn lemma_u64_be_values(s: Seq<u8>)
    requires
        s.len() == 8,
    ensures
        u64_be(u64_of_be(s)) == s,
{
    let b0 = s[0];
    let b1 = s[1];
    let b2 = s[2];
    let b3 = s[3];
    let b4 = s[4];
    let b5 = s[5];
    let b6 = s[6];
    let b7 = s[7];
    let x = u64_of_be(s);
    assert({
        let y = (((b0 as u64) << 56) | ((b1 as u64) << 48) | ((b2 as u64) << 40) | ((b3 as u64)
            << 32) | ((b4 as u64) << 24) | ((b5 as u64) << 16) | ((b6 as u64) << 8) | (
        b7 as u64)) as u64;
        (y >> 56) as u8 == b0 && (y >> 48) as u8 == b1 && (y >> 40) as u8 == b2 && (y >> 32) as u8
            == b3 && (y >> 24) as u8 == b4 && (y >> 16) as u8 == b5 && (y >> 8) as u8 == b6
            && y as u8 == b7
    }) by (bit_vector);
    assert(u64_be(x) =~= s);
}

/// Per-transaction state of the defragmentation memo protocol.
///
/// Lifecycle: created once per transaction with the network minimum
/// fee, consulted exactly once per output, discarded after the
/// transaction is finalized. The main output memo must be written
/// before the change output memo, each at most once, and the fee can
/// only change before the main memo is written.
#[derive(Debug)]
pub struct DefragmentationMemoBuilder {
    /// Fee of the defragmentation transaction.
    pub fee: Amount,
    /// Fee plus defragmentation transaction amount.
    pub total_outlay: u64,
    /// Correlation identifier tying the memos of one defragmentation
    /// run together.
    pub defrag_id: Option<u64>,
    /// Whether the main (non-zero value) output memo was written.
    pub wrote_main_memo: bool,
    /// Whether the change (zero value) output memo was written.
    pub wrote_decoy_memo: bool,
}

impl Default for DefragmentationMemoBuilder {
    /// A fresh builder: minimum fee in the native token, outlay equal
    /// to that fee, no correlation id, nothing written yet.
    fn default() -> (r: Self)
        ensures
            r.fee == (Amount { value: MOB_MINIMUM_FEE, token_id: MOB_TOKEN_ID }),
            r.total_outlay == MOB_MINIMUM_FEE,
            r.defrag_id is None,
            !r.wrote_main_memo,
            !r.wrote_decoy_memo,
    {
        DefragmentationMemoBuilder {
            fee: Amount { value: MOB_MINIMUM_FEE, token_id: MOB_TOKEN_ID },
            total_outlay: MOB_MINIMUM_FEE,
            defrag_id: None,
            wrote_main_memo: false,
            wrote_decoy_memo: false,
        }
    }
}

impl DefragmentationMemoBuilder {
    /// Sets the total outlay recorded in the main memo.
    pub fn set_total_outlay(&mut self, value: u64)
        ensures
            *final(self) == (DefragmentationMemoBuilder { total_outlay: value, ..*old(self) }),
    {
        self.total_outlay = value;
    }

    /// Sets the defragmentation correlation id.
    pub fn set_defrag_id(&mut self, value: u64)
        ensures
            *final(self) == (DefragmentationMemoBuilder { defrag_id: Some(value), ..*old(self) }),
    {
        self.defrag_id = Some(value);
    }

    /// Clears the defragmentation correlation id.
    pub fn clear_defrag_id(&mut self)
        ensures
            *final(self) == (DefragmentationMemoBuilder { defrag_id: None, ..*old(self) }),
    {
        self.defrag_id = None;
    }

    /// Sets the fee. Allowed only while no main memo has been
    /// written; afterwards the call fails and changes nothing.
    pub fn set_fee(&mut self, fee: Amount) -> (r: Result<(), NewMemoError>)
        ensures
            r is Ok <==> !old(self).wrote_main_memo,
            r is Ok ==> *final(self) == (DefragmentationMemoBuilder { fee, ..*old(self) }),
            r is Err ==> *final(self) == *old(self) && r.unwrap_err()
                == NewMemoError::FeeAfterChange,
    {
        if self.wrote_main_memo {
            return Err(NewMemoError::FeeAfterChange);
        }
        self.fee = fee;
        Ok(())
    }

    /// Builds the memo for the main (non-zero value) output. Fails if
    /// a main memo was already written, or if the change memo came
    /// first; otherwise records the write and returns a payload
    /// carrying the current fee, the total outlay and the correlation
    /// id (zero if unset).
    pub fn make_memo_for_output(
        &mut self,
        _amount: Amount,
        _recipient: &PublicAddress,
        _memo_context: &MemoContext,
    ) -> (r: Result<MemoPayload, NewMemoError>)
        ensures
            r is Ok <==> (!old(self).wrote_main_memo && !old(self).wrote_decoy_memo),
            old(self).wrote_main_memo ==> *final(self) == *old(self) && r.unwrap_err()
                == NewMemoError::MultipleDefragOutputs,
            !old(self).wrote_main_memo && old(self).wrote_decoy_memo ==> *final(self) == *old(self)
                && r.unwrap_err() == NewMemoError::OutputsAfterChange,
            r is Ok ==> *final(self) == (DefragmentationMemoBuilder {
                wrote_main_memo: true,
                ..*old(self)
            }) && r.unwrap().wf() && r.unwrap()@ == defrag_memo_bytes(
                old(self).fee.value,
                old(self).total_outlay,
                if old(self).defrag_id is Some {
                    old(self).defrag_id.unwrap()
                } else {
                    0
                },
            ),
    {
        if self.wrote_main_memo {
            return Err(NewMemoError::MultipleDefragOutputs);
        }
        if self.wrote_decoy_memo {
            return Err(NewMemoError::OutputsAfterChange);
        }
        let id = match self.defrag_id {
            Some(v) => v,
            None => 0,
        };
        let payload = encode_defrag_memo(self.fee.value, self.total_outlay, id);
        self.wrote_main_memo = true;
        Ok(payload)
    }

    /// Builds the memo for the change (zero value) output. Fails if a
    /// change memo was already written, if no main memo was written
    /// yet, or if the change amount's token id equals the fee's token
    /// id; otherwise records the write and returns a payload with
    /// zero fee and outlay and the same correlation id.
    pub fn make_memo_for_change_output(
        &mut self,
        amount: Amount,
        _change_destination: &PublicAddress,
        _memo_context: &MemoContext,
    ) -> (r: Result<MemoPayload, NewMemoError>)
        ensures
            r is Ok <==> (!old(self).wrote_decoy_memo && old(self).wrote_main_memo
                && amount.token_id != old(self).fee.token_id),
            old(self).wrote_decoy_memo ==> *final(self) == *old(self) && r.unwrap_err()
                == NewMemoError::MultipleChangeOutputs,
            !old(self).wrote_decoy_memo && !old(self).wrote_main_memo ==> *final(self) == *old(
                self,
            ) && r.unwrap_err() == NewMemoError::ChangeBeforeMainOutput,
            !old(self).wrote_decoy_memo && old(self).wrote_main_memo && amount.token_id == old(
                self,
            ).fee.token_id ==> *final(self) == *old(self) && r.unwrap_err()
                == NewMemoError::MixedTokenIds,
            r is Ok ==> *final(self) == (DefragmentationMemoBuilder {
                wrote_decoy_memo: true,
                ..*old(self)
            }) && r.unwrap().wf() && r.unwrap()@ == defrag_memo_bytes(
                0,
                0,
                if old(self).defrag_id is Some {
                    old(self).defrag_id.unwrap()
                } else {
                    0
                },
            ),
    {
        if self.wrote_decoy_memo {
            return Err(NewMemoError::MultipleChangeOutputs);
        }
        if !self.wrote_main_memo {
            return Err(NewMemoError::ChangeBeforeMainOutput);
        }
        if amount.token_id == self.fee.token_id {
            return Err(NewMemoError::MixedTokenIds);
        }
        let id = match self.defrag_id {
            Some(v) => v,
            None => 0,
        };
        let payload = encode_defrag_memo(0, 0, id);
        self.wrote_decoy_memo = true;
        Ok(payload)
    }
}

} // verus!
