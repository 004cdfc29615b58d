//! The persisted transaction file: a JSON envelope holding one
//! mint-configuration or mint operation, unsigned or partially or
//! fully signed. The writer emits exactly one canonical form — fixed
//! key order, no whitespace, lower-case hex, no superfluous zeros —
//! and the reader is strict: whatever it accepts is the canonical
//! encoding of the value it returns, so two parties holding the same
//! file bytes agree on the record and vice versa.

use vstd::prelude::*;
use crate::bytes::{copy_range, dec_val, is_dec_digit, parse_u64_dec, u64_dec, all_dec_digits,
    lemma_dec_canonical, lemma_u64_dec_properties, push_u64_dec};
use crate::errors::Error;
use crate::hexcode::{hex_text_of, hex_bytes_of, is_lower_hex_digit, all_lower_hex_digits,
    lemma_hex_canonical, lemma_hex_text_canonical, hex_decode};
use crate::jsonlit::{lit_config_file_open, lit_config_file_open_spec, lit_mint_file_open,
    lit_mint_file_open_spec, lit_configs, lit_configs_spec, lit_entry_open, lit_entry_open_spec,
    lit_mint_limit, lit_mint_limit_spec, lit_signers, lit_signers_spec, lit_threshold,
    lit_threshold_spec, lit_nonce_after_list, lit_nonce_after_list_spec, lit_tombstone,
    lit_tombstone_spec, lit_total_mint_limit, lit_total_mint_limit_spec, lit_signature,
    lit_signature_spec, lit_file_close, lit_file_close_spec, lit_amount, lit_amount_spec,
    lit_view_key, lit_view_key_spec, lit_spend_key, lit_spend_key_spec, lit_nonce_after_str,
    lit_nonce_after_str_spec, lit_fog_hint, lit_fog_hint_spec, lit_null, lit_null_spec};
use crate::keys::{Ed25519Public, Ed25519Signature};
use crate::lexorder::{lex_lt, lex_compare, lemma_lex_lt_transitive};
use crate::multisig::{MultiSig, sigs_sorted, sigs_wf};
use crate::prefix::{MintConfig, MintConfigTxPrefix, MintTxPrefix, NONCE_LENGTH};
use crate::signer_set::{SignerSet, keys_wf};
use crate::tx::{MintConfigTx, MintTx};

verus! {

/// A quoted lower-case hex string.
pub open spec fn json_hex(b: Seq<u8>) -> Seq<u8> {
    seq![34u8] + hex_text_of(b) + seq![34u8]
}

/// The comma-separated quoted-hex items of a signature list.
pub open spec fn json_sig_items(v: Seq<Ed25519Signature>) -> Seq<u8>
    decreases v.len(),
{
    if v.len() == 0 {
        Seq::empty()
    } else if v.len() == 1 {
        json_hex(v[0]@)
    } else {
        json_hex(v[0]@) + seq![44u8] + json_sig_items(v.drop_first())
    }
}

/// The comma-separated quoted-hex items of a key list.
pub open spec fn json_key_items(v: Seq<Ed25519Public>) -> Seq<u8>
    decreases v.len(),
{
    if v.len() == 0 {
        Seq::empty()
    } else if v.len() == 1 {
        json_hex(v[0]@)
    } else {
        json_hex(v[0]@) + seq![44u8] + json_key_items(v.drop_first())
    }
}

/// One mint-configuration entry as canonical JSON.
pub open spec fn json_config_entry(c: MintConfig) -> Seq<u8> {
    lit_entry_open_spec() + u64_dec(c.token_id as nat) + lit_mint_limit_spec() + u64_dec(
        c.mint_limit as nat,
    ) + lit_signers_spec() + json_key_items(c.signer_set.signers@) + seq![93u8]
        + lit_threshold_spec() + u64_dec(c.signer_set.threshold as nat) + seq![125u8]
}

/// The comma-separated entries of a configuration list.
pub open spec fn json_config_entries(v: Seq<MintConfig>) -> Seq<u8>
    decreases v.len(),
{
    if v.len() == 0 {
        Seq::empty()
    } else if v.len() == 1 {
        json_config_entry(v[0])
    } else {
        json_config_entry(v[0]) + seq![44u8] + json_config_entries(v.drop_first())
    }
}

/// A mint-configuration record as canonical JSON.
pub open spec fn mint_config_tx_json(t: MintConfigTx) -> Seq<u8> {
    lit_config_file_open_spec() + u64_dec(t.prefix.token_id as nat) + lit_configs_spec()
        + json_config_entries(t.prefix.configs@) + lit_nonce_after_list_spec() + hex_text_of(
        t.prefix.nonce@,
    ) + lit_tombstone_spec() + u64_dec(t.prefix.tombstone_block as nat)
        + lit_total_mint_limit_spec() + u64_dec(t.prefix.total_mint_limit as nat)
        + lit_signature_spec() + json_sig_items(t.signature@) + lit_file_close_spec()
}

/// A mint record as canonical JSON.
pub open spec fn mint_tx_json(t: MintTx) -> Seq<u8> {
    lit_mint_file_open_spec() + u64_dec(t.prefix.token_id as nat) + lit_amount_spec() + u64_dec(
        t.prefix.amount as nat,
    ) + lit_view_key_spec() + hex_text_of(t.prefix.view_public_key@) + lit_spend_key_spec()
        + hex_text_of(t.prefix.spend_public_key@) + lit_nonce_after_str_spec() + hex_text_of(
        t.prefix.nonce@,
    ) + lit_tombstone_spec() + u64_dec(t.prefix.tombstone_block as nat) + lit_fog_hint_spec() + (
    if t.prefix.e_fog_hint is Some {
        json_hex(t.prefix.e_fog_hint.unwrap()@)
    } else {
        lit_null_spec()
    }) + lit_signature_spec() + json_sig_items(t.signature@) + lit_file_close_spec()
}

/// A transaction file holds one record of either kind.
#[derive(Debug)]
pub enum TxFile {
    MintConfigTx(MintConfigTx),
    MintTx(MintTx),
}

impl TxFile {
    /// The held record is well formed.
    pub open spec fn wf(&self) -> bool {
        match self {
            TxFile::MintConfigTx(t) => t.wf(),
            TxFile::MintTx(t) => t.wf(),
        }
    }
}

/// A transaction file as canonical JSON.
pub open spec fn tx_file_json(t: TxFile) -> Seq<u8> {
    match t {
        TxFile::MintConfigTx(c) => mint_config_tx_json(c),
        TxFile::MintTx(m) => mint_tx_json(m),
    }
}

/// Appending one signature item to the list form.
proof fn lemma_json_sig_items_push(v: Seq<Ed25519Signature>, s: Ed25519Signature)
    ensures
        json_sig_items(v.push(s)) == if v.len() == 0 {
            json_hex(s@)
        } else {
            json_sig_items(v) + seq![44u8] + json_hex(s@)
        },
    decreases v.len(),
{
    let w = v.push(s);
    if v.len() == 0 {
        assert(w.len() == 1 && w[0] == s);
    } else if v.len() == 1 {
        assert(w.len() == 2 && w[0] == v[0]);
        assert(w.drop_first() =~= seq![s]);
        assert(json_sig_items(seq![s]) == json_hex(s@));
        assert(json_hex(v[0]@) + seq![44u8] + json_hex(s@) =~= json_hex(v[0]@) + (seq![44u8]
            + json_hex(s@)));
        assert(json_sig_items(w) =~= json_sig_items(v) + seq![44u8] + json_hex(s@));
    } else {
        lemma_json_sig_items_push(v.drop_first(), s);
        assert(w.drop_first() =~= v.drop_first().push(s));
        assert(w[0] == v[0] && w.len() == v.len() + 1);
        assert(json_sig_items(w) == json_hex(v[0]@) + seq![44u8] + json_sig_items(
            v.drop_first().push(s),
        ));
        assert(json_sig_items(w) =~= json_sig_items(v) + seq![44u8] + json_hex(s@));
    }
}

/// Appending one key item to the list form.
proof fn lemma_json_key_items_push(v: Seq<Ed25519Public>, s: Ed25519Public)
    ensures
        json_key_items(v.push(s)) == if v.len() == 0 {
            json_hex(s@)
        } else {
            json_key_items(v) + seq![44u8] + json_hex(s@)
        },
    decreases v.len(),
{
    let w = v.push(s);
    if v.len() == 0 {
        assert(w.len() == 1 && w[0] == s);
    } else if v.len() == 1 {
        assert(w.len() == 2 && w[0] == v[0]);
        assert(w.drop_first() =~= seq![s]);
        assert(json_key_items(seq![s]) == json_hex(s@));
        assert(json_key_items(w) =~= json_key_items(v) + seq![44u8] + json_hex(s@));
    } else {
        lemma_json_key_items_push(v.drop_first(), s);
        assert(w.drop_first() =~= v.drop_first().push(s));
        assert(w[0] == v[0] && w.len() == v.len() + 1);
        assert(json_key_items(w) =~= json_key_items(v) + seq![44u8] + json_hex(s@));
    }
}

/// Appending one entry to the list form.
proof fn lemma_json_config_entries_push(v: Seq<MintConfig>, c: MintConfig)
    ensures
        json_config_entries(v.push(c)) == if v.len() == 0 {
            json_config_entry(c)
        } else {
            json_config_entries(v) + seq![44u8] + json_config_entry(c)
        },
    decreases v.len(),
{
    let w = v.push(c);
    if v.len() == 0 {
        assert(w.len() == 1 && w[0] == c);
    } else if v.len() == 1 {
        assert(w.len() == 2 && w[0] == v[0]);
        assert(w.drop_first() =~= seq![c]);
        assert(json_config_entries(seq![c]) == json_config_entry(c));
        assert(json_config_entries(w) =~= json_config_entries(v) + seq![44u8] + json_config_entry(
            c,
        ));
    } else {
        lemma_json_config_entries_push(v.drop_first(), c);
        assert(w.drop_first() =~= v.drop_first().push(c));
        assert(w[0] == v[0] && w.len() == v.len() + 1);
        assert(json_config_entries(w) =~= json_config_entries(v) + seq![44u8] + json_config_entry(
            c,
        ));
    }
}

/// A maximal digit run that covers a digit string with a non-digit
/// after it ends exactly at the string's end.
proof fn lemma_dec_scan_pins(s: Seq<u8>, pos: int, j: int, d: Seq<u8>)
    requires
        0 <= pos <= j <= s.len(),
        pos + d.len() <= s.len(),
        s.subrange(pos, pos + d.len()) == d,
        d.len() > 0,
        all_dec_digits(d),
        forall|k: int| pos <= k < j ==> is_dec_digit(#[trigger] s[k]),
        j < s.len() ==> !is_dec_digit(s[j]),
        pos + d.len() == s.len() || !is_dec_digit(s[pos + d.len()]),
    ensures
        j == pos + d.len(),
{
    if j < pos + d.len() {
        assert(s.subrange(pos, pos + d.len())[j - pos] == s[j]);
        assert(is_dec_digit(d[j - pos]));
    }
    if j > pos + d.len() {
        assert(is_dec_digit(s[pos + d.len()]));
    }
}

/// The same pinning for a maximal lower-case hex run.
proof fn lemma_hex_scan_pins(s: Seq<u8>, pos: int, j: int, d: Seq<u8>)
    requires
        0 <= pos <= j <= s.len(),
        pos + d.len() <= s.len(),
        s.subrange(pos, pos + d.len()) == d,
        all_lower_hex_digits(d),
        forall|k: int| pos <= k < j ==> is_lower_hex_digit(#[trigger] s[k]),
        j < s.len() ==> !is_lower_hex_digit(s[j]),
        pos + d.len() == s.len() || !is_lower_hex_digit(s[pos + d.len()]),
    ensures
        j == pos + d.len(),
{
    if j < pos + d.len() {
        assert(s.subrange(pos, pos + d.len())[j - pos] == s[j]);
        assert(is_lower_hex_digit(d[j - pos]));
    }
    if j > pos + d.len() {
        assert(is_lower_hex_digit(s[pos + d.len()]));
    }
}

/// Consumes the exact token `lit` at `pos`: succeeds if and only if
/// the token stands there, and then the consumed bytes are the token.
fn expect(s: &[u8], pos: usize, lit: &Vec<u8>) -> (r: Option<usize>)
    requires
        pos <= s@.len(),
    ensures
        r is Some ==> r.unwrap() == pos + lit@.len() && r.unwrap() <= s@.len() && s@.subrange(
            pos as int,
            r.unwrap() as int,
        ) == lit@,
        pos + lit@.len() <= s@.len() && s@.subrange(pos as int, pos + lit@.len()) == lit@ ==> r
            is Some,
{
    if s.len() - pos < lit.len() {
        return None;
    }
    let mut i: usize = 0;
    while i < lit.len()
        invariant
            pos + lit@.len() <= s@.len(),
            s@.len() <= usize::MAX,
            i <= lit@.len(),
            forall|k: int| 0 <= k < i ==> s@[pos + k] == lit@[k],
        decreases lit@.len() - i,
    {
        if s[pos + i] != lit[i] {
            proof {
                if s@.subrange(pos as int, pos + lit@.len()) == lit@ {
                    assert(s@.subrange(pos as int, pos + lit@.len())[i as int] == s@[pos + i]);
                }
            }
            return None;
        }
        i = i + 1;
    }
    proof {
        assert(s@.subrange(pos as int, (pos + lit@.len()) as int) =~= lit@);
    }
    Some(pos + lit.len())
}

/// End of the run of decimal digits starting at `pos`.
fn scan_dec_digits(s: &[u8], pos: usize) -> (j: usize)
    requires
        pos <= s@.len(),
    ensures
        pos <= j <= s@.len(),
        forall|k: int| pos <= k < j ==> is_dec_digit(#[trigger] s@[k]),
        j < s@.len() ==> !is_dec_digit(s@[j as int]),
{
    let mut j = pos;
    while j < s.len()
        invariant
            pos <= j <= s@.len(),
            forall|k: int| pos <= k < j ==> is_dec_digit(#[trigger] s@[k]),
        decreases s@.len() - j,
    {
        if s[j] < 48 || s[j] > 57 {
            return j;
        }
        j = j + 1;
    }
    j
}

/// The hypothesis under which a canonical number `v` stands at `pos`:
/// its decimal text is there, followed by the end or a non-digit.
spec fn dec_at(s: Seq<u8>, pos: int, v: u64) -> bool {
    let d = u64_dec(v as nat);
    &&& pos + d.len() <= s.len()
    &&& s.subrange(pos, pos + d.len()) == d
    &&& (pos + d.len() == s.len() || !is_dec_digit(s[pos + d.len()]))
}

/// Parses the canonical decimal number at `pos`: on success the
/// consumed bytes are exactly the decimal text of the value, and the
/// parse succeeds whenever such a number stands at `pos`.
fn parse_dec(s: &[u8], pos: usize) -> (r: Option<(u64, usize)>)
    requires
        pos <= s@.len(),
    ensures
        r is Some ==> pos < r.unwrap().1 <= s@.len() && s@.subrange(pos as int, r.unwrap().1 as int)
            == u64_dec(r.unwrap().0 as nat),
        forall|v: u64|
            #[trigger] dec_at(s@, pos as int, v) ==> r == Some::<(u64, usize)>(
                (v, (pos + u64_dec(v as nat).len()) as usize),
            ),
{
    let j = scan_dec_digits(s, pos);
    if j == pos {
        proof {
            assert forall|v: u64| #[trigger] dec_at(s@, pos as int, v) implies false by {
                lemma_u64_dec_properties(v as nat);
                let dd = u64_dec(v as nat);
                assert(s@.subrange(pos as int, pos + dd.len())[0] == s@[pos as int]);
                assert(is_dec_digit(s@[pos as int]));
            }
        }
        return None;
    }
    let d = copy_range(s, pos, j);
    if d.len() > 1 && d[0] == 48 {
        proof {
            assert forall|v: u64| #[trigger] dec_at(s@, pos as int, v) implies false by {
                lemma_u64_dec_properties(v as nat);
                let dd = u64_dec(v as nat);
                lemma_dec_scan_pins(s@, pos as int, j as int, dd);
                assert(d@ == dd);
            }
        }
        return None;
    }
    let v = match parse_u64_dec(d.as_slice()) {
        Some(v) => v,
        None => {
            proof {
                assert forall|w: u64| #[trigger] dec_at(s@, pos as int, w) implies false by {
                    lemma_u64_dec_properties(w as nat);
                    let dd = u64_dec(w as nat);
                    lemma_dec_scan_pins(s@, pos as int, j as int, dd);
                    assert(d@ == dd);
                    assert(dec_val(d@) == w);
                }
            }
            return None;
        },
    };
    proof {
        assert(all_dec_digits(d@)) by {
            assert(forall|k: int| 0 <= k < d@.len() ==> d@[k] == s@[k + pos]);
        }
        lemma_dec_canonical(d@);
        assert forall|w: u64| #[trigger] dec_at(s@, pos as int, w) implies v == w && j == pos
            + u64_dec(w as nat).len() by {
            lemma_u64_dec_properties(w as nat);
            let dd = u64_dec(w as nat);
            lemma_dec_scan_pins(s@, pos as int, j as int, dd);
            assert(d@ == dd);
            assert(dec_val(d@) == w);
        }
    }
    Some((v, j))
}

/// End of the run of lower-case hex digits starting at `pos`.
fn scan_lower_hex(s: &[u8], pos: usize) -> (j: usize)
    requires
        pos <= s@.len(),
    ensures
        pos <= j <= s@.len(),
        forall|k: int| pos <= k < j ==> is_lower_hex_digit(#[trigger] s@[k]),
        j < s@.len() ==> !is_lower_hex_digit(s@[j as int]),
{
    let mut j = pos;
    while j < s.len()
        invariant
            pos <= j <= s@.len(),
            forall|k: int| pos <= k < j ==> is_lower_hex_digit(#[trigger] s@[k]),
        decreases s@.len() - j,
    {
        let c = s[j];
        if !((48 <= c && c <= 57) || (97 <= c && c <= 102)) {
            return j;
        }
        j = j + 1;
    }
    j
}

/// The hypothesis under which the hex text of `b` stands bare at
/// `pos`, followed by the end or a non-hex byte.
spec fn hex_at(s: Seq<u8>, pos: int, b: Seq<u8>) -> bool {
    &&& pos + 2 * b.len() <= s.len()
    &&& s.subrange(pos, pos + 2 * b.len()) == hex_text_of(b)
    &&& (pos + 2 * b.len() == s.len() || !is_lower_hex_digit(s[pos + 2 * b.len()]))
}

/// Parses the bare lower-case hex run at `pos`: on success the
/// consumed bytes are exactly the hex text of the returned bytes, and
/// the parse succeeds whenever such a run stands at `pos`.
fn parse_hex_run(s: &[u8], pos: usize) -> (r: Option<(Vec<u8>, usize)>)
    requires
        pos <= s@.len(),
    ensures
        r is Some ==> pos <= r.unwrap().1 <= s@.len() && s@.subrange(
            pos as int,
            r.unwrap().1 as int,
        ) == hex_text_of(r.unwrap().0@) && 2 * r.unwrap().0@.len() == r.unwrap().1 - pos,
        forall|b: Seq<u8>|
            #[trigger] hex_at(s@, pos as int, b) ==> r is Some && r.unwrap().1 == pos + 2 * b.len()
                && r.unwrap().0@ == b,
{
    let j = scan_lower_hex(s, pos);
    let t = copy_range(s, pos, j);
    if t.len() % 2 != 0 {
        proof {
            assert forall|b: Seq<u8>| #[trigger] hex_at(s@, pos as int, b) implies false by {
                lemma_hex_text_canonical(b);
                lemma_hex_scan_pins(s@, pos as int, j as int, hex_text_of(b));
                assert(t@ == hex_text_of(b));
            }
        }
        return None;
    }
    proof {
        assert(all_lower_hex_digits(t@)) by {
            assert(forall|k: int| 0 <= k < t@.len() ==> t@[k] == s@[k + pos]);
        }
        lemma_hex_canonical(t@);
    }
    let b = match hex_decode(t.as_slice()) {
        Some(b) => b,
        None => {
            proof {
                assert(false);
            }
            return None;
        },
    };
    proof {
        assert(hex_text_of(b@) == t@);
        assert forall|w: Seq<u8>| #[trigger] hex_at(s@, pos as int, w) implies j == pos + 2
            * w.len() && b@ == w by {
            lemma_hex_text_canonical(w);
            lemma_hex_scan_pins(s@, pos as int, j as int, hex_text_of(w));
            assert(t@ == hex_text_of(w));
            assert(b@ == hex_bytes_of(hex_text_of(w)));
        }
    }
    Some((b, j))
}

/// The hypothesis under which the quoted hex string of `b` stands at
/// `pos`; the quotes delimit it on their own.
spec fn quoted_hex_at(s: Seq<u8>, pos: int, b: Seq<u8>) -> bool {
    &&& pos + 2 + 2 * b.len() <= s.len()
    &&& s.subrange(pos, pos + 2 + 2 * b.len()) == json_hex(b)
}

/// Bridges a quoted hex hypothesis to the bare-run hypothesis of its
/// inside.
proof fn lemma_quoted_hex_inside(s: Seq<u8>, pos: int, b: Seq<u8>)
    requires
        0 <= pos,
        quoted_hex_at(s, pos, b),
    ensures
        s[pos] == 34,
        hex_at(s, pos + 1, b),
        s[pos + 1 + 2 * b.len()] == 34,
{
    let q = s.subrange(pos, pos + 2 + 2 * b.len());
    assert(q[0] == s[pos]);
    assert(json_hex(b)[0] == 34);
    assert(q[1 + 2 * b.len() as int] == s[pos + 1 + 2 * b.len()]);
    assert(json_hex(b)[1 + 2 * b.len() as int] == 34);
    assert(s.subrange(pos + 1, pos + 1 + 2 * b.len()) =~= hex_text_of(b)) by {
        assert forall|k: int| 0 <= k < 2 * b.len() implies s.subrange(
            pos + 1,
            pos + 1 + 2 * b.len(),
        )[k] == hex_text_of(b)[k] by {
            assert(q[1 + k] == s[pos + 1 + k]);
            assert(json_hex(b)[1 + k] == hex_text_of(b)[k]);
        }
    }
    assert(!is_lower_hex_digit(34u8));
}

/// Parses the quoted lower-case hex string at `pos`: succeeds
/// whenever one stands there.
fn parse_quoted_hex(s: &[u8], pos: usize) -> (r: Option<(Vec<u8>, usize)>)
    requires
        pos <= s@.len(),
    ensures
        r is Some ==> pos + 2 <= r.unwrap().1 <= s@.len() && s@.subrange(
            pos as int,
            r.unwrap().1 as int,
        ) == json_hex(r.unwrap().0@),
        forall|b: Seq<u8>|
            #[trigger] quoted_hex_at(s@, pos as int, b) ==> r is Some && r.unwrap().1 == pos + 2 + 2
                * b.len() && r.unwrap().0@ == b,
{
    if pos >= s.len() || s[pos] != 34 {
        proof {
            assert forall|b: Seq<u8>| #[trigger] quoted_hex_at(s@, pos as int, b) implies false by {
                lemma_quoted_hex_inside(s@, pos as int, b);
            }
        }
        return None;
    }
    let (b, j) = match parse_hex_run(s, pos + 1) {
        Some(x) => x,
        None => {
            proof {
                assert forall|w: Seq<u8>| #[trigger] quoted_hex_at(s@, pos as int, w) implies
                    false by {
                    lemma_quoted_hex_inside(s@, pos as int, w);
                }
            }
            return None;
        },
    };
    if j >= s.len() || s[j] != 34 {
        proof {
            assert forall|w: Seq<u8>| #[trigger] quoted_hex_at(s@, pos as int, w) implies false by {
                lemma_quoted_hex_inside(s@, pos as int, w);
            }
        }
        return None;
    }
    proof {
        assert(s@.subrange(pos as int, j + 1) =~= seq![34u8] + hex_text_of(b@) + seq![34u8]);
        assert forall|w: Seq<u8>| #[trigger] quoted_hex_at(s@, pos as int, w) implies j + 1 == pos
            + 2 + 2 * w.len() && b@ == w by {
            lemma_quoted_hex_inside(s@, pos as int, w);
        }
    }
    Some((b, j + 1))
}

/// Splitting a signature item list around a boundary.
proof fn lemma_sig_items_concat(a: Seq<Ed25519Signature>, b: Seq<Ed25519Signature>)
    ensures
        json_sig_items(a + b) == if a.len() == 0 {
            json_sig_items(b)
        } else if b.len() == 0 {
            json_sig_items(a)
        } else {
            json_sig_items(a) + seq![44u8] + json_sig_items(b)
        },
    decreases a.len(),
{
    let w = a + b;
    if a.len() == 0 {
        assert(w =~= b);
    } else if b.len() == 0 {
        assert(w =~= a);
    } else if a.len() == 1 {
        assert(w[0] == a[0]);
        assert(w.drop_first() =~= b);
        assert(json_sig_items(w) == json_hex(a[0]@) + seq![44u8] + json_sig_items(b));
    } else {
        lemma_sig_items_concat(a.drop_first(), b);
        assert(w.drop_first() =~= a.drop_first() + b);
        assert(w[0] == a[0]);
        assert(json_sig_items(w) == json_hex(a[0]@) + seq![44u8] + json_sig_items(
            a.drop_first() + b,
        ));
        assert(json_sig_items(w) =~= json_sig_items(a) + seq![44u8] + json_sig_items(b));
    }
}

/// The hypothesis under which the item list of `v` stands at `pos`,
/// delimited by a following byte that can neither open an item nor
/// separate one.
spec fn sig_items_at(s: Seq<u8>, pos: int, v: Seq<Ed25519Signature>) -> bool {
    let items = json_sig_items(v);
    &&& sigs_wf(v)
    &&& sigs_sorted(v)
    &&& pos + items.len() <= s.len()
    &&& s.subrange(pos, pos + items.len()) == items
    &&& (pos + items.len() == s.len() || (s[pos + items.len()] != 44 && s[pos + items.len()]
        != 34))
}

/// The item of witness `v` at boundary `m` stands in `s` right after
/// the items of `v.take(m)` and their separator.
proof fn lemma_sig_item_stands(s: Seq<u8>, pos: int, v: Seq<Ed25519Signature>, m: int)
    requires
        0 <= pos,
        sig_items_at(s, pos, v),
        0 <= m < v.len(),
    ensures
        ({
            let at = pos + json_sig_items(v.take(m)).len() + (if m == 0 {
                0int
            } else {
                1int
            });
            &&& quoted_hex_at(s, at, v[m]@)
            &&& m > 0 ==> s[pos + json_sig_items(v.take(m)).len()] == 44
            &&& json_sig_items(v.take(m + 1)).len() == json_sig_items(v.take(m)).len() + (if m == 0 {
                0int
            } else {
                1int
            }) + 2 + 2 * v[m]@.len()
        }),
{
    let items = json_sig_items(v);
    let head = json_sig_items(v.take(m));
    let tail = json_sig_items(v.skip(m));
    assert(v.take(m) + v.skip(m) =~= v);
    lemma_sig_items_concat(v.take(m), v.skip(m));
    assert(v.skip(m)[0] == v[m]);
    let item = json_hex(v[m]@);
    assert(tail.subrange(0, item.len() as int) =~= item) by {
        if v.skip(m).len() == 1 {
            assert(tail == item);
        } else {
            assert(tail == item + seq![44u8] + json_sig_items(v.skip(m).drop_first()));
            assert(forall|k: int| 0 <= k < item.len() ==> tail[k] == item[k]);
        }
    }
    let sep: int = if m == 0 { 0 } else { 1 };
    let at = pos + head.len() + sep;
    assert(items.len() == head.len() + sep + tail.len()) by {
        if m > 0 {
            assert(items == head + seq![44u8] + tail);
        } else {
            assert(v.take(0) =~= Seq::<Ed25519Signature>::empty());
            assert(json_sig_items(Seq::<Ed25519Signature>::empty()) == Seq::<u8>::empty());
        }
    }
    assert(tail.len() >= item.len());
    assert(at + item.len() <= pos + items.len() <= s.len());
    let whole = s.subrange(pos, pos + items.len());
    assert(whole == items);
    assert forall|k: int| 0 <= k < item.len() implies s[at + k] == item[k] by {
        assert(0 <= head.len() + sep + k < items.len());
        assert(whole[head.len() + sep + k] == s[pos + (head.len() + sep + k)]);
        assert(at + k == pos + (head.len() + sep + k));
        if m > 0 {
            assert(items == head + seq![44u8] + tail);
            assert(items[head.len() + sep + k] == tail[k]);
        } else {
            assert(items[k] == tail[k]);
        }
        assert(tail[k] == item[k]);
    }
    assert(s.subrange(at, at + item.len()) =~= item) by {
        assert forall|k: int| 0 <= k < item.len() implies s.subrange(at, at + item.len())[k]
            == item[k] by {
            assert(s.subrange(at, at + item.len())[k] == s[at + k]);
        }
    }
    assert(quoted_hex_at(s, at, v[m]@));
    if m > 0 {
        assert(s.subrange(pos, pos + items.len())[head.len() as int] == s[pos + head.len()]);
        assert(items == head + seq![44u8] + tail);
        assert(items[head.len() as int] == 44);
    }
    assert(v.take(m + 1) =~= v.take(m).push(v[m]));
    lemma_json_sig_items_push(v.take(m), v[m]);
}

/// Parses the comma-separated quoted-hex signature items at `pos`:
/// each must be a 64-byte signature and the items must be strictly
/// ascending in byte order, so the collection read back is canonical.
/// Succeeds on every such list that stands delimited at `pos`.
#[verifier::rlimit(100)]
fn parse_sig_items(s: &[u8], pos: usize) -> (r: Option<(Vec<Ed25519Signature>, usize)>)
    requires
        pos <= s@.len(),
    ensures
        r is Some ==> ({
            let (v, end) = r.unwrap();
            &&& pos <= end <= s@.len()
            &&& s@.subrange(pos as int, end as int) == json_sig_items(v@)
            &&& sigs_wf(v@)
            &&& sigs_sorted(v@)
        }),
        forall|v: Seq<Ed25519Signature>|
            #[trigger] sig_items_at(s@, pos as int, v) ==> r is Some && r.unwrap().1 == pos
                + json_sig_items(v).len(),
{
    let mut out: Vec<Ed25519Signature> = Vec::new();
    if pos >= s.len() || s[pos] != 34 {
        proof {
            assert(s@.subrange(pos as int, pos as int) =~= json_sig_items(out@));
            assert forall|v: Seq<Ed25519Signature>| #[trigger] sig_items_at(
                s@,
                pos as int,
                v,
            ) implies v.len() == 0 by {
                if v.len() > 0 {
                    lemma_sig_item_stands(s@, pos as int, v, 0);
                    lemma_quoted_hex_inside(s@, pos as int, v[0]@);
                    assert(v.take(0) =~= Seq::<Ed25519Signature>::empty());
                }
            }
        }
        return Some((out, pos));
    }
    proof {
        assert forall|v: Seq<Ed25519Signature>| #[trigger] sig_items_at(
            s@,
            pos as int,
            v,
        ) implies v.len() >= 1 && quoted_hex_at(s@, pos as int, v[0]@) by {
            if v.len() == 0 {
                assert(json_sig_items(v).len() == 0);
            } else {
                lemma_sig_item_stands(s@, pos as int, v, 0);
                assert(v.take(0) =~= Seq::<Ed25519Signature>::empty());
                assert(json_sig_items(Seq::<Ed25519Signature>::empty()).len() == 0);
            }
        }
    }
    let (b, mut cur) = match parse_quoted_hex(s, pos) {
        Some(x) => x,
        None => {
            return None;
        },
    };
    if b.len() != 64 {
        return None;
    }
    out.push(Ed25519Signature { bytes: b });
    proof {
        assert(out@.len() == 1);
        assert(s@.subrange(pos as int, cur as int) =~= json_sig_items(out@));
        assert forall|v: Seq<Ed25519Signature>| #[trigger] sig_items_at(
            s@,
            pos as int,
            v,
        ) implies out@.len() <= v.len() && cur == pos + json_sig_items(
            v.take(out@.len() as int),
        ).len() && out@[0]@ == v[0]@ by {
            lemma_sig_item_stands(s@, pos as int, v, 0);
            assert(v.take(0) =~= Seq::<Ed25519Signature>::empty());
            assert(json_sig_items(Seq::<Ed25519Signature>::empty()).len() == 0);
        }
    }
    while cur < s.len() && s[cur] == 44
        invariant
            pos <= cur <= s@.len(),
            out@.len() >= 1,
            s@.subrange(pos as int, cur as int) == json_sig_items(out@),
            sigs_wf(out@),
            sigs_sorted(out@),
            forall|v: Seq<Ed25519Signature>|
                #[trigger] sig_items_at(s@, pos as int, v) ==> out@.len() <= v.len() && cur == pos
                    + json_sig_items(v.take(out@.len() as int)).len() && (forall|k: int|
                    0 <= k < out@.len() ==> out@[k]@ == v[k]@),
        decreases s@.len() - cur,
    {
        proof {
            assert forall|v: Seq<Ed25519Signature>| #[trigger] sig_items_at(
                s@,
                pos as int,
                v,
            ) implies out@.len() < v.len() && quoted_hex_at(s@, cur + 1, v[out@.len() as int]@) by {
                let m = out@.len() as int;
                if m == v.len() {
                    assert(v.take(m) =~= v);
                } else {
                    lemma_sig_item_stands(s@, pos as int, v, m);
                }
            }
        }
        let (b2, nxt) = match parse_quoted_hex(s, cur + 1) {
            Some(x) => x,
            None => {
                return None;
            },
        };
        if b2.len() != 64 {
            return None;
        }
        let last = out.len() - 1;
        if lex_compare(out[last].bytes.as_slice(), b2.as_slice()) != -1 {
            proof {
                assert forall|v: Seq<Ed25519Signature>| #[trigger] sig_items_at(
                    s@,
                    pos as int,
                    v,
                ) implies false by {
                    let m = out@.len() as int;
                    assert(b2@ == v[m]@);
                    assert(out@[m - 1]@ == v[m - 1]@);
                    assert(lex_lt(v[m - 1]@, v[m]@));
                }
            }
            return None;
        }
        let ghost old_out = out@;
        let sig = Ed25519Signature { bytes: b2 };
        out.push(sig);
        proof {
            lemma_json_sig_items_push(old_out, sig);
            assert(s@.subrange(cur as int, cur + 1) =~= seq![44u8]);
            assert(s@.subrange(pos as int, nxt as int) =~= s@.subrange(pos as int, cur as int)
                + s@.subrange(cur as int, cur + 1) + s@.subrange(cur + 1, nxt as int));
            assert(s@.subrange(pos as int, nxt as int) =~= json_sig_items(out@));
            assert(sigs_sorted(out@)) by {
                assert forall|i: int, j: int| 0 <= i < j < out@.len() implies lex_lt(
                    out@[i]@,
                    out@[j]@,
                ) by {
                    if j == out@.len() - 1 {
                        if i < old_out.len() - 1 {
                            assert(lex_lt(old_out[i]@, old_out[old_out.len() - 1]@));
                            lemma_lex_lt_transitive(old_out[i]@, old_out[old_out.len() - 1]@, sig@);
                        }
                    } else {
                        assert(out@[i] == old_out[i] && out@[j] == old_out[j]);
                    }
                }
            }
            assert forall|v: Seq<Ed25519Signature>| #[trigger] sig_items_at(
                s@,
                pos as int,
                v,
            ) implies out@.len() <= v.len() && nxt == pos + json_sig_items(
                v.take(out@.len() as int),
            ).len() && (forall|k: int| 0 <= k < out@.len() ==> out@[k]@ == v[k]@) by {
                let m = old_out.len() as int;
                lemma_sig_item_stands(s@, pos as int, v, m);
                assert(b2@ == v[m]@);
                assert forall|k: int| 0 <= k < out@.len() implies out@[k]@ == v[k]@ by {
                    if k < m {
                        assert(out@[k] == old_out[k]);
                    }
                }
            }
        }
        cur = nxt;
    }
    proof {
        assert forall|v: Seq<Ed25519Signature>| #[trigger] sig_items_at(
            s@,
            pos as int,
            v,
        ) implies cur == pos + json_sig_items(v).len() by {
            let m = out@.len() as int;
            if m < v.len() {
                lemma_sig_item_stands(s@, pos as int, v, m);
                lemma_quoted_hex_inside(s@, cur + 1, v[m]@);
            }
            assert(v.take(v.len() as int) =~= v);
        }
    }
    Some((out, cur))
}

/// Splitting a key item list around a boundary.
proof fn lemma_key_items_concat(a: Seq<Ed25519Public>, b: Seq<Ed25519Public>)
    ensures
        json_key_items(a + b) == if a.len() == 0 {
            json_key_items(b)
        } else if b.len() == 0 {
            json_key_items(a)
        } else {
            json_key_items(a) + seq![44u8] + json_key_items(b)
        },
    decreases a.len(),
{
    let w = a + b;
    if a.len() == 0 {
        assert(w =~= b);
    } else if b.len() == 0 {
        assert(w =~= a);
    } else if a.len() == 1 {
        assert(w[0] == a[0]);
        assert(w.drop_first() =~= b);
        assert(json_key_items(w) == json_hex(a[0]@) + seq![44u8] + json_key_items(b));
    } else {
        lemma_key_items_concat(a.drop_first(), b);
        assert(w.drop_first() =~= a.drop_first() + b);
        assert(w[0] == a[0]);
        assert(json_key_items(w) == json_hex(a[0]@) + seq![44u8] + json_key_items(
            a.drop_first() + b,
        ));
        assert(json_key_items(w) =~= json_key_items(a) + seq![44u8] + json_key_items(b));
    }
}

/// The hypothesis under which the key list of `v` stands at `pos`,
/// delimited by a following byte that can neither open an item nor
/// separate one.
spec fn key_items_at(s: Seq<u8>, pos: int, v: Seq<Ed25519Public>) -> bool {
    let items = json_key_items(v);
    &&& keys_wf(v)
    &&& pos + items.len() <= s.len()
    &&& s.subrange(pos, pos + items.len()) == items
    &&& (pos + items.len() == s.len() || (s[pos + items.len()] != 44 && s[pos + items.len()]
        != 34))
}

/// The key of witness `v` at boundary `m` stands in `s` right after
/// the items of `v.take(m)` and their separator.
proof fn lemma_key_item_stands(s: Seq<u8>, pos: int, v: Seq<Ed25519Public>, m: int)
    requires
        0 <= pos,
        key_items_at(s, pos, v),
        0 <= m < v.len(),
    ensures
        ({
            let at = pos + json_key_items(v.take(m)).len() + (if m == 0 {
                0int
            } else {
                1int
            });
            &&& quoted_hex_at(s, at, v[m]@)
            &&& m > 0 ==> s[pos + json_key_items(v.take(m)).len()] == 44
            &&& json_key_items(v.take(m + 1)).len() == json_key_items(v.take(m)).len() + (if m == 0 {
                0int
            } else {
                1int
            }) + 2 + 2 * v[m]@.len()
        }),
{
    let items = json_key_items(v);
    let head = json_key_items(v.take(m));
    let tail = json_key_items(v.skip(m));
    assert(v.take(m) + v.skip(m) =~= v);
    lemma_key_items_concat(v.take(m), v.skip(m));
    assert(v.skip(m)[0] == v[m]);
    let item = json_hex(v[m]@);
    assert(tail.subrange(0, item.len() as int) =~= item) by {
        if v.skip(m).len() == 1 {
            assert(tail == item);
        } else {
            assert(tail == item + seq![44u8] + json_key_items(v.skip(m).drop_first()));
            assert(forall|k: int| 0 <= k < item.len() ==> tail[k] == item[k]);
        }
    }
    let sep: int = if m == 0 { 0 } else { 1 };
    let at = pos + head.len() + sep;
    assert(items.len() == head.len() + sep + tail.len()) by {
        if m > 0 {
            assert(items == head + seq![44u8] + tail);
        } else {
            assert(v.take(0) =~= Seq::<Ed25519Public>::empty());
            assert(json_key_items(Seq::<Ed25519Public>::empty()) == Seq::<u8>::empty());
        }
    }
    assert(tail.len() >= item.len());
    assert(at + item.len() <= pos + items.len() <= s.len());
    assert forall|k: int| 0 <= k < item.len() implies s[at + k] == item[k] by {
        assert(0 <= head.len() + sep + k < items.len());
        assert(s.subrange(pos, pos + items.len())[head.len() + sep + k] == s[at + k]);
        if m > 0 {
            assert(items == head + seq![44u8] + tail);
            assert(items[head.len() + sep + k] == tail[k]);
        } else {
            assert(items[k] == tail[k]);
        }
        assert(tail[k] == item[k]);
    }
    assert(s.subrange(at, at + item.len()) =~= item) by {
        assert forall|k: int| 0 <= k < item.len() implies s.subrange(at, at + item.len())[k]
            == item[k] by {
            assert(s.subrange(at, at + item.len())[k] == s[at + k]);
        }
    }
    assert(quoted_hex_at(s, at, v[m]@));
    if m > 0 {
        assert(s.subrange(pos, pos + items.len())[head.len() as int] == s[pos + head.len()]);
        assert(items == head + seq![44u8] + tail);
        assert(items[head.len() as int] == 44);
    }
    assert(v.take(m + 1) =~= v.take(m).push(v[m]));
    lemma_json_key_items_push(v.take(m), v[m]);
}

/// Parses the comma-separated quoted-hex key items at `pos`: each
/// must be a 32-byte public key. Succeeds on every such list that
/// stands delimited at `pos`.
#[verifier::rlimit(100)]
fn parse_key_items(s: &[u8], pos: usize) -> (r: Option<(Vec<Ed25519Public>, usize)>)
    requires
        pos <= s@.len(),
    ensures
        r is Some ==> ({
            let (v, end) = r.unwrap();
            &&& pos <= end <= s@.len()
            &&& s@.subrange(pos as int, end as int) == json_key_items(v@)
            &&& forall|k: int| 0 <= k < v@.len() ==> (#[trigger] v@[k]).wf()
        }),
        forall|v: Seq<Ed25519Public>|
            #[trigger] key_items_at(s@, pos as int, v) ==> r is Some && r.unwrap().1 == pos
                + json_key_items(v).len() && r.unwrap().0@.len() == v.len(),
{
    let mut out: Vec<Ed25519Public> = Vec::new();
    if pos >= s.len() || s[pos] != 34 {
        proof {
            assert(s@.subrange(pos as int, pos as int) =~= json_key_items(out@));
            assert forall|v: Seq<Ed25519Public>| #[trigger] key_items_at(
                s@,
                pos as int,
                v,
            ) implies v.len() == 0 by {
                if v.len() > 0 {
                    lemma_key_item_stands(s@, pos as int, v, 0);
                    lemma_quoted_hex_inside(s@, pos as int, v[0]@);
                    assert(v.take(0) =~= Seq::<Ed25519Public>::empty());
                }
            }
        }
        return Some((out, pos));
    }
    proof {
        assert forall|v: Seq<Ed25519Public>| #[trigger] key_items_at(
            s@,
            pos as int,
            v,
        ) implies v.len() >= 1 && quoted_hex_at(s@, pos as int, v[0]@) by {
            if v.len() == 0 {
                assert(json_key_items(v).len() == 0);
            } else {
                lemma_key_item_stands(s@, pos as int, v, 0);
                assert(v.take(0) =~= Seq::<Ed25519Public>::empty());
                assert(json_key_items(Seq::<Ed25519Public>::empty()).len() == 0);
            }
        }
    }
    let (b, mut cur) = match parse_quoted_hex(s, pos) {
        Some(x) => x,
        None => {
            return None;
        },
    };
    if b.len() != 32 {
        return None;
    }
    out.push(Ed25519Public { bytes: b });
    proof {
        assert(out@.len() == 1);
        assert(s@.subrange(pos as int, cur as int) =~= json_key_items(out@));
        assert forall|v: Seq<Ed25519Public>| #[trigger] key_items_at(
            s@,
            pos as int,
            v,
        ) implies out@.len() <= v.len() && cur == pos + json_key_items(
            v.take(out@.len() as int),
        ).len() by {
            lemma_key_item_stands(s@, pos as int, v, 0);
            assert(v.take(0) =~= Seq::<Ed25519Public>::empty());
            assert(json_key_items(Seq::<Ed25519Public>::empty()).len() == 0);
        }
    }
    while cur < s.len() && s[cur] == 44
        invariant
            pos <= cur <= s@.len(),
            out@.len() >= 1,
            s@.subrange(pos as int, cur as int) == json_key_items(out@),
            forall|k: int| 0 <= k < out@.len() ==> (#[trigger] out@[k]).wf(),
            forall|v: Seq<Ed25519Public>|
                #[trigger] key_items_at(s@, pos as int, v) ==> out@.len() <= v.len() && cur == pos
                    + json_key_items(v.take(out@.len() as int)).len(),
        decreases s@.len() - cur,
    {
        proof {
            assert forall|v: Seq<Ed25519Public>| #[trigger] key_items_at(
                s@,
                pos as int,
                v,
            ) implies out@.len() < v.len() && quoted_hex_at(s@, cur + 1, v[out@.len() as int]@) by {
                let m = out@.len() as int;
                if m == v.len() {
                    assert(v.take(m) =~= v);
                } else {
                    lemma_key_item_stands(s@, pos as int, v, m);
                }
            }
        }
        let (b2, nxt) = match parse_quoted_hex(s, cur + 1) {
            Some(x) => x,
            None => {
                return None;
            },
        };
        if b2.len() != 32 {
            return None;
        }
        let ghost old_out = out@;
        let key = Ed25519Public { bytes: b2 };
        out.push(key);
        proof {
            lemma_json_key_items_push(old_out, key);
            assert(s@.subrange(cur as int, cur + 1) =~= seq![44u8]);
            assert(s@.subrange(pos as int, nxt as int) =~= s@.subrange(pos as int, cur as int)
                + s@.subrange(cur as int, cur + 1) + s@.subrange(cur + 1, nxt as int));
            assert(s@.subrange(pos as int, nxt as int) =~= json_key_items(out@));
            assert forall|v: Seq<Ed25519Public>| #[trigger] key_items_at(
                s@,
                pos as int,
                v,
            ) implies out@.len() <= v.len() && nxt == pos + json_key_items(
                v.take(out@.len() as int),
            ).len() by {
                let m = old_out.len() as int;
                lemma_key_item_stands(s@, pos as int, v, m);
                assert(b2@ == v[m]@);
            }
        }
        cur = nxt;
    }
    proof {
        assert forall|v: Seq<Ed25519Public>| #[trigger] key_items_at(
            s@,
            pos as int,
            v,
        ) implies cur == pos + json_key_items(v).len() && out@.len() == v.len() by {
            let m = out@.len() as int;
            if m < v.len() {
                lemma_key_item_stands(s@, pos as int, v, m);
                lemma_quoted_hex_inside(s@, cur + 1, v[m]@);
            }
            assert(v.take(v.len() as int) =~= v);
        }
    }
    Some((out, cur))
}

/// Extracts one segment of a concatenation that stands in `s`.
proof fn lemma_split3(s: Seq<u8>, pos: int, whole: Seq<u8>, pre: Seq<u8>, seg: Seq<u8>, suf: Seq<u8>)
    requires
        0 <= pos,
        pos + whole.len() <= s.len(),
        s.subrange(pos, pos + whole.len()) == whole,
        whole == pre + seg + suf,
    ensures
        pos + pre.len() + seg.len() <= s.len(),
        s.subrange(pos + pre.len(), pos + pre.len() + seg.len()) == seg,
        s.subrange(pos, pos + pre.len()) == pre,
{
    assert forall|k: int| 0 <= k < seg.len() implies s.subrange(
        pos + pre.len(),
        pos + pre.len() + seg.len(),
    )[k] == seg[k] by {
        assert(s.subrange(pos + pre.len(), pos + pre.len() + seg.len())[k] == s[pos + pre.len()
            + k]);
        assert(s.subrange(pos, pos + whole.len())[pre.len() + k] == s[pos + pre.len() + k]);
        assert((pre + seg + suf)[pre.len() + k] == seg[k]);
    }
    assert(s.subrange(pos + pre.len(), pos + pre.len() + seg.len()) =~= seg);
    assert forall|k: int| 0 <= k < pre.len() implies s.subrange(pos, pos + pre.len())[k]
        == pre[k] by {
        assert(s.subrange(pos, pos + pre.len())[k] == s[pos + k]);
        assert(s.subrange(pos, pos + whole.len())[k] == s[pos + k]);
        assert((pre + seg + suf)[k] == pre[k]);
    }
    assert(s.subrange(pos, pos + pre.len()) =~= pre);
}

/// The hypothesis under which the entry of `c` stands at `pos`; the
/// braces delimit it on their own.
spec fn entry_at(s: Seq<u8>, pos: int, c: MintConfig) -> bool {
    let e = json_config_entry(c);
    &&& c.wf()
    &&& pos + e.len() <= s.len()
    &&& s.subrange(pos, pos + e.len()) == e
}

/// Cumulative offsets of the pieces of one encoded entry.
spec fn entry_q1(c: MintConfig) -> int {
    lit_entry_open_spec().len() as int
}

spec fn entry_q2(c: MintConfig) -> int {
    entry_q1(c) + u64_dec(c.token_id as nat).len()
}

spec fn entry_q3(c: MintConfig) -> int {
    entry_q2(c) + lit_mint_limit_spec().len()
}

spec fn entry_q4(c: MintConfig) -> int {
    entry_q3(c) + u64_dec(c.mint_limit as nat).len()
}

spec fn entry_q5(c: MintConfig) -> int {
    entry_q4(c) + lit_signers_spec().len()
}

spec fn entry_q6(c: MintConfig) -> int {
    entry_q5(c) + json_key_items(c.signer_set.signers@).len()
}

spec fn entry_q7(c: MintConfig) -> int {
    entry_q6(c) + 1
}

spec fn entry_q8(c: MintConfig) -> int {
    entry_q7(c) + lit_threshold_spec().len()
}

spec fn entry_q9(c: MintConfig) -> int {
    entry_q8(c) + u64_dec(c.signer_set.threshold as nat).len()
}

spec fn entry_q10(c: MintConfig) -> int {
    entry_q9(c) + 1
}

/// Where each piece of an encoded entry stands in `s`, with the
/// delimiters each numeric or list piece needs.
#[verifier::rlimit(100)]
proof fn lemma_entry_layout(s: Seq<u8>, pos: int, c: MintConfig)
    requires
        0 <= pos,
        entry_at(s, pos, c),
    ensures
        entry_q10(c) == json_config_entry(c).len(),
        s.subrange(pos, pos + entry_q1(c)) == lit_entry_open_spec(),
        dec_at(s, pos + entry_q1(c), c.token_id),
        s.subrange(pos + entry_q2(c), pos + entry_q3(c)) == lit_mint_limit_spec(),
        dec_at(s, pos + entry_q3(c), c.mint_limit),
        s.subrange(pos + entry_q4(c), pos + entry_q5(c)) == lit_signers_spec(),
        key_items_at(s, pos + entry_q5(c), c.signer_set.signers@),
        s.subrange(pos + entry_q6(c), pos + entry_q7(c)) == seq![93u8],
        s.subrange(pos + entry_q7(c), pos + entry_q8(c)) == lit_threshold_spec(),
        dec_at(s, pos + entry_q8(c), (c.signer_set.threshold as u64)),
        s.subrange(pos + entry_q9(c), pos + entry_q10(c)) == seq![125u8],
{
    let e = json_config_entry(c);
    let l1 = lit_entry_open_spec();
    let d1 = u64_dec(c.token_id as nat);
    let l2 = lit_mint_limit_spec();
    let d2 = u64_dec(c.mint_limit as nat);
    let l3 = lit_signers_spec();
    let ks = json_key_items(c.signer_set.signers@);
    let l4 = lit_threshold_spec();
    let d3 = u64_dec(c.signer_set.threshold as nat);
    assert(e == l1 + d1 + l2 + d2 + l3 + ks + seq![93u8] + l4 + d3 + seq![125u8]);
    assert(e =~= Seq::<u8>::empty() + l1 + (d1 + l2 + d2 + l3 + ks + seq![93u8] + l4 + d3
        + seq![125u8]));
    lemma_split3(s, pos, e, Seq::empty(), l1, d1 + l2 + d2 + l3 + ks + seq![93u8] + l4 + d3
        + seq![125u8]);
    assert(e =~= l1 + d1 + (l2 + d2 + l3 + ks + seq![93u8] + l4 + d3 + seq![125u8]));
    lemma_split3(s, pos, e, l1, d1, l2 + d2 + l3 + ks + seq![93u8] + l4 + d3 + seq![125u8]);
    assert(e =~= (l1 + d1) + l2 + (d2 + l3 + ks + seq![93u8] + l4 + d3 + seq![125u8]));
    lemma_split3(s, pos, e, l1 + d1, l2, d2 + l3 + ks + seq![93u8] + l4 + d3 + seq![125u8]);
    assert(e =~= (l1 + d1 + l2) + d2 + (l3 + ks + seq![93u8] + l4 + d3 + seq![125u8]));
    lemma_split3(s, pos, e, l1 + d1 + l2, d2, l3 + ks + seq![93u8] + l4 + d3 + seq![125u8]);
    assert(e =~= (l1 + d1 + l2 + d2) + l3 + (ks + seq![93u8] + l4 + d3 + seq![125u8]));
    lemma_split3(s, pos, e, l1 + d1 + l2 + d2, l3, ks + seq![93u8] + l4 + d3 + seq![125u8]);
    assert(e =~= (l1 + d1 + l2 + d2 + l3) + ks + (seq![93u8] + l4 + d3 + seq![125u8]));
    lemma_split3(s, pos, e, l1 + d1 + l2 + d2 + l3, ks, seq![93u8] + l4 + d3 + seq![125u8]);
    assert(e =~= (l1 + d1 + l2 + d2 + l3 + ks) + seq![93u8] + (l4 + d3 + seq![125u8]));
    lemma_split3(s, pos, e, l1 + d1 + l2 + d2 + l3 + ks, seq![93u8], l4 + d3 + seq![125u8]);
    assert(e =~= (l1 + d1 + l2 + d2 + l3 + ks + seq![93u8]) + l4 + (d3 + seq![125u8]));
    lemma_split3(s, pos, e, l1 + d1 + l2 + d2 + l3 + ks + seq![93u8], l4, d3 + seq![125u8]);
    assert(e =~= (l1 + d1 + l2 + d2 + l3 + ks + seq![93u8] + l4) + d3 + seq![125u8]);
    lemma_split3(s, pos, e, l1 + d1 + l2 + d2 + l3 + ks + seq![93u8] + l4, d3, seq![125u8]);
    assert(e =~= (l1 + d1 + l2 + d2 + l3 + ks + seq![93u8] + l4 + d3) + seq![125u8]
        + Seq::<u8>::empty());
    lemma_split3(s, pos, e, l1 + d1 + l2 + d2 + l3 + ks + seq![93u8] + l4 + d3, seq![125u8],
        Seq::empty());
    lemma_u64_dec_properties(c.token_id as nat);
    lemma_u64_dec_properties(c.mint_limit as nat);
    lemma_u64_dec_properties(c.signer_set.threshold as nat);
    assert(s.subrange(pos + entry_q2(c), pos + entry_q3(c))[0] == s[pos + entry_q2(c)]);
    assert(lit_mint_limit_spec()[0] == 44);
    assert(s.subrange(pos + entry_q4(c), pos + entry_q5(c))[0] == s[pos + entry_q4(c)]);
    assert(lit_signers_spec()[0] == 44);
    assert(s.subrange(pos + entry_q6(c), pos + entry_q7(c))[0] == s[pos + entry_q6(c)]);
    assert(s.subrange(pos + entry_q9(c), pos + entry_q10(c))[0] == s[pos + entry_q9(c)]);
    assert(dec_at(s, pos + entry_q1(c), c.token_id));
    assert(dec_at(s, pos + entry_q3(c), c.mint_limit));
    assert(dec_at(s, pos + entry_q8(c), (c.signer_set.threshold as u64))) by {
        assert(u64_dec((c.signer_set.threshold as u64) as nat) == u64_dec(
            c.signer_set.threshold as nat,
        ));
    }
    assert(key_items_at(s, pos + entry_q5(c), c.signer_set.signers@));
}

/// Parses one mint-configuration entry at `pos`: the signer policy
/// must be valid, so the entry read back is well formed. Succeeds on
/// every well-formed entry standing at `pos`.
#[verifier::rlimit(100)]
fn parse_config_entry(s: &[u8], pos: usize) -> (r: Option<(MintConfig, usize)>)
    requires
        pos <= s@.len(),
    ensures
        r is Some ==> ({
            let (c, end) = r.unwrap();
            &&& pos < end <= s@.len()
            &&& s@.subrange(pos as int, end as int) == json_config_entry(c)
            &&& c.wf()
        }),
        forall|c: MintConfig|
            #[trigger] entry_at(s@, pos as int, c) ==> r is Some && r.unwrap().1 == pos
                + json_config_entry(c).len(),
{
    let t_open = lit_entry_open();
    proof {
        assert forall|c: MintConfig| #[trigger] entry_at(s@, pos as int, c) implies pos
            + t_open@.len() <= s@.len() && s@.subrange(pos as int, pos + t_open@.len())
            == t_open@ by {
            lemma_entry_layout(s@, pos as int, c);
        }
    }
    let p1 = match expect(s, pos, &t_open) {
        Some(p) => p,
        None => {
            return None;
        },
    };
    proof {
        assert forall|c: MintConfig| #[trigger] entry_at(s@, pos as int, c) implies p1 == pos
            + entry_q1(c) && dec_at(s@, p1 as int, c.token_id) && entry_q10(c)
            == json_config_entry(c).len() by {
            lemma_entry_layout(s@, pos as int, c);
        }
    }
    let (token_id, p2) = match parse_dec(s, p1) {
        Some(x) => x,
        None => {
            return None;
        },
    };
    let t_limit = lit_mint_limit();
    proof {
        assert forall|c: MintConfig| #[trigger] entry_at(s@, pos as int, c) implies p2 == pos
            + entry_q2(c) && token_id == c.token_id && p2 + t_limit@.len() <= s@.len()
            && s@.subrange(p2 as int, p2 + t_limit@.len()) == t_limit@ by {
            lemma_entry_layout(s@, pos as int, c);
        }
    }
    let p3 = match expect(s, p2, &t_limit) {
        Some(p) => p,
        None => {
            return None;
        },
    };
    proof {
        assert forall|c: MintConfig| #[trigger] entry_at(s@, pos as int, c) implies p3 == pos
            + entry_q3(c) && dec_at(s@, p3 as int, c.mint_limit) by {
            lemma_entry_layout(s@, pos as int, c);
        }
    }
    let (mint_limit, p4) = match parse_dec(s, p3) {
        Some(x) => x,
        None => {
            return None;
        },
    };
    let t_signers = lit_signers();
    proof {
        assert forall|c: MintConfig| #[trigger] entry_at(s@, pos as int, c) implies p4 == pos
            + entry_q4(c) && mint_limit == c.mint_limit && p4 + t_signers@.len() <= s@.len()
            && s@.subrange(p4 as int, p4 + t_signers@.len()) == t_signers@ by {
            lemma_entry_layout(s@, pos as int, c);
        }
    }
    let p5 = match expect(s, p4, &t_signers) {
        Some(p) => p,
        None => {
            return None;
        },
    };
    proof {
        assert forall|c: MintConfig| #[trigger] entry_at(s@, pos as int, c) implies p5 == pos
            + entry_q5(c) && key_items_at(s@, p5 as int, c.signer_set.signers@) by {
            lemma_entry_layout(s@, pos as int, c);
        }
    }
    let (signers, p6) = match parse_key_items(s, p5) {
        Some(x) => x,
        None => {
            return None;
        },
    };
    let close_bracket: Vec<u8> = vec![93u8];
    proof {
        assert(close_bracket@ =~= seq![93u8]);
        assert forall|c: MintConfig| #[trigger] entry_at(s@, pos as int, c) implies p6 == pos
            + entry_q6(c) && signers@.len() == c.signer_set.signers@.len() && p6
            + close_bracket@.len() <= s@.len() && s@.subrange(p6 as int, p6 + close_bracket@.len())
            == close_bracket@ by {
            lemma_entry_layout(s@, pos as int, c);
        }
    }
    let p7 = match expect(s, p6, &close_bracket) {
        Some(p) => p,
        None => {
            return None;
        },
    };
    let t_threshold = lit_threshold();
    proof {
        assert forall|c: MintConfig| #[trigger] entry_at(s@, pos as int, c) implies p7 == pos
            + entry_q7(c) && p7 + t_threshold@.len() <= s@.len() && s@.subrange(
            p7 as int,
            p7 + t_threshold@.len(),
        ) == t_threshold@ by {
            lemma_entry_layout(s@, pos as int, c);
        }
    }
    let p8 = match expect(s, p7, &t_threshold) {
        Some(p) => p,
        None => {
            return None;
        },
    };
    proof {
        assert forall|c: MintConfig| #[trigger] entry_at(s@, pos as int, c) implies p8 == pos
            + entry_q8(c) && dec_at(s@, p8 as int, (c.signer_set.threshold as u64)) by {
            lemma_entry_layout(s@, pos as int, c);
        }
    }
    let (threshold_wide, p9) = match parse_dec(s, p8) {
        Some(x) => x,
        None => {
            return None;
        },
    };
    let close_brace: Vec<u8> = vec![125u8];
    proof {
        assert(close_brace@ =~= seq![125u8]);
        assert forall|c: MintConfig| #[trigger] entry_at(s@, pos as int, c) implies p9 == pos
            + entry_q9(c) && threshold_wide == c.signer_set.threshold as u64 && p9
            + close_brace@.len() <= s@.len() && s@.subrange(p9 as int, p9 + close_brace@.len())
            == close_brace@ by {
            lemma_entry_layout(s@, pos as int, c);
        }
    }
    if threshold_wide == 0 || threshold_wide > signers.len() as u64 || threshold_wide
        > u32::MAX as u64 {
        return None;
    }
    let threshold = threshold_wide as u32;
    let p10 = match expect(s, p9, &close_brace) {
        Some(p) => p,
        None => {
            return None;
        },
    };
    let c = MintConfig { token_id, mint_limit, signer_set: SignerSet { signers, threshold } };
    proof {
        assert(close_bracket@ =~= seq![93u8]);
        assert(close_brace@ =~= seq![125u8]);
        assert(s@.subrange(pos as int, p10 as int) =~= s@.subrange(pos as int, p1 as int)
            + s@.subrange(p1 as int, p2 as int) + s@.subrange(p2 as int, p3 as int) + s@.subrange(
            p3 as int,
            p4 as int,
        ) + s@.subrange(p4 as int, p5 as int) + s@.subrange(p5 as int, p6 as int) + s@.subrange(
            p6 as int,
            p7 as int,
        ) + s@.subrange(p7 as int, p8 as int) + s@.subrange(p8 as int, p9 as int) + s@.subrange(
            p9 as int,
            p10 as int,
        ));
        assert(s@.subrange(pos as int, p10 as int) =~= json_config_entry(c));
        assert(threshold as u64 == threshold_wide);
    }
    Some((c, p10))
}

/// Splitting an entry list around a boundary.
proof fn lemma_entries_concat(a: Seq<MintConfig>, b: Seq<MintConfig>)
    ensures
        json_config_entries(a + b) == if a.len() == 0 {
            json_config_entries(b)
        } else if b.len() == 0 {
            json_config_entries(a)
        } else {
            json_config_entries(a) + seq![44u8] + json_config_entries(b)
        },
    decreases a.len(),
{
    let w = a + b;
    if a.len() == 0 {
        assert(w =~= b);
    } else if b.len() == 0 {
        assert(w =~= a);
    } else if a.len() == 1 {
        assert(w[0] == a[0]);
        assert(w.drop_first() =~= b);
        assert(json_config_entries(w) == json_config_entry(a[0]) + seq![44u8]
            + json_config_entries(b));
    } else {
        lemma_entries_concat(a.drop_first(), b);
        assert(w.drop_first() =~= a.drop_first() + b);
        assert(w[0] == a[0]);
        assert(json_config_entries(w) == json_config_entry(a[0]) + seq![44u8]
            + json_config_entries(a.drop_first() + b));
        assert(json_config_entries(w) =~= json_config_entries(a) + seq![44u8]
            + json_config_entries(b));
    }
}

/// The hypothesis under which the entry list of `v` stands at `pos`,
/// delimited by a following byte that can neither open an entry nor
/// separate one.
spec fn entries_at(s: Seq<u8>, pos: int, v: Seq<MintConfig>) -> bool {
    let items = json_config_entries(v);
    &&& (forall|k: int| 0 <= k < v.len() ==> (#[trigger] v[k]).wf())
    &&& pos + items.len() <= s.len()
    &&& s.subrange(pos, pos + items.len()) == items
    &&& (pos + items.len() == s.len() || (s[pos + items.len()] != 44 && s[pos + items.len()]
        != 123))
}

/// The entry of witness `v` at boundary `m` stands in `s` right after
/// the entries of `v.take(m)` and their separator.
proof fn lemma_entry_item_stands(s: Seq<u8>, pos: int, v: Seq<MintConfig>, m: int)
    requires
        0 <= pos,
        entries_at(s, pos, v),
        0 <= m < v.len(),
    ensures
        ({
            let at = pos + json_config_entries(v.take(m)).len() + (if m == 0 {
                0int
            } else {
                1int
            });
            &&& entry_at(s, at, v[m])
            &&& s[at] == 123
            &&& m > 0 ==> s[pos + json_config_entries(v.take(m)).len()] == 44
            &&& json_config_entries(v.take(m + 1)).len() == json_config_entries(v.take(m)).len() + (
            if m == 0 {
                0int
            } else {
                1int
            }) + json_config_entry(v[m]).len()
        }),
{
    let items = json_config_entries(v);
    let head = json_config_entries(v.take(m));
    let tail = json_config_entries(v.skip(m));
    assert(v.take(m) + v.skip(m) =~= v);
    lemma_entries_concat(v.take(m), v.skip(m));
    assert(v.skip(m)[0] == v[m]);
    let item = json_config_entry(v[m]);
    assert(tail.subrange(0, item.len() as int) =~= item) by {
        if v.skip(m).len() == 1 {
            assert(tail == item);
        } else {
            assert(tail == item + seq![44u8] + json_config_entries(v.skip(m).drop_first()));
            assert(forall|k: int| 0 <= k < item.len() ==> tail[k] == item[k]);
        }
    }
    let sep: int = if m == 0 { 0 } else { 1 };
    let at = pos + head.len() + sep;
    assert(items.len() == head.len() + sep + tail.len()) by {
        if m > 0 {
            assert(items == head + seq![44u8] + tail);
        } else {
            assert(v.take(0) =~= Seq::<MintConfig>::empty());
            assert(json_config_entries(Seq::<MintConfig>::empty()) == Seq::<u8>::empty());
        }
    }
    assert(tail.len() >= item.len());
    assert(at + item.len() <= pos + items.len() <= s.len());
    assert forall|k: int| 0 <= k < item.len() implies s[at + k] == item[k] by {
        assert(0 <= head.len() + sep + k < items.len());
        assert(s.subrange(pos, pos + items.len())[head.len() + sep + k] == s[at + k]);
        if m > 0 {
            assert(items == head + seq![44u8] + tail);
            assert(items[head.len() + sep + k] == tail[k]);
        } else {
            assert(items[k] == tail[k]);
        }
        assert(tail[k] == item[k]);
    }
    assert(s.subrange(at, at + item.len()) =~= item) by {
        assert forall|k: int| 0 <= k < item.len() implies s.subrange(at, at + item.len())[k]
            == item[k] by {
            assert(s.subrange(at, at + item.len())[k] == s[at + k]);
        }
    }
    assert(entry_at(s, at, v[m]));
    assert(item[0] == lit_entry_open_spec()[0]);
    assert(lit_entry_open_spec()[0] == 123);
    assert(s[at] == item[0]);
    if m > 0 {
        assert(s.subrange(pos, pos + items.len())[head.len() as int] == s[pos + head.len()]);
        assert(items == head + seq![44u8] + tail);
        assert(items[head.len() as int] == 44);
    }
    assert(v.take(m + 1) =~= v.take(m).push(v[m]));
    lemma_json_config_entries_push(v.take(m), v[m]);
}

/// Parses the comma-separated entries of a configuration list.
/// Succeeds on every well-formed entry list standing delimited at
/// `pos`.
#[verifier::rlimit(100)]
fn parse_config_entries(s: &[u8], pos: usize) -> (r: Option<(Vec<MintConfig>, usize)>)
    requires
        pos <= s@.len(),
    ensures
        r is Some ==> ({
            let (v, end) = r.unwrap();
            &&& pos <= end <= s@.len()
            &&& s@.subrange(pos as int, end as int) == json_config_entries(v@)
            &&& forall|k: int| 0 <= k < v@.len() ==> (#[trigger] v@[k]).wf()
        }),
        forall|v: Seq<MintConfig>|
            #[trigger] entries_at(s@, pos as int, v) ==> r is Some && r.unwrap().1 == pos
                + json_config_entries(v).len(),
{
    let mut out: Vec<MintConfig> = Vec::new();
    if pos >= s.len() || s[pos] != 123 {
        proof {
            assert(s@.subrange(pos as int, pos as int) =~= json_config_entries(out@));
            assert forall|v: Seq<MintConfig>| #[trigger] entries_at(
                s@,
                pos as int,
                v,
            ) implies v.len() == 0 by {
                if v.len() > 0 {
                    lemma_entry_item_stands(s@, pos as int, v, 0);
                    assert(v.take(0) =~= Seq::<MintConfig>::empty());
                }
            }
        }
        return Some((out, pos));
    }
    proof {
        assert forall|v: Seq<MintConfig>| #[trigger] entries_at(
            s@,
            pos as int,
            v,
        ) implies v.len() >= 1 && entry_at(s@, pos as int, v[0]) by {
            if v.len() == 0 {
                assert(json_config_entries(v).len() == 0);
            } else {
                lemma_entry_item_stands(s@, pos as int, v, 0);
                assert(v.take(0) =~= Seq::<MintConfig>::empty());
                assert(json_config_entries(Seq::<MintConfig>::empty()).len() == 0);
            }
        }
    }
    let (c, mut cur) = match parse_config_entry(s, pos) {
        Some(x) => x,
        None => {
            return None;
        },
    };
    out.push(c);
    proof {
        assert(out@.len() == 1);
        assert(s@.subrange(pos as int, cur as int) =~= json_config_entries(out@));
        assert forall|v: Seq<MintConfig>| #[trigger] entries_at(
            s@,
            pos as int,
            v,
        ) implies out@.len() <= v.len() && cur == pos + json_config_entries(
            v.take(out@.len() as int),
        ).len() by {
            lemma_entry_item_stands(s@, pos as int, v, 0);
            assert(v.take(0) =~= Seq::<MintConfig>::empty());
            assert(json_config_entries(Seq::<MintConfig>::empty()).len() == 0);
        }
    }
    while cur < s.len() && s[cur] == 44
        invariant
            pos <= cur <= s@.len(),
            out@.len() >= 1,
            s@.subrange(pos as int, cur as int) == json_config_entries(out@),
            forall|k: int| 0 <= k < out@.len() ==> (#[trigger] out@[k]).wf(),
            forall|v: Seq<MintConfig>|
                #[trigger] entries_at(s@, pos as int, v) ==> out@.len() <= v.len() && cur == pos
                    + json_config_entries(v.take(out@.len() as int)).len(),
        decreases s@.len() - cur,
    {
        proof {
            assert forall|v: Seq<MintConfig>| #[trigger] entries_at(
                s@,
                pos as int,
                v,
            ) implies out@.len() < v.len() && entry_at(s@, cur + 1, v[out@.len() as int]) by {
                let m = out@.len() as int;
                if m == v.len() {
                    assert(v.take(m) =~= v);
                } else {
                    lemma_entry_item_stands(s@, pos as int, v, m);
                }
            }
        }
        let (c2, nxt) = match parse_config_entry(s, cur + 1) {
            Some(x) => x,
            None => {
                return None;
            },
        };
        let ghost old_out = out@;
        out.push(c2);
        proof {
            lemma_json_config_entries_push(old_out, c2);
            assert(s@.subrange(cur as int, cur + 1) =~= seq![44u8]);
            assert(s@.subrange(pos as int, nxt as int) =~= s@.subrange(pos as int, cur as int)
                + s@.subrange(cur as int, cur + 1) + s@.subrange(cur + 1, nxt as int));
            assert(s@.subrange(pos as int, nxt as int) =~= json_config_entries(out@));
            assert forall|v: Seq<MintConfig>| #[trigger] entries_at(
                s@,
                pos as int,
                v,
            ) implies out@.len() <= v.len() && nxt == pos + json_config_entries(
                v.take(out@.len() as int),
            ).len() by {
                let m = old_out.len() as int;
                lemma_entry_item_stands(s@, pos as int, v, m);
            }
        }
        cur = nxt;
    }
    proof {
        assert forall|v: Seq<MintConfig>| #[trigger] entries_at(
            s@,
            pos as int,
            v,
        ) implies cur == pos + json_config_entries(v).len() by {
            let m = out@.len() as int;
            if m < v.len() {
                lemma_entry_item_stands(s@, pos as int, v, m);
            }
            assert(v.take(v.len() as int) =~= v);
        }
    }
    Some((out, cur))
}

/// The hypothesis that `s` is exactly the canonical encoding of the
/// well-formed record `t`.
spec fn config_file_at(s: Seq<u8>, t: MintConfigTx) -> bool {
    t.wf() && s == mint_config_tx_json(t)
}

/// Cumulative offsets of the pieces of one encoded configuration
/// file.
spec fn cf_q1(t: MintConfigTx) -> int {
    lit_config_file_open_spec().len() as int
}

spec fn cf_q2(t: MintConfigTx) -> int {
    cf_q1(t) + u64_dec(t.prefix.token_id as nat).len()
}

spec fn cf_q3(t: MintConfigTx) -> int {
    cf_q2(t) + lit_configs_spec().len()
}

spec fn cf_q4(t: MintConfigTx) -> int {
    cf_q3(t) + json_config_entries(t.prefix.configs@).len()
}

spec fn cf_q5(t: MintConfigTx) -> int {
    cf_q4(t) + lit_nonce_after_list_spec().len()
}

spec fn cf_q6(t: MintConfigTx) -> int {
    cf_q5(t) + hex_text_of(t.prefix.nonce@).len()
}

spec fn cf_q7(t: MintConfigTx) -> int {
    cf_q6(t) + lit_tombstone_spec().len()
}

spec fn cf_q8(t: MintConfigTx) -> int {
    cf_q7(t) + u64_dec(t.prefix.tombstone_block as nat).len()
}

spec fn cf_q9(t: MintConfigTx) -> int {
    cf_q8(t) + lit_total_mint_limit_spec().len()
}

spec fn cf_q10(t: MintConfigTx) -> int {
    cf_q9(t) + u64_dec(t.prefix.total_mint_limit as nat).len()
}

spec fn cf_q11(t: MintConfigTx) -> int {
    cf_q10(t) + lit_signature_spec().len()
}

spec fn cf_q12(t: MintConfigTx) -> int {
    cf_q11(t) + json_sig_items(t.signature@).len()
}

spec fn cf_q13(t: MintConfigTx) -> int {
    cf_q12(t) + lit_file_close_spec().len()
}

/// Where each piece of an encoded configuration file stands, with
/// the delimiters each numeric, hex or list piece needs.
#[verifier::rlimit(100)]
proof fn lemma_config_file_layout(s: Seq<u8>, t: MintConfigTx)
    requires
        config_file_at(s, t),
    ensures
        cf_q13(t) == s.len(),
        s.subrange(0, cf_q1(t)) == lit_config_file_open_spec(),
        dec_at(s, cf_q1(t), t.prefix.token_id),
        s.subrange(cf_q2(t), cf_q3(t)) == lit_configs_spec(),
        entries_at(s, cf_q3(t), t.prefix.configs@),
        s.subrange(cf_q4(t), cf_q5(t)) == lit_nonce_after_list_spec(),
        hex_at(s, cf_q5(t), t.prefix.nonce@),
        s.subrange(cf_q6(t), cf_q7(t)) == lit_tombstone_spec(),
        dec_at(s, cf_q7(t), t.prefix.tombstone_block),
        s.subrange(cf_q8(t), cf_q9(t)) == lit_total_mint_limit_spec(),
        dec_at(s, cf_q9(t), t.prefix.total_mint_limit),
        s.subrange(cf_q10(t), cf_q11(t)) == lit_signature_spec(),
        sig_items_at(s, cf_q11(t), t.signature@),
        s.subrange(cf_q12(t), cf_q13(t)) == lit_file_close_spec(),
{
    let l1 = lit_config_file_open_spec();
    let d1 = u64_dec(t.prefix.token_id as nat);
    let l2 = lit_configs_spec();
    let en = json_config_entries(t.prefix.configs@);
    let l3 = lit_nonce_after_list_spec();
    let hx = hex_text_of(t.prefix.nonce@);
    let l4 = lit_tombstone_spec();
    let d2 = u64_dec(t.prefix.tombstone_block as nat);
    let l5 = lit_total_mint_limit_spec();
    let d3 = u64_dec(t.prefix.total_mint_limit as nat);
    let l6 = lit_signature_spec();
    let si = json_sig_items(t.signature@);
    let l7 = lit_file_close_spec();
    assert(s == l1 + d1 + l2 + en + l3 + hx + l4 + d2 + l5 + d3 + l6 + si + l7);
    assert(s.subrange(0, s.len() as int) =~= s);
    assert((l1 + d1 + l2 + en + l3 + hx + l4 + d2 + l5 + d3 + l6 + si + l7) =~= (l1 + d1 + l2 + en + l3 + hx + l4 + d2 + l5 + d3 + l6 + si) + l7 + Seq::<u8>::empty());
    lemma_split3(s, 0, l1 + d1 + l2 + en + l3 + hx + l4 + d2 + l5 + d3 + l6 + si + l7, l1 + d1 + l2 + en + l3 + hx + l4 + d2 + l5 + d3 + l6 + si, l7, Seq::empty());
    assert((l1 + d1 + l2 + en + l3 + hx + l4 + d2 + l5 + d3 + l6 + si) =~= (l1 + d1 + l2 + en + l3 + hx + l4 + d2 + l5 + d3 + l6) + si + Seq::<u8>::empty());
    lemma_split3(s, 0, l1 + d1 + l2 + en + l3 + hx + l4 + d2 + l5 + d3 + l6 + si, l1 + d1 + l2 + en + l3 + hx + l4 + d2 + l5 + d3 + l6, si, Seq::empty());
    assert((l1 + d1 + l2 + en + l3 + hx + l4 + d2 + l5 + d3 + l6) =~= (l1 + d1 + l2 + en + l3 + hx + l4 + d2 + l5 + d3) + l6 + Seq::<u8>::empty());
    lemma_split3(s, 0, l1 + d1 + l2 + en + l3 + hx + l4 + d2 + l5 + d3 + l6, l1 + d1 + l2 + en + l3 + hx + l4 + d2 + l5 + d3, l6, Seq::empty());
    assert((l1 + d1 + l2 + en + l3 + hx + l4 + d2 + l5 + d3) =~= (l1 + d1 + l2 + en + l3 + hx + l4 + d2 + l5) + d3 + Seq::<u8>::empty());
    lemma_split3(s, 0, l1 + d1 + l2 + en + l3 + hx + l4 + d2 + l5 + d3, l1 + d1 + l2 + en + l3 + hx + l4 + d2 + l5, d3, Seq::empty());
    assert((l1 + d1 + l2 + en + l3 + hx + l4 + d2 + l5) =~= (l1 + d1 + l2 + en + l3 + hx + l4 + d2) + l5 + Seq::<u8>::empty());
    lemma_split3(s, 0, l1 + d1 + l2 + en + l3 + hx + l4 + d2 + l5, l1 + d1 + l2 + en + l3 + hx + l4 + d2, l5, Seq::empty());
    assert((l1 + d1 + l2 + en + l3 + hx + l4 + d2) =~= (l1 + d1 + l2 + en + l3 + hx + l4) + d2 + Seq::<u8>::empty());
    lemma_split3(s, 0, l1 + d1 + l2 + en + l3 + hx + l4 + d2, l1 + d1 + l2 + en + l3 + hx + l4, d2, Seq::empty());
    assert((l1 + d1 + l2 + en + l3 + hx + l4) =~= (l1 + d1 + l2 + en + l3 + hx) + l4 + Seq::<u8>::empty());
    lemma_split3(s, 0, l1 + d1 + l2 + en + l3 + hx + l4, l1 + d1 + l2 + en + l3 + hx, l4, Seq::empty());
    assert((l1 + d1 + l2 + en + l3 + hx) =~= (l1 + d1 + l2 + en + l3) + hx + Seq::<u8>::empty());
    lemma_split3(s, 0, l1 + d1 + l2 + en + l3 + hx, l1 + d1 + l2 + en + l3, hx, Seq::empty());
    assert((l1 + d1 + l2 + en + l3) =~= (l1 + d1 + l2 + en) + l3 + Seq::<u8>::empty());
    lemma_split3(s, 0, l1 + d1 + l2 + en + l3, l1 + d1 + l2 + en, l3, Seq::empty());
    assert((l1 + d1 + l2 + en) =~= (l1 + d1 + l2) + en + Seq::<u8>::empty());
    lemma_split3(s, 0, l1 + d1 + l2 + en, l1 + d1 + l2, en, Seq::empty());
    assert((l1 + d1 + l2) =~= (l1 + d1) + l2 + Seq::<u8>::empty());
    lemma_split3(s, 0, l1 + d1 + l2, l1 + d1, l2, Seq::empty());
    assert((l1 + d1) =~= (l1) + d1 + Seq::<u8>::empty());
    lemma_split3(s, 0, l1 + d1, l1, d1, Seq::empty());
    assert((l1) =~= (Seq::<u8>::empty()) + l1 + Seq::<u8>::empty());
    lemma_split3(s, 0, l1, Seq::<u8>::empty(), l1, Seq::empty());
    lemma_u64_dec_properties(t.prefix.token_id as nat);
    lemma_u64_dec_properties(t.prefix.tombstone_block as nat);
    lemma_u64_dec_properties(t.prefix.total_mint_limit as nat);
    assert(s.subrange(cf_q2(t), cf_q3(t))[0] == s[cf_q2(t)]);
    assert(lit_configs_spec()[0] == 44);
    assert(s.subrange(cf_q4(t), cf_q5(t))[0] == s[cf_q4(t)]);
    assert(lit_nonce_after_list_spec()[0] == 93);
    assert(s.subrange(cf_q6(t), cf_q7(t))[0] == s[cf_q6(t)]);
    assert(lit_tombstone_spec()[0] == 34);
    assert(s.subrange(cf_q8(t), cf_q9(t))[0] == s[cf_q8(t)]);
    assert(lit_total_mint_limit_spec()[0] == 44);
    assert(s.subrange(cf_q10(t), cf_q11(t))[0] == s[cf_q10(t)]);
    assert(lit_signature_spec()[0] == 125);
    assert(s.subrange(cf_q12(t), cf_q13(t))[0] == s[cf_q12(t)]);
    assert(lit_file_close_spec()[0] == 93);
    assert(dec_at(s, cf_q1(t), t.prefix.token_id));
    assert(entries_at(s, cf_q3(t), t.prefix.configs@));
    assert(hex_at(s, cf_q5(t), t.prefix.nonce@));
    assert(dec_at(s, cf_q7(t), t.prefix.tombstone_block));
    assert(dec_at(s, cf_q9(t), t.prefix.total_mint_limit));
    assert(sig_items_at(s, cf_q11(t), t.signature@));
}

/// The front half of the layout, through the nonce.
proof fn lemma_config_file_layout_head(s: Seq<u8>, t: MintConfigTx)
    requires
        config_file_at(s, t),
    ensures
        cf_q6(t) <= s.len(),
        s.subrange(0, cf_q1(t)) == lit_config_file_open_spec(),
        dec_at(s, cf_q1(t), t.prefix.token_id),
        s.subrange(cf_q2(t), cf_q3(t)) == lit_configs_spec(),
        entries_at(s, cf_q3(t), t.prefix.configs@),
        s.subrange(cf_q4(t), cf_q5(t)) == lit_nonce_after_list_spec(),
        hex_at(s, cf_q5(t), t.prefix.nonce@),
        s.subrange(cf_q6(t), cf_q7(t)) == lit_tombstone_spec(),
{
    lemma_config_file_layout(s, t);
}

/// The back half of the layout, from the tombstone on.
proof fn lemma_config_file_layout_tail(s: Seq<u8>, t: MintConfigTx)
    requires
        config_file_at(s, t),
    ensures
        cf_q13(t) == s.len(),
        cf_q6(t) <= s.len(),
        s.subrange(cf_q6(t), cf_q7(t)) == lit_tombstone_spec(),
        dec_at(s, cf_q7(t), t.prefix.tombstone_block),
        s.subrange(cf_q8(t), cf_q9(t)) == lit_total_mint_limit_spec(),
        dec_at(s, cf_q9(t), t.prefix.total_mint_limit),
        s.subrange(cf_q10(t), cf_q11(t)) == lit_signature_spec(),
        sig_items_at(s, cf_q11(t), t.signature@),
        s.subrange(cf_q12(t), cf_q13(t)) == lit_file_close_spec(),
{
    lemma_config_file_layout(s, t);
}

/// Parses the front of a mint-configuration file, through the
/// nonce: strict, and succeeds on the front of every canonical
/// encoding of a well-formed record.
#[verifier::rlimit(100)]
fn parse_config_file_head(s: &[u8]) -> (r: Option<(u64, Vec<MintConfig>, Vec<u8>, usize)>)
    ensures
        r is Some ==> ({
            let (token_id, configs, nonce, end) = r.unwrap();
            &&& end <= s@.len()
            &&& s@.subrange(0, end as int) == lit_config_file_open_spec() + u64_dec(
                token_id as nat,
            ) + lit_configs_spec() + json_config_entries(configs@) + lit_nonce_after_list_spec()
                + hex_text_of(nonce@)
            &&& forall|k: int| 0 <= k < configs@.len() ==> (#[trigger] configs@[k]).wf()
            &&& nonce@.len() == NONCE_LENGTH
        }),
        forall|t: MintConfigTx|
            #[trigger] config_file_at(s@, t) ==> r is Some && r.unwrap().3 == cf_q6(t)
                && r.unwrap().0 == t.prefix.token_id && r.unwrap().2@ == t.prefix.nonce@,
{

    let t_open = lit_config_file_open();
    proof {
        assert forall|t: MintConfigTx| #[trigger] config_file_at(s@, t) implies t_open@.len()
            <= s@.len() && s@.subrange(0, t_open@.len() as int) == t_open@ by {
            lemma_config_file_layout_head(s@, t);
        }
    }
    let p1 = match expect(s, 0, &t_open) {
        Some(p) => p,
        None => {
            return None;
        },
    };
    proof {
        assert forall|t: MintConfigTx| #[trigger] config_file_at(s@, t) implies p1 == cf_q1(t)
            && dec_at(s@, p1 as int, t.prefix.token_id) by {
            lemma_config_file_layout_head(s@, t);
        }
    }
    let (token_id, p2) = match parse_dec(s, p1) {
        Some(x) => x,
        None => {
            return None;
        },
    };
    let t_configs = lit_configs();
    proof {
        assert forall|t: MintConfigTx| #[trigger] config_file_at(s@, t) implies p2 == cf_q2(t)
            && token_id == t.prefix.token_id && p2 + t_configs@.len() <= s@.len() && s@.subrange(
            p2 as int,
            p2 + t_configs@.len(),
        ) == t_configs@ by {
            lemma_config_file_layout_head(s@, t);
        }
    }
    let p3 = match expect(s, p2, &t_configs) {
        Some(p) => p,
        None => {
            return None;
        },
    };
    proof {
        assert forall|t: MintConfigTx| #[trigger] config_file_at(s@, t) implies p3 == cf_q3(t)
            && entries_at(s@, p3 as int, t.prefix.configs@) by {
            lemma_config_file_layout_head(s@, t);
        }
    }
    let (configs, p4) = match parse_config_entries(s, p3) {
        Some(x) => x,
        None => {
            return None;
        },
    };
    let t_nonce = lit_nonce_after_list();
    proof {
        assert forall|t: MintConfigTx| #[trigger] config_file_at(s@, t) implies p4 == cf_q4(t) && p4
            + t_nonce@.len() <= s@.len() && s@.subrange(p4 as int, p4 + t_nonce@.len())
            == t_nonce@ by {
            lemma_config_file_layout_head(s@, t);
        }
    }
    let p5 = match expect(s, p4, &t_nonce) {
        Some(p) => p,
        None => {
            return None;
        },
    };
    proof {
        assert forall|t: MintConfigTx| #[trigger] config_file_at(s@, t) implies p5 == cf_q5(t)
            && hex_at(s@, p5 as int, t.prefix.nonce@) by {
            lemma_config_file_layout_head(s@, t);
        }
    }
    let (nonce, p6) = match parse_hex_run(s, p5) {
        Some(x) => x,
        None => {
            return None;
        },
    };
    let t_tomb = lit_tombstone();
    proof {
        assert forall|t: MintConfigTx| #[trigger] config_file_at(s@, t) implies p6 == cf_q6(t)
            && nonce@ == t.prefix.nonce@ && p6 + t_tomb@.len() <= s@.len() && s@.subrange(
            p6 as int,
            p6 + t_tomb@.len(),
        ) == t_tomb@ by {
            lemma_config_file_layout_head(s@, t);
        }
    }
    proof {
        assert(s@.subrange(0, p6 as int) =~= s@.subrange(0, p1 as int) + s@.subrange(
            p1 as int,
            p2 as int,
        ) + s@.subrange(p2 as int, p3 as int) + s@.subrange(p3 as int, p4 as int) + s@.subrange(
            p4 as int,
            p5 as int,
        ) + s@.subrange(p5 as int, p6 as int));
    }
    if nonce.len() != NONCE_LENGTH {
        return None;
    }
    Some((token_id, configs, nonce, p6))
}

/// Parses a complete mint-configuration file: strict, and succeeds
/// on every canonical encoding of a well-formed record.
#[verifier::rlimit(100)]
fn parse_mint_config_tx_json(s: &[u8]) -> (r: Option<MintConfigTx>)
    ensures
        r is Some ==> s@ == mint_config_tx_json(r.unwrap()) && r.unwrap().wf(),
        forall|t: MintConfigTx| #[trigger] config_file_at(s@, t) ==> r is Some,
{
    let (token_id, configs, nonce, p6) = match parse_config_file_head(s) {
        Some(x) => x,
        None => {
            return None;
        },
    };
    let t_tomb = lit_tombstone();
    proof {
        assert forall|t: MintConfigTx| #[trigger] config_file_at(s@, t) implies p6 == cf_q6(t) && p6
            + t_tomb@.len() <= s@.len() && s@.subrange(p6 as int, p6 + t_tomb@.len())
            == t_tomb@ by {
            lemma_config_file_layout_head(s@, t);
        }
    }
    let p7 = match expect(s, p6, &t_tomb) {
        Some(p) => p,
        None => {
            return None;
        },
    };
    proof {
        assert forall|t: MintConfigTx| #[trigger] config_file_at(s@, t) implies p7 == cf_q7(t)
            && dec_at(s@, p7 as int, t.prefix.tombstone_block) by {
            lemma_config_file_layout_tail(s@, t);
        }
    }
    let (tombstone_block, p8) = match parse_dec(s, p7) {
        Some(x) => x,
        None => {
            return None;
        },
    };
    let t_total = lit_total_mint_limit();
    proof {
        assert forall|t: MintConfigTx| #[trigger] config_file_at(s@, t) implies p8 == cf_q8(t) && p8
            + t_total@.len() <= s@.len() && s@.subrange(p8 as int, p8 + t_total@.len())
            == t_total@ by {
            lemma_config_file_layout_tail(s@, t);
        }
    }
    let p9 = match expect(s, p8, &t_total) {
        Some(p) => p,
        None => {
            return None;
        },
    };
    proof {
        assert forall|t: MintConfigTx| #[trigger] config_file_at(s@, t) implies p9 == cf_q9(t)
            && dec_at(s@, p9 as int, t.prefix.total_mint_limit) by {
            lemma_config_file_layout_tail(s@, t);
        }
    }
    let (total_mint_limit, p10) = match parse_dec(s, p9) {
        Some(x) => x,
        None => {
            return None;
        },
    };
    let t_sig = lit_signature();
    proof {
        assert forall|t: MintConfigTx| #[trigger] config_file_at(s@, t) implies p10 == cf_q10(t)
            && p10 + t_sig@.len() <= s@.len() && s@.subrange(p10 as int, p10 + t_sig@.len())
            == t_sig@ by {
            lemma_config_file_layout_tail(s@, t);
        }
    }
    let p11 = match expect(s, p10, &t_sig) {
        Some(p) => p,
        None => {
            return None;
        },
    };
    proof {
        assert forall|t: MintConfigTx| #[trigger] config_file_at(s@, t) implies p11 == cf_q11(t)
            && sig_items_at(s@, p11 as int, t.signature@) by {
            lemma_config_file_layout_tail(s@, t);
        }
    }
    let (signatures, p12) = match parse_sig_items(s, p11) {
        Some(x) => x,
        None => {
            return None;
        },
    };
    let t_close = lit_file_close();
    proof {
        assert forall|t: MintConfigTx| #[trigger] config_file_at(s@, t) implies p12 == cf_q12(t)
            && p12 + t_close@.len() <= s@.len() && s@.subrange(p12 as int, p12 + t_close@.len())
            == t_close@ by {
            lemma_config_file_layout_tail(s@, t);
        }
    }
    let p13 = match expect(s, p12, &t_close) {
        Some(p) => p,
        None => {
            return None;
        },
    };
    proof {
        assert forall|t: MintConfigTx| #[trigger] config_file_at(s@, t) implies p13
            == s@.len() by {
            lemma_config_file_layout_tail(s@, t);
        }
    }
    if p13 != s.len() {
        return None;
    }
    let tx = MintConfigTx {
        prefix: MintConfigTxPrefix {
            token_id,
            configs,
            nonce,
            tombstone_block,
            total_mint_limit,
        },
        signature: MultiSig { signatures },
    };
    proof {
        assert(s@ =~= s@.subrange(0, p6 as int) + s@.subrange(p6 as int, p7 as int) + s@.subrange(
            p7 as int,
            p8 as int,
        ) + s@.subrange(p8 as int, p9 as int) + s@.subrange(p9 as int, p10 as int) + s@.subrange(
            p10 as int,
            p11 as int,
        ) + s@.subrange(p11 as int, p12 as int) + s@.subrange(p12 as int, p13 as int));
        assert(s@ =~= mint_config_tx_json(tx));
    }
    Some(tx)
}

/// The hypothesis that `s` is exactly the canonical encoding of the
/// well-formed mint record `t`.
spec fn mint_file_at(s: Seq<u8>, t: MintTx) -> bool {
    t.wf() && s == mint_tx_json(t)
}

/// Cumulative offsets of the pieces of one encoded mint file.
spec fn mf_q1(t: MintTx) -> int {
    lit_mint_file_open_spec().len() as int
}

spec fn mf_q2(t: MintTx) -> int {
    mf_q1(t) + u64_dec(t.prefix.token_id as nat).len()
}

spec fn mf_q3(t: MintTx) -> int {
    mf_q2(t) + lit_amount_spec().len()
}

spec fn mf_q4(t: MintTx) -> int {
    mf_q3(t) + u64_dec(t.prefix.amount as nat).len()
}

spec fn mf_q5(t: MintTx) -> int {
    mf_q4(t) + lit_view_key_spec().len()
}

spec fn mf_q6(t: MintTx) -> int {
    mf_q5(t) + hex_text_of(t.prefix.view_public_key@).len()
}

spec fn mf_q7(t: MintTx) -> int {
    mf_q6(t) + lit_spend_key_spec().len()
}

spec fn mf_q8(t: MintTx) -> int {
    mf_q7(t) + hex_text_of(t.prefix.spend_public_key@).len()
}

spec fn mf_q9(t: MintTx) -> int {
    mf_q8(t) + lit_nonce_after_str_spec().len()
}

spec fn mf_q10(t: MintTx) -> int {
    mf_q9(t) + hex_text_of(t.prefix.nonce@).len()
}

spec fn mf_q11(t: MintTx) -> int {
    mf_q10(t) + lit_tombstone_spec().len()
}

spec fn mf_q12(t: MintTx) -> int {
    mf_q11(t) + u64_dec(t.prefix.tombstone_block as nat).len()
}

spec fn mf_q13(t: MintTx) -> int {
    mf_q12(t) + lit_fog_hint_spec().len()
}

spec fn mf_q14(t: MintTx) -> int {
    mf_q13(t) + (if t.prefix.e_fog_hint is Some { json_hex(t.prefix.e_fog_hint.unwrap()@).len() as int } else { lit_null_spec().len() as int })
}

spec fn mf_q15(t: MintTx) -> int {
    mf_q14(t) + lit_signature_spec().len()
}

spec fn mf_q16(t: MintTx) -> int {
    mf_q15(t) + json_sig_items(t.signature@).len()
}

spec fn mf_q17(t: MintTx) -> int {
    mf_q16(t) + lit_file_close_spec().len()
}

/// Where the back raw pieces of an encoded mint file stand.
#[verifier::rlimit(100)]
proof fn lemma_mint_file_pieces_back(s: Seq<u8>, t: MintTx)
    requires
        mint_file_at(s, t),
    ensures
        mf_q17(t) == s.len(),
        s.subrange(0, mf_q10(t)) == lit_mint_file_open_spec() + u64_dec(t.prefix.token_id as nat)
            + lit_amount_spec() + u64_dec(t.prefix.amount as nat) + lit_view_key_spec()
            + hex_text_of(t.prefix.view_public_key@) + lit_spend_key_spec() + hex_text_of(
            t.prefix.spend_public_key@,
        ) + lit_nonce_after_str_spec() + hex_text_of(t.prefix.nonce@),
        s.subrange(mf_q10(t), mf_q11(t)) == lit_tombstone_spec(),
        s.subrange(mf_q11(t), mf_q12(t)) == u64_dec(t.prefix.tombstone_block as nat),
        s.subrange(mf_q12(t), mf_q13(t)) == lit_fog_hint_spec(),
        s.subrange(mf_q13(t), mf_q14(t)) == (if t.prefix.e_fog_hint is Some {
            json_hex(t.prefix.e_fog_hint.unwrap()@)
        } else {
            lit_null_spec()
        }),
        s.subrange(mf_q14(t), mf_q15(t)) == lit_signature_spec(),
        s.subrange(mf_q15(t), mf_q16(t)) == json_sig_items(t.signature@),
        s.subrange(mf_q16(t), mf_q17(t)) == lit_file_close_spec(),
{
    let l1 = lit_mint_file_open_spec();
    let d1 = u64_dec(t.prefix.token_id as nat);
    let l2 = lit_amount_spec();
    let d2 = u64_dec(t.prefix.amount as nat);
    let l3 = lit_view_key_spec();
    let h1 = hex_text_of(t.prefix.view_public_key@);
    let l4 = lit_spend_key_spec();
    let h2 = hex_text_of(t.prefix.spend_public_key@);
    let l5 = lit_nonce_after_str_spec();
    let h3 = hex_text_of(t.prefix.nonce@);
    let l6 = lit_tombstone_spec();
    let d3 = u64_dec(t.prefix.tombstone_block as nat);
    let l7 = lit_fog_hint_spec();
    let fh = if t.prefix.e_fog_hint is Some { json_hex(t.prefix.e_fog_hint.unwrap()@) } else { lit_null_spec() };
    let l8 = lit_signature_spec();
    let si = json_sig_items(t.signature@);
    let l9 = lit_file_close_spec();
    assert(s == l1 + d1 + l2 + d2 + l3 + h1 + l4 + h2 + l5 + h3 + l6 + d3 + l7 + fh + l8 + si + l9);
    assert(s.subrange(0, s.len() as int) =~= s);
    assert((l1 + d1 + l2 + d2 + l3 + h1 + l4 + h2 + l5 + h3 + l6 + d3 + l7 + fh + l8 + si + l9) =~= (l1 + d1 + l2 + d2 + l3 + h1 + l4 + h2 + l5 + h3 + l6 + d3 + l7 + fh + l8 + si) + l9 + Seq::<u8>::empty());
    lemma_split3(s, 0, l1 + d1 + l2 + d2 + l3 + h1 + l4 + h2 + l5 + h3 + l6 + d3 + l7 + fh + l8 + si + l9, l1 + d1 + l2 + d2 + l3 + h1 + l4 + h2 + l5 + h3 + l6 + d3 + l7 + fh + l8 + si, l9, Seq::empty());
    assert((l1 + d1 + l2 + d2 + l3 + h1 + l4 + h2 + l5 + h3 + l6 + d3 + l7 + fh + l8 + si) =~= (l1 + d1 + l2 + d2 + l3 + h1 + l4 + h2 + l5 + h3 + l6 + d3 + l7 + fh + l8) + si + Seq::<u8>::empty());
    lemma_split3(s, 0, l1 + d1 + l2 + d2 + l3 + h1 + l4 + h2 + l5 + h3 + l6 + d3 + l7 + fh + l8 + si, l1 + d1 + l2 + d2 + l3 + h1 + l4 + h2 + l5 + h3 + l6 + d3 + l7 + fh + l8, si, Seq::empty());
    assert((l1 + d1 + l2 + d2 + l3 + h1 + l4 + h2 + l5 + h3 + l6 + d3 + l7 + fh + l8) =~= (l1 + d1 + l2 + d2 + l3 + h1 + l4 + h2 + l5 + h3 + l6 + d3 + l7 + fh) + l8 + Seq::<u8>::empty());
    lemma_split3(s, 0, l1 + d1 + l2 + d2 + l3 + h1 + l4 + h2 + l5 + h3 + l6 + d3 + l7 + fh + l8, l1 + d1 + l2 + d2 + l3 + h1 + l4 + h2 + l5 + h3 + l6 + d3 + l7 + fh, l8, Seq::empty());
    assert((l1 + d1 + l2 + d2 + l3 + h1 + l4 + h2 + l5 + h3 + l6 + d3 + l7 + fh) =~= (l1 + d1 + l2 + d2 + l3 + h1 + l4 + h2 + l5 + h3 + l6 + d3 + l7) + fh + Seq::<u8>::empty());
    lemma_split3(s, 0, l1 + d1 + l2 + d2 + l3 + h1 + l4 + h2 + l5 + h3 + l6 + d3 + l7 + fh, l1 + d1 + l2 + d2 + l3 + h1 + l4 + h2 + l5 + h3 + l6 + d3 + l7, fh, Seq::empty());
    assert((l1 + d1 + l2 + d2 + l3 + h1 + l4 + h2 + l5 + h3 + l6 + d3 + l7) =~= (l1 + d1 + l2 + d2 + l3 + h1 + l4 + h2 + l5 + h3 + l6 + d3) + l7 + Seq::<u8>::empty());
    lemma_split3(s, 0, l1 + d1 + l2 + d2 + l3 + h1 + l4 + h2 + l5 + h3 + l6 + d3 + l7, l1 + d1 + l2 + d2 + l3 + h1 + l4 + h2 + l5 + h3 + l6 + d3, l7, Seq::empty());
    assert((l1 + d1 + l2 + d2 + l3 + h1 + l4 + h2 + l5 + h3 + l6 + d3) =~= (l1 + d1 + l2 + d2 + l3 + h1 + l4 + h2 + l5 + h3 + l6) + d3 + Seq::<u8>::empty());
    lemma_split3(s, 0, l1 + d1 + l2 + d2 + l3 + h1 + l4 + h2 + l5 + h3 + l6 + d3, l1 + d1 + l2 + d2 + l3 + h1 + l4 + h2 + l5 + h3 + l6, d3, Seq::empty());
    assert((l1 + d1 + l2 + d2 + l3 + h1 + l4 + h2 + l5 + h3 + l6) =~= (l1 + d1 + l2 + d2 + l3 + h1 + l4 + h2 + l5 + h3) + l6 + Seq::<u8>::empty());
    lemma_split3(s, 0, l1 + d1 + l2 + d2 + l3 + h1 + l4 + h2 + l5 + h3 + l6, l1 + d1 + l2 + d2 + l3 + h1 + l4 + h2 + l5 + h3, l6, Seq::empty());
}

/// Where the front raw pieces of an encoded mint file stand.
#[verifier::rlimit(100)]
proof fn lemma_mint_file_pieces(s: Seq<u8>, t: MintTx)
    requires
        mint_file_at(s, t),
    ensures
        mf_q10(t) <= s.len(),
        s.subrange(0, mf_q1(t)) == lit_mint_file_open_spec(),
        s.subrange(mf_q1(t), mf_q2(t)) == u64_dec(t.prefix.token_id as nat),
        s.subrange(mf_q2(t), mf_q3(t)) == lit_amount_spec(),
        s.subrange(mf_q3(t), mf_q4(t)) == u64_dec(t.prefix.amount as nat),
        s.subrange(mf_q4(t), mf_q5(t)) == lit_view_key_spec(),
        s.subrange(mf_q5(t), mf_q6(t)) == hex_text_of(t.prefix.view_public_key@),
        s.subrange(mf_q6(t), mf_q7(t)) == lit_spend_key_spec(),
        s.subrange(mf_q7(t), mf_q8(t)) == hex_text_of(t.prefix.spend_public_key@),
        s.subrange(mf_q8(t), mf_q9(t)) == lit_nonce_after_str_spec(),
        s.subrange(mf_q9(t), mf_q10(t)) == hex_text_of(t.prefix.nonce@),
        s.subrange(mf_q10(t), mf_q11(t)) == lit_tombstone_spec(),
{
    let l1 = lit_mint_file_open_spec();
    let d1 = u64_dec(t.prefix.token_id as nat);
    let l2 = lit_amount_spec();
    let d2 = u64_dec(t.prefix.amount as nat);
    let l3 = lit_view_key_spec();
    let h1 = hex_text_of(t.prefix.view_public_key@);
    let l4 = lit_spend_key_spec();
    let h2 = hex_text_of(t.prefix.spend_public_key@);
    let l5 = lit_nonce_after_str_spec();
    let h3 = hex_text_of(t.prefix.nonce@);
    let l6 = lit_tombstone_spec();
    let d3 = u64_dec(t.prefix.tombstone_block as nat);
    let l7 = lit_fog_hint_spec();
    let fh = if t.prefix.e_fog_hint is Some { json_hex(t.prefix.e_fog_hint.unwrap()@) } else { lit_null_spec() };
    let l8 = lit_signature_spec();
    let si = json_sig_items(t.signature@);
    let l9 = lit_file_close_spec();
    lemma_mint_file_pieces_back(s, t);
    assert((l1 + d1 + l2 + d2 + l3 + h1 + l4 + h2 + l5 + h3) =~= (l1 + d1 + l2 + d2 + l3 + h1 + l4 + h2 + l5) + h3 + Seq::<u8>::empty());
    lemma_split3(s, 0, l1 + d1 + l2 + d2 + l3 + h1 + l4 + h2 + l5 + h3, l1 + d1 + l2 + d2 + l3 + h1 + l4 + h2 + l5, h3, Seq::empty());
    assert((l1 + d1 + l2 + d2 + l3 + h1 + l4 + h2 + l5) =~= (l1 + d1 + l2 + d2 + l3 + h1 + l4 + h2) + l5 + Seq::<u8>::empty());
    lemma_split3(s, 0, l1 + d1 + l2 + d2 + l3 + h1 + l4 + h2 + l5, l1 + d1 + l2 + d2 + l3 + h1 + l4 + h2, l5, Seq::empty());
    assert((l1 + d1 + l2 + d2 + l3 + h1 + l4 + h2) =~= (l1 + d1 + l2 + d2 + l3 + h1 + l4) + h2 + Seq::<u8>::empty());
    lemma_split3(s, 0, l1 + d1 + l2 + d2 + l3 + h1 + l4 + h2, l1 + d1 + l2 + d2 + l3 + h1 + l4, h2, Seq::empty());
    assert((l1 + d1 + l2 + d2 + l3 + h1 + l4) =~= (l1 + d1 + l2 + d2 + l3 + h1) + l4 + Seq::<u8>::empty());
    lemma_split3(s, 0, l1 + d1 + l2 + d2 + l3 + h1 + l4, l1 + d1 + l2 + d2 + l3 + h1, l4, Seq::empty());
    assert((l1 + d1 + l2 + d2 + l3 + h1) =~= (l1 + d1 + l2 + d2 + l3) + h1 + Seq::<u8>::empty());
    lemma_split3(s, 0, l1 + d1 + l2 + d2 + l3 + h1, l1 + d1 + l2 + d2 + l3, h1, Seq::empty());
    assert((l1 + d1 + l2 + d2 + l3) =~= (l1 + d1 + l2 + d2) + l3 + Seq::<u8>::empty());
    lemma_split3(s, 0, l1 + d1 + l2 + d2 + l3, l1 + d1 + l2 + d2, l3, Seq::empty());
    assert((l1 + d1 + l2 + d2) =~= (l1 + d1 + l2) + d2 + Seq::<u8>::empty());
    lemma_split3(s, 0, l1 + d1 + l2 + d2, l1 + d1 + l2, d2, Seq::empty());
    assert((l1 + d1 + l2) =~= (l1 + d1) + l2 + Seq::<u8>::empty());
    lemma_split3(s, 0, l1 + d1 + l2, l1 + d1, l2, Seq::empty());
    assert((l1 + d1) =~= (l1) + d1 + Seq::<u8>::empty());
    lemma_split3(s, 0, l1 + d1, l1, d1, Seq::empty());
    assert((l1) =~= (Seq::<u8>::empty()) + l1 + Seq::<u8>::empty());
    lemma_split3(s, 0, l1, Seq::<u8>::empty(), l1, Seq::empty());
}

/// The front half of the mint-file layout, through the nonce, with
/// the delimiters each piece needs.
#[verifier::rlimit(100)]
proof fn lemma_mint_file_layout_head(s: Seq<u8>, t: MintTx)
    requires
        mint_file_at(s, t),
    ensures
        mf_q10(t) <= s.len(),
        s.subrange(0, mf_q1(t)) == lit_mint_file_open_spec(),
        dec_at(s, mf_q1(t), t.prefix.token_id),
        s.subrange(mf_q2(t), mf_q3(t)) == lit_amount_spec(),
        dec_at(s, mf_q3(t), t.prefix.amount),
        s.subrange(mf_q4(t), mf_q5(t)) == lit_view_key_spec(),
        hex_at(s, mf_q5(t), t.prefix.view_public_key@),
        s.subrange(mf_q6(t), mf_q7(t)) == lit_spend_key_spec(),
        hex_at(s, mf_q7(t), t.prefix.spend_public_key@),
        s.subrange(mf_q8(t), mf_q9(t)) == lit_nonce_after_str_spec(),
        hex_at(s, mf_q9(t), t.prefix.nonce@),
        s.subrange(mf_q10(t), mf_q11(t)) == lit_tombstone_spec(),
{
    lemma_mint_file_pieces(s, t);
    lemma_u64_dec_properties(t.prefix.token_id as nat);
    lemma_u64_dec_properties(t.prefix.amount as nat);
    assert(s.subrange(mf_q2(t), mf_q3(t))[0] == s[mf_q2(t)]);
    assert(lit_amount_spec()[0] == 44);
    assert(s.subrange(mf_q4(t), mf_q5(t))[0] == s[mf_q4(t)]);
    assert(lit_view_key_spec()[0] == 44);
    assert(s.subrange(mf_q6(t), mf_q7(t))[0] == s[mf_q6(t)]);
    assert(lit_spend_key_spec()[0] == 34);
    assert(s.subrange(mf_q8(t), mf_q9(t))[0] == s[mf_q8(t)]);
    assert(lit_nonce_after_str_spec()[0] == 34);
    assert(s.subrange(mf_q10(t), mf_q11(t))[0] == s[mf_q10(t)]);
    assert(lit_tombstone_spec()[0] == 34);
    assert(dec_at(s, mf_q1(t), t.prefix.token_id));
    assert(dec_at(s, mf_q3(t), t.prefix.amount));
    assert(hex_at(s, mf_q5(t), t.prefix.view_public_key@));
    assert(hex_at(s, mf_q7(t), t.prefix.spend_public_key@));
    assert(hex_at(s, mf_q9(t), t.prefix.nonce@));
}

/// The back half of the mint-file layout, from the tombstone on,
/// with the delimiters each piece needs.
#[verifier::rlimit(100)]
proof fn lemma_mint_file_layout_tail(s: Seq<u8>, t: MintTx)
    requires
        mint_file_at(s, t),
    ensures
        mf_q17(t) == s.len(),
        mf_q10(t) <= s.len(),
        s.subrange(mf_q10(t), mf_q11(t)) == lit_tombstone_spec(),
        dec_at(s, mf_q11(t), t.prefix.tombstone_block),
        s.subrange(mf_q12(t), mf_q13(t)) == lit_fog_hint_spec(),
        t.prefix.e_fog_hint is Some ==> quoted_hex_at(s, mf_q13(t), t.prefix.e_fog_hint.unwrap()@)
            && s[mf_q13(t)] == 34,
        t.prefix.e_fog_hint is None ==> s.subrange(mf_q13(t), mf_q14(t)) == lit_null_spec(),
        s.subrange(mf_q14(t), mf_q15(t)) == lit_signature_spec(),
        sig_items_at(s, mf_q15(t), t.signature@),
        s.subrange(mf_q16(t), mf_q17(t)) == lit_file_close_spec(),
{
    lemma_mint_file_pieces_back(s, t);
    lemma_u64_dec_properties(t.prefix.tombstone_block as nat);
    assert(s.subrange(mf_q12(t), mf_q13(t))[0] == s[mf_q12(t)]);
    assert(lit_fog_hint_spec()[0] == 44);
    assert(s.subrange(mf_q14(t), mf_q15(t))[0] == s[mf_q14(t)]);
    assert(lit_signature_spec()[0] == 125);
    assert(s.subrange(mf_q16(t), mf_q17(t))[0] == s[mf_q16(t)]);
    assert(lit_file_close_spec()[0] == 93);
    assert(dec_at(s, mf_q11(t), t.prefix.tombstone_block));
    if t.prefix.e_fog_hint is Some {
        let fhseg = s.subrange(mf_q13(t), mf_q14(t));
        assert(fhseg[0] == s[mf_q13(t)]);
        assert(json_hex(t.prefix.e_fog_hint.unwrap()@)[0] == 34);
        assert(quoted_hex_at(s, mf_q13(t), t.prefix.e_fog_hint.unwrap()@));
    }
    assert(sig_items_at(s, mf_q15(t), t.signature@));
}

/// Parses the front of a mint file, through the nonce: strict, and
/// succeeds on the front of every canonical encoding of a well-formed
/// record.
#[verifier::rlimit(100)]
fn parse_mint_file_head(s: &[u8]) -> (r: Option<(u64, u64, Vec<u8>, Vec<u8>, Vec<u8>, usize)>)
    ensures
        r is Some ==> ({
            let (token_id, amount, view, spend, nonce, end) = r.unwrap();
            &&& end <= s@.len()
            &&& s@.subrange(0, end as int) == lit_mint_file_open_spec() + u64_dec(token_id as nat)
                + lit_amount_spec() + u64_dec(amount as nat) + lit_view_key_spec() + hex_text_of(
                view@,
            ) + lit_spend_key_spec() + hex_text_of(spend@) + lit_nonce_after_str_spec()
                + hex_text_of(nonce@)
            &&& view@.len() == 32
            &&& spend@.len() == 32
            &&& nonce@.len() == NONCE_LENGTH
        }),
        forall|t: MintTx|
            #[trigger] mint_file_at(s@, t) ==> r is Some && r.unwrap().5 == mf_q10(t),
{
    let t_open = lit_mint_file_open();
    proof {
        assert forall|t: MintTx| #[trigger] mint_file_at(s@, t) implies t_open@.len() <= s@.len() && s@.subrange(0, t_open@.len() as int) == t_open@ by {
            lemma_mint_file_layout_head(s@, t);
        }
    }
    let p1 = match expect(s, 0, &t_open) {
        Some(p) => p,
        None => {
            return None;
        },
    };
    proof {
        assert forall|t: MintTx| #[trigger] mint_file_at(s@, t) implies p1 == mf_q1(t) && dec_at(s@, p1 as int, t.prefix.token_id) by {
            lemma_mint_file_layout_head(s@, t);
        }
    }
    let (token_id, p2) = match parse_dec(s, p1) {
        Some(x) => x,
        None => {
            return None;
        },
    };
    let t_amount = lit_amount();
    proof {
        assert forall|t: MintTx| #[trigger] mint_file_at(s@, t) implies p2 == mf_q2(t) && p2 + t_amount@.len() <= s@.len() && s@.subrange(p2 as int, p2 + t_amount@.len()) == t_amount@ by {
            lemma_mint_file_layout_head(s@, t);
        }
    }
    let p3 = match expect(s, p2, &t_amount) {
        Some(p) => p,
        None => {
            return None;
        },
    };
    proof {
        assert forall|t: MintTx| #[trigger] mint_file_at(s@, t) implies p3 == mf_q3(t) && dec_at(s@, p3 as int, t.prefix.amount) by {
            lemma_mint_file_layout_head(s@, t);
        }
    }
    let (amount, p4) = match parse_dec(s, p3) {
        Some(x) => x,
        None => {
            return None;
        },
    };
    let t_view = lit_view_key();
    proof {
        assert forall|t: MintTx| #[trigger] mint_file_at(s@, t) implies p4 == mf_q4(t) && p4 + t_view@.len() <= s@.len() && s@.subrange(p4 as int, p4 + t_view@.len()) == t_view@ by {
            lemma_mint_file_layout_head(s@, t);
        }
    }
    let p5 = match expect(s, p4, &t_view) {
        Some(p) => p,
        None => {
            return None;
        },
    };
    proof {
        assert forall|t: MintTx| #[trigger] mint_file_at(s@, t) implies p5 == mf_q5(t) && hex_at(s@, p5 as int, t.prefix.view_public_key@) by {
            lemma_mint_file_layout_head(s@, t);
        }
    }
    let (view_public_key, p6) = match parse_hex_run(s, p5) {
        Some(x) => x,
        None => {
            return None;
        },
    };
    let t_spend = lit_spend_key();
    proof {
        assert forall|t: MintTx| #[trigger] mint_file_at(s@, t) implies p6 == mf_q6(t) && view_public_key@ == t.prefix.view_public_key@ && p6 + t_spend@.len() <= s@.len() && s@.subrange(p6 as int, p6 + t_spend@.len()) == t_spend@ by {
            lemma_mint_file_layout_head(s@, t);
        }
    }
    if view_public_key.len() != 32 {
        return None;
    }
    let p7 = match expect(s, p6, &t_spend) {
        Some(p) => p,
        None => {
            return None;
        },
    };
    proof {
        assert forall|t: MintTx| #[trigger] mint_file_at(s@, t) implies p7 == mf_q7(t) && hex_at(s@, p7 as int, t.prefix.spend_public_key@) by {
            lemma_mint_file_layout_head(s@, t);
        }
    }
    let (spend_public_key, p8) = match parse_hex_run(s, p7) {
        Some(x) => x,
        None => {
            return None;
        },
    };
    let t_nonce = lit_nonce_after_str();
    proof {
        assert forall|t: MintTx| #[trigger] mint_file_at(s@, t) implies p8 == mf_q8(t) && spend_public_key@ == t.prefix.spend_public_key@ && p8 + t_nonce@.len() <= s@.len() && s@.subrange(p8 as int, p8 + t_nonce@.len()) == t_nonce@ by {
            lemma_mint_file_layout_head(s@, t);
        }
    }
    if spend_public_key.len() != 32 {
        return None;
    }
    let p9 = match expect(s, p8, &t_nonce) {
        Some(p) => p,
        None => {
            return None;
        },
    };
    proof {
        assert forall|t: MintTx| #[trigger] mint_file_at(s@, t) implies p9 == mf_q9(t) && hex_at(s@, p9 as int, t.prefix.nonce@) by {
            lemma_mint_file_layout_head(s@, t);
        }
    }
    let (nonce, p10) = match parse_hex_run(s, p9) {
        Some(x) => x,
        None => {
            return None;
        },
    };
    proof {
        assert forall|t: MintTx| #[trigger] mint_file_at(s@, t) implies p10 == mf_q10(t) && nonce@ == t.prefix.nonce@ by {
            lemma_mint_file_layout_head(s@, t);
        }
    }
    if nonce.len() != NONCE_LENGTH {
        return None;
    }
    proof {
        assert(s@.subrange(0, p10 as int) =~= s@.subrange(0, p1 as int) + s@.subrange(
            p1 as int,
            p2 as int,
        ) + s@.subrange(p2 as int, p3 as int) + s@.subrange(p3 as int, p4 as int) + s@.subrange(
            p4 as int,
            p5 as int,
        ) + s@.subrange(p5 as int, p6 as int) + s@.subrange(p6 as int, p7 as int) + s@.subrange(
            p7 as int,
            p8 as int,
        ) + s@.subrange(p8 as int, p9 as int) + s@.subrange(p9 as int, p10 as int));
    }
    Some((token_id, amount, view_public_key, spend_public_key, nonce, p10))
}

/// Parses a complete mint file: strict, and succeeds on every
/// canonical encoding of a well-formed record.
#[verifier::rlimit(100)]
fn parse_mint_tx_json(s: &[u8]) -> (r: Option<MintTx>)
    ensures
        r is Some ==> s@ == mint_tx_json(r.unwrap()) && r.unwrap().wf(),
        forall|t: MintTx| #[trigger] mint_file_at(s@, t) ==> r is Some,
{
    let (token_id, amount, view_public_key, spend_public_key, nonce, p10) =
        match parse_mint_file_head(s) {
        Some(x) => x,
        None => {
            return None;
        },
    };
    let t_tomb = lit_tombstone();
    proof {
        assert forall|t: MintTx| #[trigger] mint_file_at(s@, t) implies p10 == mf_q10(t) && p10 + t_tomb@.len() <= s@.len() && s@.subrange(p10 as int, p10 + t_tomb@.len()) == t_tomb@ by {
            lemma_mint_file_layout_tail(s@, t);
        }
    }
    let p11 = match expect(s, p10, &t_tomb) {
        Some(p) => p,
        None => {
            return None;
        },
    };
    proof {
        assert forall|t: MintTx| #[trigger] mint_file_at(s@, t) implies p11 == mf_q11(t) && dec_at(s@, p11 as int, t.prefix.tombstone_block) by {
            lemma_mint_file_layout_tail(s@, t);
        }
    }
    let (tombstone_block, p12) = match parse_dec(s, p11) {
        Some(x) => x,
        None => {
            return None;
        },
    };
    let t_fog = lit_fog_hint();
    proof {
        assert forall|t: MintTx| #[trigger] mint_file_at(s@, t) implies p12 == mf_q12(t) && p12 + t_fog@.len() <= s@.len() && s@.subrange(p12 as int, p12 + t_fog@.len()) == t_fog@ by {
            lemma_mint_file_layout_tail(s@, t);
        }
    }
    let p13 = match expect(s, p12, &t_fog) {
        Some(p) => p,
        None => {
            return None;
        },
    };
    proof {
        assert forall|t: MintTx| #[trigger] mint_file_at(s@, t) implies p13 == mf_q13(t) && (t.prefix.e_fog_hint is Some ==> quoted_hex_at(s@, p13 as int, t.prefix.e_fog_hint.unwrap()@) && s@[p13 as int] == 34) && (t.prefix.e_fog_hint is None ==> p13 + lit_null_spec().len() <= s@.len() && s@.subrange(p13 as int, p13 + lit_null_spec().len()) == lit_null_spec()) by {
            lemma_mint_file_layout_tail(s@, t);
        }
    }
    let t_null = lit_null();
    let (e_fog_hint, p14): (Option<Vec<u8>>, usize) = match expect(s, p13, &t_null) {
        Some(p) => (None, p),
        None => {
            match parse_quoted_hex(s, p13) {
                Some((h, p)) => (Some(h), p),
                None => {
                    return None;
                },
            }
        },
    };
    let t_sig = lit_signature();
    proof {
        assert forall|t: MintTx| #[trigger] mint_file_at(s@, t) implies p14 == mf_q14(t) && (t.prefix.e_fog_hint is Some <==> e_fog_hint is Some) && (t.prefix.e_fog_hint is Some ==> e_fog_hint.unwrap()@ == t.prefix.e_fog_hint.unwrap()@) && p14 + t_sig@.len() <= s@.len() && s@.subrange(p14 as int, p14 + t_sig@.len()) == t_sig@ by {
            lemma_mint_file_layout_tail(s@, t);
        }
    }
    let p15 = match expect(s, p14, &t_sig) {
        Some(p) => p,
        None => {
            return None;
        },
    };
    proof {
        assert forall|t: MintTx| #[trigger] mint_file_at(s@, t) implies p15 == mf_q15(t) && sig_items_at(s@, p15 as int, t.signature@) by {
            lemma_mint_file_layout_tail(s@, t);
        }
    }
    let (signatures, p16) = match parse_sig_items(s, p15) {
        Some(x) => x,
        None => {
            return None;
        },
    };
    let t_close = lit_file_close();
    proof {
        assert forall|t: MintTx| #[trigger] mint_file_at(s@, t) implies p16 == mf_q16(t) && p16 + t_close@.len() <= s@.len() && s@.subrange(p16 as int, p16 + t_close@.len()) == t_close@ by {
            lemma_mint_file_layout_tail(s@, t);
        }
    }
    let p17 = match expect(s, p16, &t_close) {
        Some(p) => p,
        None => {
            return None;
        },
    };
    proof {
        assert forall|t: MintTx| #[trigger] mint_file_at(s@, t) implies p17 == s@.len() by {
            lemma_mint_file_layout_tail(s@, t);
        }
    }
    if p17 != s.len() {
        return None;
    }
    let tx = MintTx {
        prefix: MintTxPrefix {
            token_id,
            amount,
            view_public_key,
            spend_public_key,
            nonce,
            tombstone_block,
            e_fog_hint,
        },
        signature: MultiSig { signatures },
    };
    proof {
        assert(s@ =~= s@.subrange(0, p10 as int) + s@.subrange(p10 as int, p11 as int)
            + s@.subrange(p11 as int, p12 as int) + s@.subrange(p12 as int, p13 as int)
            + s@.subrange(p13 as int, p14 as int) + s@.subrange(p14 as int, p15 as int)
            + s@.subrange(p15 as int, p16 as int) + s@.subrange(p16 as int, p17 as int));
        assert(s@ =~= mint_tx_json(tx));
    }
    Some(tx)
}

/// Parses the JSON text of a transaction file, as read from its
/// path. Strict: whatever is accepted is the canonical encoding of
/// the returned record, so a file that loads at all is in canonical
/// form and well formed.
pub fn load_tx_file_from_path(file_contents: &[u8]) -> (r: Result<TxFile, Error>)
    ensures
        r is Ok ==> tx_file_json(r.unwrap()) == file_contents@ && r.unwrap().wf(),
        r is Err ==> r.unwrap_err() == Error::TxFileFormat,
        r is Err ==> (forall|t: TxFile| t.wf() ==> #[trigger] tx_file_json(t) != file_contents@),
{
    match parse_mint_config_tx_json(file_contents) {
        Some(tx) => Ok(TxFile::MintConfigTx(tx)),
        None => {
            match parse_mint_tx_json(file_contents) {
                Some(tx) => Ok(TxFile::MintTx(tx)),
                None => {
                    proof {
                        assert forall|t: TxFile| t.wf() implies #[trigger] tx_file_json(t)
                            != file_contents@ by {
                            match t {
                                TxFile::MintConfigTx(c) => {
                                    if tx_file_json(t) == file_contents@ {
                                        assert(config_file_at(file_contents@, c));
                                    }
                                },
                                TxFile::MintTx(m) => {
                                    if tx_file_json(t) == file_contents@ {
                                        assert(mint_file_at(file_contents@, m));
                                    }
                                },
                            }
                        }
                    }
                    Err(Error::TxFileFormat)
                },
            }
        },
    }
}

/// Writes the lower-case hex text of `b`.
fn push_hex(out: &mut Vec<u8>, b: &Vec<u8>)
    ensures
        final(out)@ == old(out)@ + hex_text_of(b@),
{
    let mut i: usize = 0;
    while i < b.len()
        invariant
            i <= b@.len(),
            out@ == old(out)@ + hex_text_of(b@.take(i as int)),
        decreases b@.len() - i,
    {
        let byte = b[i];
        let hi = byte / 16;
        let lo = byte % 16;
        out.push(if hi < 10 { hi + 48 } else { hi + 87 });
        out.push(if lo < 10 { lo + 48 } else { lo + 87 });
        proof {
            assert(out@ =~= old(out)@ + hex_text_of(b@.take(i + 1)));
        }
        i = i + 1;
    }
    proof {
        assert(b@.take(b@.len() as int) =~= b@);
    }
}

/// Writes a quoted lower-case hex string.
fn push_json_hex(out: &mut Vec<u8>, b: &Vec<u8>)
    ensures
        final(out)@ == old(out)@ + json_hex(b@),
{
    out.push(34);
    push_hex(out, b);
    out.push(34);
    proof {
        assert(out@ =~= old(out)@ + json_hex(b@));
    }
}

/// Writes the signature list items.
fn push_sig_items(out: &mut Vec<u8>, v: &Vec<Ed25519Signature>)
    ensures
        final(out)@ == old(out)@ + json_sig_items(v@),
{
    let mut i: usize = 0;
    proof {
        assert(out@ =~= old(out)@ + json_sig_items(v@.take(0)));
    }
    while i < v.len()
        invariant
            i <= v@.len(),
            out@ == old(out)@ + json_sig_items(v@.take(i as int)),
        decreases v@.len() - i,
    {
        if i > 0 {
            out.push(44);
        }
        push_json_hex(out, &v[i].bytes);
        proof {
            assert(v@.take(i + 1) =~= v@.take(i as int).push(v@[i as int]));
            lemma_json_sig_items_push(v@.take(i as int), v@[i as int]);
            assert(out@ =~= old(out)@ + json_sig_items(v@.take(i + 1)));
        }
        i = i + 1;
    }
    proof {
        assert(v@.take(v@.len() as int) =~= v@);
    }
}

/// Writes the key list items.
fn push_key_items(out: &mut Vec<u8>, v: &Vec<Ed25519Public>)
    ensures
        final(out)@ == old(out)@ + json_key_items(v@),
{
    let mut i: usize = 0;
    proof {
        assert(out@ =~= old(out)@ + json_key_items(v@.take(0)));
    }
    while i < v.len()
        invariant
            i <= v@.len(),
            out@ == old(out)@ + json_key_items(v@.take(i as int)),
        decreases v@.len() - i,
    {
        if i > 0 {
            out.push(44);
        }
        push_json_hex(out, &v[i].bytes);
        proof {
            assert(v@.take(i + 1) =~= v@.take(i as int).push(v@[i as int]));
            lemma_json_key_items_push(v@.take(i as int), v@[i as int]);
            assert(out@ =~= old(out)@ + json_key_items(v@.take(i + 1)));
        }
        i = i + 1;
    }
    proof {
        assert(v@.take(v@.len() as int) =~= v@);
    }
}

/// Writes one configuration entry.
fn push_config_entry(out: &mut Vec<u8>, c: &MintConfig)
    ensures
        final(out)@ == old(out)@ + json_config_entry(*c),
{
    let mut t = lit_entry_open();
    out.append(&mut t);
    push_u64_dec(out, c.token_id);
    let mut t = lit_mint_limit();
    out.append(&mut t);
    push_u64_dec(out, c.mint_limit);
    let mut t = lit_signers();
    out.append(&mut t);
    push_key_items(out, &c.signer_set.signers);
    out.push(93);
    let mut t = lit_threshold();
    out.append(&mut t);
    push_u64_dec(out, c.signer_set.threshold as u64);
    out.push(125);
    proof {
        assert(out@ =~= old(out)@ + json_config_entry(*c));
    }
}

/// Writes the configuration list entries.
fn push_config_entries(out: &mut Vec<u8>, v: &Vec<MintConfig>)
    ensures
        final(out)@ == old(out)@ + json_config_entries(v@),
{
    let mut i: usize = 0;
    proof {
        assert(out@ =~= old(out)@ + json_config_entries(v@.take(0)));
    }
    while i < v.len()
        invariant
            i <= v@.len(),
            out@ == old(out)@ + json_config_entries(v@.take(i as int)),
        decreases v@.len() - i,
    {
        if i > 0 {
            out.push(44);
        }
        push_config_entry(out, &v[i]);
        proof {
            assert(v@.take(i + 1) =~= v@.take(i as int).push(v@[i as int]));
            lemma_json_config_entries_push(v@.take(i as int), v@[i as int]);
            assert(out@ =~= old(out)@ + json_config_entries(v@.take(i + 1)));
        }
        i = i + 1;
    }
    proof {
        assert(v@.take(v@.len() as int) =~= v@);
    }
}

/// Serializes a transaction file to its canonical JSON form:
/// byte-for-byte deterministic for identical records.
pub fn tx_file_to_json(t: &TxFile) -> (r: Vec<u8>)
    ensures
        r@ == tx_file_json(*t),
{
    let mut out: Vec<u8> = Vec::new();
    match t {
        TxFile::MintConfigTx(tx) => {
            let mut lit = lit_config_file_open();
            out.append(&mut lit);
            push_u64_dec(&mut out, tx.prefix.token_id);
            let mut lit = lit_configs();
            out.append(&mut lit);
            push_config_entries(&mut out, &tx.prefix.configs);
            let mut lit = lit_nonce_after_list();
            out.append(&mut lit);
            push_hex(&mut out, &tx.prefix.nonce);
            let mut lit = lit_tombstone();
            out.append(&mut lit);
            push_u64_dec(&mut out, tx.prefix.tombstone_block);
            let mut lit = lit_total_mint_limit();
            out.append(&mut lit);
            push_u64_dec(&mut out, tx.prefix.total_mint_limit);
            let mut lit = lit_signature();
            out.append(&mut lit);
            push_sig_items(&mut out, &tx.signature.signatures);
            let mut lit = lit_file_close();
            out.append(&mut lit);
            proof {
                assert(out@ =~= tx_file_json(*t));
            }
        },
        TxFile::MintTx(tx) => {
            let mut lit = lit_mint_file_open();
            out.append(&mut lit);
            push_u64_dec(&mut out, tx.prefix.token_id);
            let mut lit = lit_amount();
            out.append(&mut lit);
            push_u64_dec(&mut out, tx.prefix.amount);
            let mut lit = lit_view_key();
            out.append(&mut lit);
            push_hex(&mut out, &tx.prefix.view_public_key);
            let mut lit = lit_spend_key();
            out.append(&mut lit);
            push_hex(&mut out, &tx.prefix.spend_public_key);
            let mut lit = lit_nonce_after_str();
            out.append(&mut lit);
            push_hex(&mut out, &tx.prefix.nonce);
            let mut lit = lit_tombstone();
            out.append(&mut lit);
            push_u64_dec(&mut out, tx.prefix.tombstone_block);
            let mut lit = lit_fog_hint();
            out.append(&mut lit);
            match &tx.prefix.e_fog_hint {
                Some(hint) => {
                    push_json_hex(&mut out, hint);
                },
                None => {
                    let mut lit = lit_null();
                    out.append(&mut lit);
                },
            }
            let mut lit = lit_signature();
            out.append(&mut lit);
            push_sig_items(&mut out, &tx.signature.signatures);
            let mut lit = lit_file_close();
            out.append(&mut lit);
            proof {
                assert(out@ =~= tx_file_json(*t));
            }
        },
    }
    out
}

} // verus!
