//! Parsing of operator-supplied configuration text: the compact
//! `<mint limit>:<threshold>:<keyfile>[:<keyfile>...]` form, PEM
//! key files, and signature arguments given as a PEM file or a hex
//! string.

use vstd::prelude::*;
use crate::bytes::{all_dec_digits, copy_range, dec_val, parse_u64_dec};
use crate::crypto::{pem_body_of, pem_decode, pem_parses};
use crate::errors::Error;
use crate::hexcode::{all_hex_digits, hex_bytes_of, hex_decode};
use crate::keys::{
    Ed25519Signature, MintPrivateKey, ed25519_private_from_der, is_private_key_der_header,
    ED25519_SIGNATURE_LEN,
};

verus! {

/// Position of the first colon in `s`, or `s.len()` if there is none.
pub open spec fn first_colon(s: Seq<u8>) -> nat
    decreases s.len(),
{
    if s.len() == 0 {
        0
    } else if s[0] == 58 {
        0
    } else {
        1 + first_colon(s.drop_first())
    }
}

/// The colon-separated parts of `s`, in order. Splitting is total: an
/// empty string has one empty part, and a trailing colon yields a
/// trailing empty part.
pub open spec fn split_colon(s: Seq<u8>) -> Seq<Seq<u8>>
    decreases s.len(),
{
    let i = first_colon(s) as int;
    if i >= s.len() {
        seq![s]
    } else {
        seq![s.take(i)] + split_colon(s.skip(i + 1))
    }
}

/// `first_colon` is the unique position bounding a colon-free run.
proof fn lemma_first_colon_characterize(t: Seq<u8>, m: int)
    requires
        0 <= m <= t.len(),
        forall|k: int| 0 <= k < m ==> t[k] != 58,
        m < t.len() ==> t[m] == 58,
    ensures
        first_colon(t) == m,
    decreases m,
{
    if m == 0 {
    } else {
        assert(t[0] != 58);
        let d = t.drop_first();
        assert forall|k: int| 0 <= k < m - 1 implies d[k] != 58 by {
            assert(d[k] == t[k + 1]);
        }
        assert(m - 1 < d.len() ==> d[m - 1] == t[m]);
        lemma_first_colon_characterize(d, m - 1);
    }
}

/// Next colon at or after `from`, or the end of the string.
fn next_colon(s: &[u8], from: usize) -> (j: usize)
    requires
        from <= s@.len(),
    ensures
        from <= j <= s@.len(),
        forall|k: int| from <= k < j ==> s@[k] != 58,
        j < s@.len() ==> s@[j as int] == 58,
{
    let mut j = from;
    while j < s.len()
        invariant
            from <= j <= s@.len(),
            forall|k: int| from <= k < j ==> s@[k] != 58,
        decreases s@.len() - j,
    {
        if s[j] == 58 {
            return j;
        }
        j = j + 1;
    }
    j
}

/// Splits the tail of `s` starting at `i` on colons.
fn split_from(s: &[u8], i: usize) -> (r: Vec<Vec<u8>>)
    requires
        i <= s@.len(),
    ensures
        r@.len() == split_colon(s@.skip(i as int)).len(),
        forall|k: int| 0 <= k < r@.len() ==> (#[trigger] r@[k])@ == split_colon(s@.skip(i as int))[k],
    decreases s@.len() - i,
{
    let ghost tail = s@.skip(i as int);
    let j = next_colon(s, i);
    proof {
        assert forall|k: int| 0 <= k < j - i implies tail[k] != 58 by {
            assert(tail[k] == s@[k + i]);
        }
        assert(j - i < tail.len() ==> tail[j - i] == s@[j as int]);
        lemma_first_colon_characterize(tail, j - i);
    }
    let part = copy_range(s, i, j);
    if j == s.len() {
        proof {
            assert(split_colon(tail) == seq![tail]);
            assert(part@ =~= tail);
        }
        let mut out: Vec<Vec<u8>> = Vec::new();
        out.push(part);
        out
    } else {
        let mut rest = split_from(s, j + 1);
        proof {
            assert(split_colon(tail) == seq![tail.take(j - i)] + split_colon(tail.skip(j - i + 1)));
            assert(part@ =~= tail.take(j - i));
            assert(tail.skip(j - i + 1) =~= s@.skip(j + 1));
        }
        rest.insert(0, part);
        proof {
            let whole = split_colon(tail);
            assert forall|k: int| 0 <= k < rest@.len() implies (#[trigger] rest@[k])@ == whole[k] by {
                if k > 0 {
                    assert(rest@[k] == rest@.subrange(1, rest@.len() as int)[k - 1]);
                    assert(whole[k] == split_colon(s@.skip(j + 1))[k - 1]);
                }
            }
        }
        rest
    }
}

/// Splits `s` on colons: the parts join back to `s` and none holds a
/// colon.
pub fn split_on_colon(s: &[u8]) -> (r: Vec<Vec<u8>>)
    ensures
        r@.len() == split_colon(s@).len(),
        forall|k: int| 0 <= k < r@.len() ==> (#[trigger] r@[k])@ == split_colon(s@)[k],
{
    let r = split_from(s, 0);
    proof {
        assert(s@.skip(0) =~= s@);
    }
    r
}

/// The text is a decimal `u64`: non-empty digits whose value fits.
pub open spec fn is_u64_text(p: Seq<u8>) -> bool {
    p.len() > 0 && all_dec_digits(p) && dec_val(p) <= u64::MAX
}

/// The text is a decimal `u32`: non-empty digits whose value fits.
pub open spec fn is_u32_text(p: Seq<u8>) -> bool {
    p.len() > 0 && all_dec_digits(p) && dec_val(p) <= u32::MAX
}

/// The parsed parts of one mint-configuration text: the mint limit,
/// the signing threshold, and the signer key file names whose keys
/// the caller loads before building the signer policy.
#[derive(Debug)]
pub struct MintConfigParts {
    pub mint_limit: u64,
    pub threshold: u32,
    pub key_files: Vec<Vec<u8>>,
}

/// Parses a mint-configuration text of the form
/// `<mint limit>:<signing threshold>:<keyfile>[:<keyfile>...]`.
/// Succeeds exactly when there are at least three parts and the first
/// two are decimal numbers in range; the remaining parts are returned
/// as the key file names, in order.
pub fn parse_mint_config_parts(src: &[u8]) -> (r: Result<MintConfigParts, Error>)
    ensures
        ({
            let parts = split_colon(src@);
            &&& (r is Ok <==> parts.len() >= 3 && is_u64_text(parts[0]) && is_u32_text(parts[1]))
            &&& (r is Ok ==> r.unwrap().mint_limit == dec_val(parts[0])
                && r.unwrap().threshold == dec_val(parts[1]) && r.unwrap().key_files@.len()
                == parts.len() - 2 && (forall|k: int|
                0 <= k < parts.len() - 2 ==> (#[trigger] r.unwrap().key_files@[k])@ == parts[k + 2]))
            &&& (parts.len() < 3 ==> r == Err::<MintConfigParts, Error>(Error::MintConfigFormat))
            &&& (parts.len() >= 3 && !is_u64_text(parts[0]) ==> r == Err::<MintConfigParts, Error>(
                Error::BadMintLimit,
            ))
            &&& (parts.len() >= 3 && is_u64_text(parts[0]) && !is_u32_text(parts[1]) ==> r == Err::<
                MintConfigParts,
                Error,
            >(Error::BadThreshold))
        }),
{
    let mut parts = split_on_colon(src);
    if parts.len() < 3 {
        return Err(Error::MintConfigFormat);
    }
    let mint_limit = match parse_u64_dec(parts[0].as_slice()) {
        Some(v) => v,
        None => {
            return Err(Error::BadMintLimit);
        },
    };
    let threshold_wide = match parse_u64_dec(parts[1].as_slice()) {
        Some(v) => v,
        None => {
            return Err(Error::BadThreshold);
        },
    };
    if threshold_wide > u32::MAX as u64 {
        return Err(Error::BadThreshold);
    }
    let threshold = threshold_wide as u32;
    let ghost all_parts = split_colon(src@);
    let mut key_files: Vec<Vec<u8>> = Vec::new();
    let mut i: usize = 2;
    while i < parts.len()
        invariant
            parts@.len() == all_parts.len(),
            forall|k: int| 0 <= k < parts@.len() ==> (#[trigger] parts@[k])@ == all_parts[k],
            2 <= i <= parts@.len(),
            key_files@.len() == i - 2,
            forall|k: int| 0 <= k < i - 2 ==> (#[trigger] key_files@[k])@ == all_parts[k + 2],
        decreases parts@.len() - i,
    {
        let name = parts[i].clone();
        proof {
            assert(name@ =~= parts@[i as int]@);
        }
        key_files.push(name);
        i = i + 1;
    }
    Ok(MintConfigParts { mint_limit, threshold, key_files })
}

/// Parses an Ed25519 private key from the contents of a PEM key
/// file. Succeeds exactly when the contents hold a well-formed PEM
/// block whose body is the fixed PKCS#8 document carrying the 32 seed
/// bytes; the PEM container comes from the trusted wrapper and the
/// DER layer is verified exactly.
pub fn load_key_from_pem(file_contents: &Vec<u8>) -> (r: Result<MintPrivateKey, Error>)
    ensures
        r is Ok <==> pem_parses(file_contents@) && is_private_key_der_header(pem_body_of(
            file_contents@,
        )),
        r is Ok ==> r.unwrap().wf() && r.unwrap()@ == pem_body_of(file_contents@).subrange(16, 48),
        !pem_parses(file_contents@) ==> r == Err::<MintPrivateKey, Error>(Error::PemParse),
        pem_parses(file_contents@) && !is_private_key_der_header(pem_body_of(file_contents@)) ==> r
            == Err::<MintPrivateKey, Error>(Error::DerParse),
{
    let der = match pem_decode(file_contents) {
        Ok(d) => d,
        Err(_) => {
            return Err(Error::PemParse);
        },
    };
    ed25519_private_from_der(der.as_slice())
}

/// Parses a signature argument: the contents of a PEM file if the
/// argument named an existing file, else a hex string of exactly
/// twice the signature's byte size; anything else is rejected. A file
/// is accepted exactly when it holds a well-formed PEM block whose
/// body has the signature's byte size.
pub fn load_or_parse_ed25519_signature(
    file_contents: Option<Vec<u8>>,
    filename_or_hex_signature: &[u8],
) -> (r: Result<Ed25519Signature, Error>)
    ensures
        file_contents is Some ==> (r is Ok <==> pem_parses(file_contents.unwrap()@)
            && pem_body_of(file_contents.unwrap()@).len() == ED25519_SIGNATURE_LEN),
        file_contents is Some ==> (r is Ok ==> r.unwrap().wf() && r.unwrap()@ == pem_body_of(
            file_contents.unwrap()@,
        )),
        file_contents is Some ==> (!pem_parses(file_contents.unwrap()@) ==> r == Err::<
            Ed25519Signature,
            Error,
        >(Error::PemParse)),
        file_contents is Some ==> (pem_parses(file_contents.unwrap()@) && pem_body_of(
            file_contents.unwrap()@,
        ).len() != ED25519_SIGNATURE_LEN ==> r == Err::<Ed25519Signature, Error>(
            Error::BadLength,
        )),
        file_contents is None && filename_or_hex_signature@.len() == 2 * ED25519_SIGNATURE_LEN ==> (
        (r is Ok <==> all_hex_digits(filename_or_hex_signature@)) && (r is Ok ==> r.unwrap().wf()
            && r.unwrap()@ == hex_bytes_of(filename_or_hex_signature@)) && (r is Err
            ==> r.unwrap_err() == Error::HexDecode)),
        file_contents is None && filename_or_hex_signature@.len() != 2 * ED25519_SIGNATURE_LEN ==> r
            == Err::<Ed25519Signature, Error>(Error::SignatureFormat),
{
    match file_contents {
        Some(bytes) => {
            let contents = match pem_decode(&bytes) {
                Ok(d) => d,
                Err(_) => {
                    return Err(Error::PemParse);
                },
            };
            if contents.len() != ED25519_SIGNATURE_LEN {
                return Err(Error::BadLength);
            }
            Ok(Ed25519Signature { bytes: contents })
        },
        None => {
            if filename_or_hex_signature.len() == 2 * ED25519_SIGNATURE_LEN {
                let decoded = match hex_decode(filename_or_hex_signature) {
                    Some(d) => d,
                    None => {
                        return Err(Error::HexDecode);
                    },
                };
                Ok(Ed25519Signature { bytes: decoded })
            } else {
                Err(Error::SignatureFormat)
            }
        },
    }
}

} // verus!
