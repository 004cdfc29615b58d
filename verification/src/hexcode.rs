//! Hexadecimal encoding and decoding of byte strings, with exact
//! specifications relating the text form to the bytes it denotes.

use vstd::prelude::*;

verus! {

/// A byte is a hexadecimal digit character: `0-9`, `a-f` or `A-F`.
pub open spec fn is_hex_digit(c: u8) -> bool {
    (48 <= c <= 57) || (97 <= c <= 102) || (65 <= c <= 70)
}

/// Numeric value of one hexadecimal digit character.
pub open spec fn hex_digit_value(c: u8) -> u8
    recommends
        is_hex_digit(c),
{
    if 48 <= c <= 57 {
        (c - 48) as u8
    } else if 97 <= c <= 102 {
        (c - 87) as u8
    } else {
        (c - 55) as u8
    }
}

/// Lower-case hexadecimal digit character for a value below 16.
pub open spec fn hex_char_of(v: u8) -> u8
    recommends
        v < 16,
{
    if v < 10 {
        (v + 48) as u8
    } else {
        (v + 87) as u8
    }
}

/// Every byte of the string is a hexadecimal digit.
pub open spec fn all_hex_digits(s: Seq<u8>) -> bool {
    forall|i: int| 0 <= i < s.len() ==> is_hex_digit(#[trigger] s[i])
}

/// The byte string denoted by a hexadecimal text of even length:
/// each pair of digits gives one byte, high digit first.
pub open spec fn hex_bytes_of(s: Seq<u8>) -> Seq<u8>
    recommends
        s.len() % 2 == 0,
        all_hex_digits(s),
{
    Seq::new(s.len() / 2, |i: int| (hex_digit_value(s[2 * i]) * 16 + hex_digit_value(s[2 * i + 1])) as u8)
}

/// The lower-case hexadecimal text denoting a byte string: two digits
/// per byte, high digit first.
pub open spec fn hex_text_of(b: Seq<u8>) -> Seq<u8> {
    Seq::new(b.len() * 2, |i: int| if i % 2 == 0 { hex_char_of(b[i / 2] / 16) } else { hex_char_of(b[i / 2] % 16) })
}

/// Decodes one hexadecimal digit character, or reports that the byte
/// is not such a digit.
fn decode_hex_digit(c: u8) -> (r: Option<u8>)
    ensures
        r is Some <==> is_hex_digit(c),
        r is Some ==> r.unwrap() == hex_digit_value(c) && r.unwrap() < 16,
{
    if 48 <= c && c <= 57 {
        Some(c - 48)
    } else if 97 <= c && c <= 102 {
        Some(c - 87)
    } else if 65 <= c && c <= 70 {
        Some(c - 55)
    } else {
        None
    }
}

/// Decodes a hexadecimal text into the byte string it denotes.
/// Succeeds exactly on texts of even length made of hexadecimal digits.
pub fn hex_decode(s: &[u8]) -> (r: Option<Vec<u8>>)
    ensures
        r is Some <==> (s@.len() % 2 == 0 && all_hex_digits(s@)),
        r is Some ==> r.unwrap()@ == hex_bytes_of(s@),
{
    if s.len() % 2 != 0 {
        assert(s@.len() % 2 != 0);
        return None;
    }
    let n = s.len() / 2;
    let mut out: Vec<u8> = Vec::new();
    let mut i: usize = 0;
    while i < n
        invariant
            s@.len() % 2 == 0,
            n == s@.len() / 2,
            2 * n == s@.len(),
            s@.len() <= usize::MAX,
            i <= n,
            out@.len() == i,
            forall|k: int| 0 <= k < 2 * i ==> is_hex_digit(#[trigger] s@[k]),
            forall|k: int| 0 <= k < i ==> out@[k] == (hex_digit_value(s@[2 * k]) * 16 + hex_digit_value(s@[2 * k + 1])) as u8,
        decreases n - i,
    {
        let hi = match decode_hex_digit(s[2 * i]) {
            Some(v) => v,
            None => {
                return None;
            },
        };
        let lo = match decode_hex_digit(s[2 * i + 1]) {
            Some(v) => v,
            None => {
                return None;
            },
        };
        out.push(hi * 16 + lo);
        i = i + 1;
    }
    assert(all_hex_digits(s@)) by {
        assert(forall|k: int| 0 <= k < s@.len() ==> k < 2 * i && is_hex_digit(#[trigger] s@[k]));
    }
    assert(out@ =~= hex_bytes_of(s@));
    Some(out)
}

/// Encodes a byte string as lower-case hexadecimal text.
pub fn hex_encode(b: &[u8]) -> (r: Vec<u8>)
    requires
        b@.len() * 2 <= usize::MAX,
    ensures
        r@ == hex_text_of(b@),
{
    let mut out: Vec<u8> = Vec::new();
    let mut i: usize = 0;
    while i < b.len()
        invariant
            b@.len() * 2 <= usize::MAX,
            i <= b@.len(),
            out@.len() == 2 * i,
            forall|k: int| 0 <= k < 2 * i ==> out@[k] == hex_text_of(b@)[k],
        decreases b@.len() - i,
    {
        let byte = b[i];
        let hi = byte / 16;
        let lo = byte % 16;
        let hc = if hi < 10 { hi + 48 } else { hi + 87 };
        let lc = if lo < 10 { lo + 48 } else { lo + 87 };
        out.push(hc);
        out.push(lc);
        i = i + 1;
    }
    assert(out@ =~= hex_text_of(b@));
    out
}

/// A byte is a lower-case hexadecimal digit character.
pub open spec fn is_lower_hex_digit(c: u8) -> bool {
    (48 <= c <= 57) || (97 <= c <= 102)
}

/// Every byte of the string is a lower-case hexadecimal digit.
pub open spec fn all_lower_hex_digits(s: Seq<u8>) -> bool {
    forall|i: int| 0 <= i < s.len() ==> is_lower_hex_digit(#[trigger] s[i])
}

/// Lower-case hexadecimal text is canonical: encoding the bytes it
/// denotes gives the text back.
pub proof fn lemma_hex_canonical(t: Seq<u8>)
    requires
        t.len() % 2 == 0,
        all_lower_hex_digits(t),
    ensures
        all_hex_digits(t),
        hex_text_of(hex_bytes_of(t)) == t,
{
    assert(all_hex_digits(t)) by {
        assert(forall|i: int| 0 <= i < t.len() ==> is_hex_digit(#[trigger] t[i]));
    }
    let b = hex_bytes_of(t);
    assert(b.len() * 2 == t.len());
    assert(hex_text_of(b) =~= t) by {
        assert forall|k: int| 0 <= k < t.len() implies hex_text_of(b)[k] == t[k] by {
            let i = k / 2;
            let v1 = hex_digit_value(t[2 * i]);
            let v2 = hex_digit_value(t[2 * i + 1]);
            assert(v1 < 16 && v2 < 16);
            assert((v1 * 16 + v2) / 16 == v1 && (v1 * 16 + v2) % 16 == v2) by (nonlinear_arith)
                requires
                    v1 < 16,
                    v2 < 16,
            ;
            assert(b[i] == (v1 * 16 + v2) as u8);
            if k % 2 == 0 {
                assert(k == 2 * i);
                assert(hex_text_of(b)[k] == hex_char_of((b[i] / 16) as u8));
                assert(hex_char_of(v1) == t[k]);
            } else {
                assert(k == 2 * i + 1);
                assert(hex_text_of(b)[k] == hex_char_of((b[i] % 16) as u8));
                assert(hex_char_of(v2) == t[k]);
            }
        }
    }
}

/// The hex text of a byte string is canonical: even length, made of
/// lower-case hex digits, and decoding it gives the bytes back.
pub proof fn lemma_hex_text_canonical(b: Seq<u8>)
    ensures
        hex_text_of(b).len() == 2 * b.len(),
        hex_text_of(b).len() % 2 == 0,
        all_lower_hex_digits(hex_text_of(b)),
        hex_bytes_of(hex_text_of(b)) == b,
{
    let t = hex_text_of(b);
    assert(all_lower_hex_digits(t)) by {
        assert(forall|i: int| 0 <= i < t.len() ==> is_lower_hex_digit(#[trigger] t[i]));
    }
    assert(hex_bytes_of(t) =~= b) by {
        assert forall|i: int| 0 <= i < b.len() implies #[trigger] hex_bytes_of(t)[i] == b[i] by {
            assert(t[2 * i] == hex_char_of((b[i] / 16) as u8));
            assert(t[2 * i + 1] == hex_char_of((b[i] % 16) as u8));
            assert(hex_digit_value(hex_char_of((b[i] / 16) as u8)) == b[i] / 16);
            assert(hex_digit_value(hex_char_of((b[i] % 16) as u8)) == b[i] % 16);
        }
    }
}

} // verus!
