//! Deterministic byte-level encodings of integers: big-endian 64-bit
//! words and decimal text, with round-trip lemmas.

use vstd::prelude::*;

verus! {

/// The eight big-endian bytes of a 64-bit word.
pub open spec fn u64_be(x: u64) -> Seq<u8> {
    seq![
        (x >> 56) as u8,
        (x >> 48) as u8,
        (x >> 40) as u8,
        (x >> 32) as u8,
        (x >> 24) as u8,
        (x >> 16) as u8,
        (x >> 8) as u8,
        x as u8,
    ]
}

/// The 64-bit word read from eight big-endian bytes.
pub open spec fn u64_of_be(s: Seq<u8>) -> u64
    recommends
        s.len() == 8,
{
    (((s[0] as u64) << 56) | ((s[1] as u64) << 48) | ((s[2] as u64) << 40) | ((s[3] as u64) << 32)
        | ((s[4] as u64) << 24) | ((s[5] as u64) << 16) | ((s[6] as u64) << 8) | (s[7] as u64)) as u64
}

/// Reading back the big-endian bytes of `x` yields `x`.
pub proof fn lemma_u64_be_round_trip(x: u64)
    ensures
        u64_of_be(u64_be(x)) == x,
{
    assert((((((x >> 56) as u8) as u64) << 56) | ((((x >> 48) as u8) as u64) << 48) | ((((x >> 40) as u8) as u64)
        << 40) | ((((x >> 32) as u8) as u64) << 32) | ((((x >> 24) as u8) as u64) << 24) | ((((x
        >> 16) as u8) as u64) << 16) | ((((x >> 8) as u8) as u64) << 8) | ((x as u8) as u64)) as u64
        == x) by (bit_vector);
}

/// Appends the eight big-endian bytes of `x`.
pub fn push_u64_be(out: &mut Vec<u8>, x: u64)
    ensures
        final(out)@ == old(out)@ + u64_be(x),
{
    out.push((x >> 56) as u8);
    out.push((x >> 48) as u8);
    out.push((x >> 40) as u8);
    out.push((x >> 32) as u8);
    out.push((x >> 24) as u8);
    out.push((x >> 16) as u8);
    out.push((x >> 8) as u8);
    out.push(x as u8);
    assert(out@ =~= old(out)@ + u64_be(x));
}

/// Reads the 64-bit word at offset `at` of `s`, big-endian.
pub fn read_u64_be(s: &[u8], at: usize) -> (r: u64)
    requires
        at + 8 <= s@.len(),
    ensures
        r == u64_of_be(s@.subrange(at as int, at + 8)),
{
    let r = ((s[at] as u64) << 56) | ((s[at + 1] as u64) << 48) | ((s[at + 2] as u64) << 40) | ((s[at
        + 3] as u64) << 32) | ((s[at + 4] as u64) << 24) | ((s[at + 5] as u64) << 16) | ((s[at
        + 6] as u64) << 8) | (s[at + 7] as u64);
    proof {
        let sub = s@.subrange(at as int, at + 8);
        assert(sub[0] == s@[at as int] && sub[1] == s@[at + 1] && sub[2] == s@[at + 2] && sub[3]
            == s@[at + 3] && sub[4] == s@[at + 4] && sub[5] == s@[at + 5] && sub[6] == s@[at + 6]
            && sub[7] == s@[at + 7]);
    }
    r
}

/// Copies the byte range `[from, to)` of `s`.
pub fn copy_range(s: &[u8], from: usize, to: usize) -> (r: Vec<u8>)
    requires
        from <= to <= s@.len(),
    ensures
        r@ == s@.subrange(from as int, to as int),
{
    let mut out: Vec<u8> = Vec::new();
    let mut i = from;
    while i < to
        invariant
            from <= i <= to <= s@.len(),
            out@.len() == i - from,
            forall|k: int| 0 <= k < out@.len() ==> out@[k] == s@[k + from],
        decreases to - i,
    {
        out.push(s[i]);
        i = i + 1;
    }
    assert(out@ =~= s@.subrange(from as int, to as int));
    out
}

/// A byte is a decimal digit character.
pub open spec fn is_dec_digit(c: u8) -> bool {
    48 <= c <= 57
}

/// Every byte of the string is a decimal digit.
pub open spec fn all_dec_digits(s: Seq<u8>) -> bool {
    forall|i: int| 0 <= i < s.len() ==> is_dec_digit(#[trigger] s[i])
}

/// The number denoted by a decimal digit string, most significant
/// digit first.
pub open spec fn dec_val(s: Seq<u8>) -> int
    recommends
        all_dec_digits(s),
    decreases s.len(),
{
    if s.len() == 0 {
        0
    } else {
        dec_val(s.drop_last()) * 10 + (s.last() - 48)
    }
}

/// A digit string denotes a non-negative number.
pub proof fn lemma_dec_val_nonneg(s: Seq<u8>)
    requires
        all_dec_digits(s),
    ensures
        dec_val(s) >= 0,
    decreases s.len(),
{
    if s.len() > 0 {
        assert(all_dec_digits(s.drop_last())) by {
            assert(forall|k: int| 0 <= k < s.len() - 1 ==> s.drop_last()[k] == s[k]);
        }
        lemma_dec_val_nonneg(s.drop_last());
    }
}

/// The value of a longer digit string is at least the value of its
/// prefix.
proof fn lemma_dec_val_prefix_monotone(s: Seq<u8>, i: int)
    requires
        0 <= i <= s.len(),
        all_dec_digits(s),
    ensures
        dec_val(s.take(i)) <= dec_val(s),
    decreases s.len() - i,
{
    if i < s.len() {
        lemma_dec_val_prefix_monotone(s, i + 1);
        assert(s.take(i + 1).drop_last() =~= s.take(i));
        assert(s.take(i + 1).last() == s[i]);
        assert(all_dec_digits(s.take(i))) by {
            assert(forall|k: int| 0 <= k < i ==> s.take(i)[k] == s[k]);
        }
        lemma_dec_val_nonneg(s.take(i));
        assert(dec_val(s.take(i)) <= dec_val(s.take(i + 1)));
    } else {
        assert(s.take(i) =~= s);
    }
}

/// Parses a decimal digit string as a 64-bit number. Succeeds exactly
/// on non-empty all-digit strings whose value fits.
pub fn parse_u64_dec(s: &[u8]) -> (r: Option<u64>)
    ensures
        r is Some <==> (s@.len() > 0 && all_dec_digits(s@) && dec_val(s@) <= u64::MAX),
        r is Some ==> r.unwrap() == dec_val(s@),
{
    if s.len() == 0 {
        return None;
    }
    let mut acc: u64 = 0;
    let mut i: usize = 0;
    while i < s.len()
        invariant
            0 < s@.len(),
            i <= s@.len(),
            forall|k: int| 0 <= k < i ==> is_dec_digit(#[trigger] s@[k]),
            acc == dec_val(s@.take(i as int)),
        decreases s@.len() - i,
    {
        let c = s[i];
        if c < 48 || c > 57 {
            return None;
        }
        let d = c - 48;
        let shifted = match acc.checked_mul(10) {
            Some(v) => v,
            None => {
                proof {
                    assert(s@.take(i + 1).drop_last() =~= s@.take(i as int));
                    assert(s@.take(i + 1).last() == s@[i as int]);
                    assert(dec_val(s@.take(i + 1)) == acc * 10 + d);
                    if all_dec_digits(s@) {
                        lemma_dec_val_prefix_monotone(s@, i + 1);
                    }
                }
                return None;
            },
        };
        let next = match shifted.checked_add(d as u64) {
            Some(v) => v,
            None => {
                proof {
                    assert(s@.take(i + 1).drop_last() =~= s@.take(i as int));
                    assert(s@.take(i + 1).last() == s@[i as int]);
                    assert(dec_val(s@.take(i + 1)) == acc * 10 + d);
                    if all_dec_digits(s@) {
                        lemma_dec_val_prefix_monotone(s@, i + 1);
                    }
                }
                return None;
            },
        };
        proof {
            assert(s@.take(i + 1).drop_last() =~= s@.take(i as int));
            assert(s@.take(i + 1).last() == s@[i as int]);
        }
        acc = next;
        i = i + 1;
    }
    proof {
        assert(s@.take(s@.len() as int) =~= s@);
    }
    Some(acc)
}

/// A digit string whose first digit is not zero denotes a positive
/// number.
proof fn lemma_dec_val_positive(s: Seq<u8>)
    requires
        s.len() > 0,
        all_dec_digits(s),
        s[0] != 48,
    ensures
        dec_val(s) >= 1,
    decreases s.len(),
{
    if s.len() == 1 {
        assert(s.drop_last() =~= Seq::<u8>::empty());
        assert(dec_val(Seq::<u8>::empty()) == 0);
        assert(s.last() == s[0]);
        assert(dec_val(s) == dec_val(s.drop_last()) * 10 + (s.last() - 48));
    } else {
        let front = s.drop_last();
        assert(all_dec_digits(front) && front[0] == s[0]) by {
            assert(forall|k: int| 0 <= k < front.len() ==> front[k] == s[k]);
        }
        lemma_dec_val_positive(front);
        lemma_dec_val_nonneg(s);
        assert(dec_val(s) == dec_val(front) * 10 + (s.last() - 48));
        assert(dec_val(s) >= 1) by (nonlinear_arith)
            requires
                dec_val(s) == dec_val(front) * 10 + (s.last() - 48),
                dec_val(front) >= 1,
                s.last() >= 48,
        ;
    }
}

/// A non-empty digit string without a superfluous leading zero is the
/// canonical decimal text of its value.
pub proof fn lemma_dec_canonical(d: Seq<u8>)
    requires
        d.len() > 0,
        all_dec_digits(d),
        d.len() > 1 ==> d[0] != 48,
    ensures
        u64_dec(dec_val(d) as nat) == d,
    decreases d.len(),
{
    lemma_dec_val_nonneg(d);
    if d.len() == 1 {
        assert(d.drop_last() =~= Seq::<u8>::empty());
        assert(dec_val(Seq::<u8>::empty()) == 0);
        assert(d.last() == d[0]);
        assert(dec_val(d) == dec_val(d.drop_last()) * 10 + (d.last() - 48));
        assert(dec_val(d) == d[0] - 48);
        assert(u64_dec(dec_val(d) as nat) =~= d);
    } else {
        let front = d.drop_last();
        assert(all_dec_digits(front) && front[0] == d[0] && front.len() == d.len() - 1) by {
            assert(forall|k: int| 0 <= k < front.len() ==> front[k] == d[k]);
        }
        lemma_dec_val_nonneg(front);
        lemma_dec_canonical(front);
        lemma_dec_val_positive(front);
        let f = dec_val(front);
        let r = d.last() - 48;
        let v = dec_val(d);
        assert(v == f * 10 + r);
        assert(0 <= r <= 9);
        assert(v / 10 == f && v % 10 == r) by (nonlinear_arith)
            requires
                v == f * 10 + r,
                0 <= r <= 9,
                f >= 0,
        ;
        assert(v >= 10) by (nonlinear_arith)
            requires
                v == f * 10 + r,
                f >= 1,
                r >= 0,
        ;
        assert(u64_dec(v as nat) == u64_dec((v as nat) / 10).push((48 + (v as nat) % 10) as u8));
        assert((v as nat) / 10 == f && (v as nat) % 10 == r);
        assert(u64_dec(v as nat) =~= d);
    }
}

/// The decimal digit string of a 64-bit number, without leading
/// zeros (`0` itself is the single digit `0`).
pub open spec fn u64_dec(x: nat) -> Seq<u8>
    decreases x,
{
    if x < 10 {
        seq![(48 + x) as u8]
    } else {
        u64_dec(x / 10).push((48 + x % 10) as u8)
    }
}

/// The decimal text of a number is canonical: non-empty digits that
/// denote the number, with no superfluous leading zero.
pub proof fn lemma_u64_dec_properties(x: nat)
    ensures
        u64_dec(x).len() > 0,
        all_dec_digits(u64_dec(x)),
        dec_val(u64_dec(x)) == x,
        u64_dec(x).len() > 1 ==> u64_dec(x)[0] != 48,
    decreases x,
{
    if x < 10 {
        let s = u64_dec(x);
        assert(s == seq![(48 + x) as u8]);
        assert(s.drop_last() =~= Seq::<u8>::empty());
        assert(dec_val(Seq::<u8>::empty()) == 0);
        assert(dec_val(s) == dec_val(s.drop_last()) * 10 + (s.last() - 48));
        assert(s.last() == (48 + x) as u8);
    } else {
        lemma_u64_dec_properties(x / 10);
        let s = u64_dec(x);
        assert(s.drop_last() =~= u64_dec(x / 10));
        assert(s.last() == (48 + x % 10) as u8);
        assert(dec_val(s) == dec_val(u64_dec(x / 10)) * 10 + (x % 10));
        assert(x == (x / 10) * 10 + x % 10) by (nonlinear_arith);
        assert(all_dec_digits(s)) by {
            assert(forall|i: int| 0 <= i < s.len() - 1 ==> s[i] == u64_dec(x / 10)[i]);
        }
        assert(s[0] == u64_dec(x / 10)[0]);
        assert(x / 10 > 0);
        if x / 10 < 10 {
            assert(u64_dec(x / 10) == seq![(48 + x / 10) as u8]);
            assert(s[0] != 48);
        } else {
            let w = (x / 10) / 10;
            assert(u64_dec(x / 10) == u64_dec(w).push((48 + (x / 10) % 10) as u8));
            assert(u64_dec(w).len() >= 1) by {
                if w < 10 {
                    assert(u64_dec(w) == seq![(48 + w) as u8]);
                } else {
                    assert(u64_dec(w) == u64_dec(w / 10).push((48 + w % 10) as u8));
                }
            }
            assert(u64_dec(x / 10).len() > 1);
            assert(s[0] != 48);
        }
    }
}

/// Writes the decimal digits of `x`, most significant first.
pub fn push_u64_dec(out: &mut Vec<u8>, x: u64)
    ensures
        final(out)@ == old(out)@ + u64_dec(x as nat),
    decreases x,
{
    if x < 10 {
        out.push(48 + (x as u8));
        assert(out@ =~= old(out)@ + u64_dec(x as nat));
    } else {
        push_u64_dec(out, x / 10);
        out.push(48 + ((x % 10) as u8));
        assert(out@ =~= old(out)@ + u64_dec(x as nat));
    }
}

} // verus!
