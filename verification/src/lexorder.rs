//! A strict total order on byte strings: shortlex-free, plain
//! lexicographic comparison. This is the total order under which
//! signature collections are canonicalized.

use vstd::prelude::*;

verus! {

/// `a` comes strictly before `b` in lexicographic byte order: at the
/// first position where they differ, `a` has the smaller byte, or `a`
/// is a proper prefix of `b`.
pub open spec fn lex_lt(a: Seq<u8>, b: Seq<u8>) -> bool
    decreases a.len(),
{
    if b.len() == 0 {
        false
    } else if a.len() == 0 {
        true
    } else if a[0] < b[0] {
        true
    } else if a[0] > b[0] {
        false
    } else {
        lex_lt(a.drop_first(), b.drop_first())
    }
}

/// No byte string comes before itself.
pub proof fn lemma_lex_lt_irreflexive(a: Seq<u8>)
    ensures
        !lex_lt(a, a),
    decreases a.len(),
{
    if a.len() > 0 {
        lemma_lex_lt_irreflexive(a.drop_first());
    }
}

/// Lexicographic order is transitive.
pub proof fn lemma_lex_lt_transitive(a: Seq<u8>, b: Seq<u8>, c: Seq<u8>)
    requires
        lex_lt(a, b),
        lex_lt(b, c),
    ensures
        lex_lt(a, c),
    decreases a.len(),
{
    if a.len() == 0 {
    } else if a[0] == b[0] && b[0] == c[0] {
        lemma_lex_lt_transitive(a.drop_first(), b.drop_first(), c.drop_first());
    }
}

/// Lexicographic order is asymmetric.
pub proof fn lemma_lex_lt_asymmetric(a: Seq<u8>, b: Seq<u8>)
    requires
        lex_lt(a, b),
    ensures
        !lex_lt(b, a),
{
    if lex_lt(b, a) {
        lemma_lex_lt_transitive(a, b, a);
        lemma_lex_lt_irreflexive(a);
    }
}

/// If `a` and `b` agree before position `i` and `a` has the smaller
/// byte at `i`, then `a` comes first.
proof fn lemma_lex_lt_from_diff(a: Seq<u8>, b: Seq<u8>, i: int)
    requires
        0 <= i < a.len(),
        i < b.len(),
        forall|k: int| 0 <= k < i ==> a[k] == b[k],
        a[i] < b[i],
    ensures
        lex_lt(a, b),
    decreases i,
{
    if i > 0 {
        lemma_lex_lt_from_diff(a.drop_first(), b.drop_first(), i - 1);
    }
}

/// A proper prefix comes before the longer string.
proof fn lemma_lex_lt_prefix(a: Seq<u8>, b: Seq<u8>)
    requires
        a.len() < b.len(),
        forall|k: int| 0 <= k < a.len() ==> a[k] == b[k],
    ensures
        lex_lt(a, b),
    decreases a.len(),
{
    if a.len() > 0 {
        lemma_lex_lt_prefix(a.drop_first(), b.drop_first());
    }
}

/// Three-way lexicographic comparison of two byte strings.
/// Returns -1, 0 or 1 as `a` comes before, equals, or comes after `b`.
pub fn lex_compare(a: &[u8], b: &[u8]) -> (r: i8)
    ensures
        (r == -1) <==> lex_lt(a@, b@),
        (r == 0) <==> a@ == b@,
        (r == 1) <==> lex_lt(b@, a@),
        r == -1 || r == 0 || r == 1,
{
    let a_len = a.len();
    let b_len = b.len();
    let min_len = if a_len < b_len { a_len } else { b_len };
    let mut i: usize = 0;
    while i < min_len
        invariant
            min_len <= a@.len(),
            min_len <= b@.len(),
            i <= min_len,
            forall|k: int| 0 <= k < i ==> a@[k] == b@[k],
        decreases min_len - i,
    {
        if a[i] < b[i] {
            proof {
                lemma_lex_lt_from_diff(a@, b@, i as int);
                lemma_lex_lt_asymmetric(a@, b@);
            }
            return -1;
        }
        if a[i] > b[i] {
            proof {
                lemma_lex_lt_from_diff(b@, a@, i as int);
                lemma_lex_lt_asymmetric(b@, a@);
            }
            return 1;
        }
        i = i + 1;
    }
    if a_len == b_len {
        proof {
            assert(a@ =~= b@);
            lemma_lex_lt_irreflexive(a@);
        }
        0
    } else if a_len < b_len {
        proof {
            lemma_lex_lt_prefix(a@, b@);
            lemma_lex_lt_asymmetric(a@, b@);
        }
        -1
    } else {
        proof {
            lemma_lex_lt_prefix(b@, a@);
            lemma_lex_lt_asymmetric(b@, a@);
        }
        1
    }
}

} // verus!
