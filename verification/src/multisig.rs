//! Canonical multi-party signature collections. A collection is kept
//! sorted in strict lexicographic byte order with exact duplicates
//! removed, so that one set of signatures has exactly one serialized
//! form, however and in whatever order the signatures were gathered.

use vstd::prelude::*;
use crate::keys::Ed25519Signature;
use crate::lexorder::{lex_lt, lex_compare, lemma_lex_lt_irreflexive, lemma_lex_lt_transitive};

verus! {

/// A byte-string sequence is strictly ascending in lexicographic order
/// (and therefore free of duplicates).
pub open spec fn strictly_sorted(s: Seq<Seq<u8>>) -> bool {
    forall|i: int, j: int| 0 <= i < j < s.len() ==> lex_lt(s[i], s[j])
}

/// The set of byte strings occurring in `s`.
pub open spec fn byte_string_set(s: Seq<Seq<u8>>) -> Set<Seq<u8>> {
    Set::new(|b: Seq<u8>| s.contains(b))
}

/// A signature sequence is strictly ascending by its byte strings.
pub open spec fn sigs_sorted(v: Seq<Ed25519Signature>) -> bool {
    forall|i: int, j: int| 0 <= i < j < v.len() ==> lex_lt(v[i]@, v[j]@)
}

/// Every signature in the sequence has its fixed byte length.
pub open spec fn sigs_wf(v: Seq<Ed25519Signature>) -> bool {
    forall|k: int| 0 <= k < v.len() ==> (#[trigger] v[k]).wf()
}

/// The set of signature byte strings occurring in `v`.
pub open spec fn sig_set(v: Seq<Ed25519Signature>) -> Set<Seq<u8>> {
    Set::new(|b: Seq<u8>| exists|k: int| 0 <= k < v.len() && v[k]@ == b)
}

/// Law: the canonical form is unique. Two strictly sorted byte-string
/// sequences holding the same set of byte strings are the same
/// sequence; so the canonical serialization of a signature collection
/// depends only on which signatures are in it, never on the order in
/// which they were supplied.
pub proof fn lemma_canonical_unique(x: Seq<Seq<u8>>, y: Seq<Seq<u8>>)
    requires
        strictly_sorted(x),
        strictly_sorted(y),
        byte_string_set(x) == byte_string_set(y),
    ensures
        x == y,
    decreases x.len(),
{
    if x.len() == 0 {
        if y.len() > 0 {
            assert(y.contains(y[0]));
            assert(byte_string_set(x).contains(y[0]));
            assert(false);
        }
        assert(x =~= y);
    } else if y.len() == 0 {
        assert(x.contains(x[0]));
        assert(byte_string_set(y).contains(x[0]));
        assert(false);
    } else {
        assert(x.contains(x[0]));
        assert(byte_string_set(y).contains(x[0]));
        let j = choose|j: int| 0 <= j < y.len() && y[j] == x[0];
        assert(y.contains(y[0]));
        assert(byte_string_set(x).contains(y[0]));
        let i = choose|i: int| 0 <= i < x.len() && x[i] == y[0];
        if x[0] != y[0] {
            assert(i != 0 && j != 0);
            assert(lex_lt(x[0], x[i]));
            assert(lex_lt(y[0], y[j]));
            lemma_lex_lt_transitive(x[0], y[0], x[0]);
            lemma_lex_lt_irreflexive(x[0]);
        }
        let xt = x.drop_first();
        let yt = y.drop_first();
        assert(strictly_sorted(xt)) by {
            assert forall|p: int, q: int| 0 <= p < q < xt.len() implies lex_lt(xt[p], xt[q]) by {
                assert(xt[p] == x[p + 1]);
                assert(xt[q] == x[q + 1]);
            }
        }
        assert(strictly_sorted(yt)) by {
            assert forall|p: int, q: int| 0 <= p < q < yt.len() implies lex_lt(yt[p], yt[q]) by {
                assert(yt[p] == y[p + 1]);
                assert(yt[q] == y[q + 1]);
            }
        }
        assert(byte_string_set(xt) =~= byte_string_set(yt)) by {
            assert forall|b: Seq<u8>| byte_string_set(xt).contains(b) implies byte_string_set(
                yt,
            ).contains(b) by {
                let k = choose|k: int| 0 <= k < xt.len() && xt[k] == b;
                assert(x[k + 1] == b);
                assert(x.contains(b));
                assert(byte_string_set(y).contains(b));
                let m = choose|m: int| 0 <= m < y.len() && y[m] == b;
                if m == 0 {
                    assert(lex_lt(x[0], x[k + 1]));
                    lemma_lex_lt_irreflexive(x[0]);
                }
                assert(yt[m - 1] == b);
                assert(yt.contains(b));
            }
            assert forall|b: Seq<u8>| byte_string_set(yt).contains(b) implies byte_string_set(
                xt,
            ).contains(b) by {
                let k = choose|k: int| 0 <= k < yt.len() && yt[k] == b;
                assert(y[k + 1] == b);
                assert(y.contains(b));
                assert(byte_string_set(x).contains(b));
                let m = choose|m: int| 0 <= m < x.len() && x[m] == b;
                if m == 0 {
                    assert(lex_lt(y[0], y[k + 1]));
                    lemma_lex_lt_irreflexive(y[0]);
                }
                assert(xt[m - 1] == b);
                assert(xt.contains(b));
            }
        }
        lemma_canonical_unique(xt, yt);
        assert(x.len() == y.len());
        assert forall|k: int| 0 <= k < x.len() implies x[k] == y[k] by {
            if k > 0 {
                assert(x[k] == xt[k - 1]);
                assert(y[k] == yt[k - 1]);
            }
        }
        assert(x =~= y);
    }
}

/// Law: merging is associative. Merging partially-signed records takes
/// the union of their signature sets and canonicalizes; either grouping
/// of three collections yields the same canonical sequence.
pub proof fn lemma_merge_associative(
    r1: Seq<Seq<u8>>,
    r2: Seq<Seq<u8>>,
    a: Set<Seq<u8>>,
    b: Set<Seq<u8>>,
    c: Set<Seq<u8>>,
)
    requires
        strictly_sorted(r1),
        strictly_sorted(r2),
        byte_string_set(r1) == a.union(b).union(c),
        byte_string_set(r2) == a.union(b.union(c)),
    ensures
        r1 == r2,
{
    assert(a.union(b).union(c) =~= a.union(b.union(c)));
    lemma_canonical_unique(r1, r2);
}

/// Law: merging is commutative. Merging the same two signature sets in
/// either order yields the same canonical sequence.
pub proof fn lemma_merge_commutative(
    r1: Seq<Seq<u8>>,
    r2: Seq<Seq<u8>>,
    a: Set<Seq<u8>>,
    b: Set<Seq<u8>>,
)
    requires
        strictly_sorted(r1),
        strictly_sorted(r2),
        byte_string_set(r1) == a.union(b),
        byte_string_set(r2) == b.union(a),
    ensures
        r1 == r2,
{
    assert(a.union(b) =~= b.union(a));
    lemma_canonical_unique(r1, r2);
}

/// Two canonical signature collections holding the same set of byte
/// strings agree signature by signature.
pub proof fn lemma_canonical_collection_unique(a: Seq<Ed25519Signature>, b: Seq<Ed25519Signature>)
    requires
        sigs_sorted(a),
        sigs_sorted(b),
        sig_set(a) == sig_set(b),
    ensures
        a.len() == b.len(),
        forall|k: int| 0 <= k < a.len() ==> a[k]@ == b[k]@,
{
    let x = Seq::new(a.len(), |i: int| a[i]@);
    let y = Seq::new(b.len(), |i: int| b[i]@);
    assert(strictly_sorted(x));
    assert(strictly_sorted(y));
    assert(byte_string_set(x) =~= sig_set(a)) by {
        assert forall|s: Seq<u8>| byte_string_set(x).contains(s) implies sig_set(a).contains(s) by {
            let k = choose|k: int| 0 <= k < x.len() && x[k] == s;
            assert(a[k]@ == s);
        }
        assert forall|s: Seq<u8>| sig_set(a).contains(s) implies byte_string_set(x).contains(s) by {
            let k = choose|k: int| 0 <= k < a.len() && a[k]@ == s;
            assert(x[k] == s);
            assert(x.contains(s));
        }
    }
    assert(byte_string_set(y) =~= sig_set(b)) by {
        assert forall|s: Seq<u8>| byte_string_set(y).contains(s) implies sig_set(b).contains(s) by {
            let k = choose|k: int| 0 <= k < y.len() && y[k] == s;
            assert(b[k]@ == s);
        }
        assert forall|s: Seq<u8>| sig_set(b).contains(s) implies byte_string_set(y).contains(s) by {
            let k = choose|k: int| 0 <= k < b.len() && b[k]@ == s;
            assert(y[k] == s);
            assert(y.contains(s));
        }
    }
    lemma_canonical_unique(x, y);
    assert(x.len() == a.len() && y.len() == b.len());
    assert(x.len() == y.len());
    assert forall|k: int| 0 <= k < a.len() implies a[k]@ == b[k]@ by {
        assert(x[k] == y[k]);
    }
}

/// First index whose signature does not come before `s`, in a sorted
/// collection; equivalently, the position where `s` belongs.
fn find_position(out: &Vec<Ed25519Signature>, s: &Ed25519Signature) -> (pos: usize)
    requires
        sigs_sorted(out@),
    ensures
        pos <= out@.len(),
        forall|k: int| 0 <= k < pos ==> lex_lt(out@[k]@, s@),
        pos < out@.len() ==> !lex_lt(out@[pos as int]@, s@),
{
    let mut i: usize = 0;
    while i < out.len()
        invariant
            sigs_sorted(out@),
            i <= out@.len(),
            forall|k: int| 0 <= k < i ==> lex_lt(out@[k]@, s@),
        decreases out@.len() - i,
    {
        let c = lex_compare(out[i].bytes.as_slice(), s.bytes.as_slice());
        if c != -1 {
            return i;
        }
        i = i + 1;
    }
    i
}

/// Inserts `s` into a canonical collection, keeping it sorted and
/// dropping an exact duplicate: afterwards the byte-string set has
/// grown by exactly `s`.
fn insert_signature(out: &mut Vec<Ed25519Signature>, s: Ed25519Signature)
    requires
        sigs_sorted(old(out)@),
        sigs_wf(old(out)@),
        s.wf(),
    ensures
        sigs_sorted(final(out)@),
        sigs_wf(final(out)@),
        sig_set(final(out)@) == sig_set(old(out)@).insert(s@),
{
    let ghost old_seq = out@;
    let pos = find_position(out, &s);
    if pos < out.len() {
        let c = lex_compare(out[pos].bytes.as_slice(), s.bytes.as_slice());
        if c == 0 {
            proof {
                assert(out@[pos as int]@ == s@);
                assert(sig_set(out@).contains(s@));
                assert(sig_set(out@) =~= sig_set(old_seq).insert(s@));
            }
            return ;
        }
        proof {
            assert(lex_lt(s@, out@[pos as int]@));
        }
    }
    out.insert(pos, s);
    proof {
        old_seq.insert_ensures(pos as int, s);
        let new_seq = out@;
        let p = pos as int;
        assert(sigs_sorted(new_seq)) by {
            assert forall|i: int, j: int| 0 <= i < j < new_seq.len() implies lex_lt(
                new_seq[i]@,
                new_seq[j]@,
            ) by {
                if i < p && j < p {
                    assert(new_seq[i] == old_seq[i] && new_seq[j] == old_seq[j]);
                } else if i < p && j == p {
                    assert(new_seq[i] == old_seq[i] && new_seq[j] == s);
                } else if i < p && j > p {
                    assert(new_seq[i] == old_seq[i] && new_seq[j] == old_seq[j - 1]);
                    assert(lex_lt(old_seq[i]@, old_seq[j - 1]@));
                } else if i == p && j > p {
                    assert(new_seq[j] == old_seq[j - 1]);
                    if j - 1 == p {
                        assert(lex_lt(s@, old_seq[p]@));
                    } else {
                        assert(lex_lt(s@, old_seq[p]@));
                        assert(lex_lt(old_seq[p]@, old_seq[j - 1]@));
                        lemma_lex_lt_transitive(s@, old_seq[p]@, old_seq[j - 1]@);
                    }
                } else {
                    assert(i > p);
                    assert(new_seq[i] == old_seq[i - 1] && new_seq[j] == old_seq[j - 1]);
                    assert(lex_lt(old_seq[i - 1]@, old_seq[j - 1]@));
                }
            }
        }
        assert(sigs_wf(new_seq)) by {
            assert forall|k: int| 0 <= k < new_seq.len() implies (#[trigger] new_seq[k]).wf() by {
                if k < p {
                    assert(new_seq[k] == old_seq[k]);
                } else if k > p {
                    assert(new_seq[k] == old_seq[k - 1]);
                }
            }
        }
        assert(sig_set(new_seq) =~= sig_set(old_seq).insert(s@)) by {
            assert forall|b: Seq<u8>| sig_set(new_seq).contains(b) implies sig_set(
                old_seq,
            ).insert(s@).contains(b) by {
                let k = choose|k: int| 0 <= k < new_seq.len() && new_seq[k]@ == b;
                if k < p {
                    assert(old_seq[k]@ == b);
                } else if k == p {
                    assert(s@ == b);
                } else {
                    assert(old_seq[k - 1]@ == b);
                }
            }
            assert forall|b: Seq<u8>| sig_set(old_seq).insert(s@).contains(b) implies sig_set(
                new_seq,
            ).contains(b) by {
                if b == s@ {
                    assert(new_seq[p]@ == b);
                } else {
                    let k = choose|k: int| 0 <= k < old_seq.len() && old_seq[k]@ == b;
                    if k < p {
                        assert(new_seq[k]@ == b);
                    } else {
                        assert(new_seq[k + 1]@ == b);
                    }
                }
            }
        }
    }
}

/// `sig_set` of one more element of a prefix.
proof fn lemma_sig_set_take_step(v: Seq<Ed25519Signature>, i: int)
    requires
        0 <= i < v.len(),
    ensures
        sig_set(v.take(i + 1)) == sig_set(v.take(i)).insert(v[i]@),
{
    let t1 = v.take(i + 1);
    let t0 = v.take(i);
    assert(sig_set(t1) =~= sig_set(t0).insert(v[i]@)) by {
        assert forall|b: Seq<u8>| sig_set(t1).contains(b) implies sig_set(t0).insert(v[i]@).contains(
            b,
        ) by {
            let k = choose|k: int| 0 <= k < t1.len() && t1[k]@ == b;
            if k < i {
                assert(t0[k]@ == b);
            } else {
                assert(t1[k] == v[i]);
            }
        }
        assert forall|b: Seq<u8>| sig_set(t0).insert(v[i]@).contains(b) implies sig_set(t1).contains(
            b,
        ) by {
            if b == v[i]@ {
                assert(t1[i]@ == b);
            } else {
                let k = choose|k: int| 0 <= k < t0.len() && t0[k]@ == b;
                assert(t1[k]@ == b);
            }
        }
    }
}

/// Sorts the supplied signatures by the total byte order and removes
/// exact duplicates. The result is canonical: it holds exactly the
/// byte strings of the input, in strictly ascending order.
pub fn canonicalize_signatures(input: &Vec<Ed25519Signature>) -> (r: Vec<Ed25519Signature>)
    requires
        sigs_wf(input@),
    ensures
        sigs_sorted(r@),
        sigs_wf(r@),
        sig_set(r@) == sig_set(input@),
{
    let mut out: Vec<Ed25519Signature> = Vec::new();
    proof {
        assert(sig_set(out@) =~= sig_set(input@.take(0)));
    }
    let mut i: usize = 0;
    while i < input.len()
        invariant
            sigs_wf(input@),
            i <= input@.len(),
            sigs_sorted(out@),
            sigs_wf(out@),
            sig_set(out@) == sig_set(input@.take(i as int)),
        decreases input@.len() - i,
    {
        insert_signature(&mut out, input[i].clone());
        proof {
            lemma_sig_set_take_step(input@, i as int);
        }
        i = i + 1;
    }
    proof {
        assert(input@.take(input@.len() as int) =~= input@);
    }
    out
}

/// A canonical multi-signature: the collected signatures, sorted in
/// strict lexicographic byte order with duplicates removed.
#[derive(Debug)]
pub struct MultiSig {
    pub signatures: Vec<Ed25519Signature>,
}

impl View for MultiSig {
    type V = Seq<Ed25519Signature>;

    open spec fn view(&self) -> Seq<Ed25519Signature> {
        self.signatures@
    }
}

impl MultiSig {
    /// Sorted without duplicates, every signature of full length.
    pub open spec fn wf(&self) -> bool {
        sigs_sorted(self@) && sigs_wf(self@)
    }

    /// Wraps the supplied signatures as a canonical collection,
    /// sorting and deduplicating: the result holds exactly the byte
    /// strings of the input.
    pub fn new(signatures: Vec<Ed25519Signature>) -> (r: Self)
        requires
            sigs_wf(signatures@),
        ensures
            r.wf(),
            sig_set(r@) == sig_set(signatures@),
    {
        let canonical = canonicalize_signatures(&signatures);
        MultiSig { signatures: canonical }
    }

    /// Merges two canonical collections: the result is the canonical
    /// collection holding the union of their signature sets.
    pub fn merge(&self, other: &MultiSig) -> (r: MultiSig)
        requires
            self.wf(),
            other.wf(),
        ensures
            r.wf(),
            sig_set(r@) == sig_set(self@).union(sig_set(other@)),
    {
        let mut combined: Vec<Ed25519Signature> = Vec::new();
        let mut i: usize = 0;
        while i < self.signatures.len()
            invariant
                self.wf(),
                i <= self@.len(),
                combined@.len() == i,
                forall|k: int| 0 <= k < i ==> combined@[k]@ == self@[k]@ && (
                #[trigger] combined@[k]).wf(),
            decreases self@.len() - i,
        {
            combined.push(self.signatures[i].clone());
            i = i + 1;
        }
        let mut j: usize = 0;
        while j < other.signatures.len()
            invariant
                self.wf(),
                other.wf(),
                j <= other@.len(),
                combined@.len() == self@.len() + j,
                forall|k: int| 0 <= k < self@.len() ==> combined@[k]@ == self@[k]@ && (
                #[trigger] combined@[k]).wf(),
                forall|k: int| self@.len() <= k < combined@.len() ==> combined@[k]@ == other@[k
                    - self@.len()]@ && (#[trigger] combined@[k]).wf(),
            decreases other@.len() - j,
        {
            combined.push(other.signatures[j].clone());
            j = j + 1;
        }
        proof {
            assert(sig_set(combined@) =~= sig_set(self@).union(sig_set(other@))) by {
                assert forall|b: Seq<u8>| sig_set(combined@).contains(b) implies sig_set(
                    self@,
                ).union(sig_set(other@)).contains(b) by {
                    let k = choose|k: int| 0 <= k < combined@.len() && combined@[k]@ == b;
                    if k < self@.len() {
                        assert(self@[k]@ == b);
                    } else {
                        assert(other@[k - self@.len()]@ == b);
                    }
                }
                assert forall|b: Seq<u8>| sig_set(self@).union(sig_set(other@)).contains(
                    b,
                ) implies sig_set(combined@).contains(b) by {
                    if sig_set(self@).contains(b) {
                        let k = choose|k: int| 0 <= k < self@.len() && self@[k]@ == b;
                        assert(combined@[k]@ == b);
                    } else {
                        let k = choose|k: int| 0 <= k < other@.len() && other@[k]@ == b;
                        assert(combined@[k + self@.len()]@ == b);
                    }
                }
            }
        }
        let merged = canonicalize_signatures(&combined);
        MultiSig { signatures: merged }
    }
}

} // verus!
