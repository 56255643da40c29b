//! Ordering of byte-string keys, and what a range query yields.
//!
//! Keys are raw byte sequences ordered lexicographically (the order `Ord`
//! gives `Vec<u8>`). A range query over `[start, end)` yields the entries
//! whose keys lie in that half-open interval, in strictly ascending key
//! order; [`is_range_seq`] pins such a sequence down uniquely.

use vstd::prelude::*;

verus! {

/// Strict lexicographic order on byte strings, compared from position `i`
/// onward: the first differing byte decides, and a strict prefix sorts
/// before its extensions.
pub open spec fn lex_lt_from(a: Seq<u8>, b: Seq<u8>, i: int) -> bool
    decreases b.len() - i,
{
    if i >= b.len() {
        false
    } else if i >= a.len() {
        true
    } else if a[i] < b[i] {
        true
    } else if a[i] == b[i] {
        lex_lt_from(a, b, i + 1)
    } else {
        false
    }
}

/// Strict lexicographic order on byte strings.
pub open spec fn lex_lt(a: Seq<u8>, b: Seq<u8>) -> bool {
    lex_lt_from(a, b, 0)
}

/// Reflexive lexicographic order on byte strings.
pub open spec fn lex_le(a: Seq<u8>, b: Seq<u8>) -> bool {
    lex_lt(a, b) || a == b
}

/// Whether `k` lies in the half-open key interval `[start, end)`.
pub open spec fn in_range(k: Seq<u8>, start: Seq<u8>, end: Seq<u8>) -> bool {
    lex_le(start, k) && lex_lt(k, end)
}

/// The key of the `i`-th entry of a key-value sequence.
pub open spec fn key_at(s: Seq<(Seq<u8>, Seq<u8>)>, i: int) -> Seq<u8> {
    s[i].0
}

/// The value of the `i`-th entry of a key-value sequence.
pub open spec fn val_at(s: Seq<(Seq<u8>, Seq<u8>)>, i: int) -> Seq<u8> {
    s[i].1
}

/// The contents of a store that holds nothing.
pub open spec fn empty_contents() -> Map<Seq<u8>, Seq<u8>> {
    Map::empty()
}

/// The mathematical contents of a vector of key-value pairs.
pub open spec fn entries_view(v: Seq<(Vec<u8>, Vec<u8>)>) -> Seq<(Seq<u8>, Seq<u8>)> {
    Seq::new(v.len(), |i: int| (v[i].0@, v[i].1@))
}

/// `s` lists exactly the entries of `m` whose keys lie in `[start, end)`,
/// each with the value `m` gives it, in strictly ascending key order.
pub open spec fn is_range_seq(
    s: Seq<(Seq<u8>, Seq<u8>)>,
    m: Map<Seq<u8>, Seq<u8>>,
    start: Seq<u8>,
    end: Seq<u8>,
) -> bool {
    &&& forall|i: int, j: int|
        0 <= i < j < s.len() ==> lex_lt(#[trigger] key_at(s, i), #[trigger] key_at(s, j))
    &&& forall|i: int|
        0 <= i < s.len() ==> {
            &&& in_range(#[trigger] key_at(s, i), start, end)
            &&& m.contains_key(key_at(s, i))
            &&& m[key_at(s, i)] == val_at(s, i)
        }
    &&& forall|k: Seq<u8>|
        #[trigger] m.contains_key(k) && in_range(k, start, end) ==> exists|i: int|
            0 <= i < s.len() && #[trigger] key_at(s, i) == k
}

proof fn lemma_lex_lt_from_asymmetric(a: Seq<u8>, b: Seq<u8>, i: int)
    ensures
        !(lex_lt_from(a, b, i) && lex_lt_from(b, a, i)),
    decreases b.len() - i,
{
    if lex_lt_from(a, b, i) && lex_lt_from(b, a, i) {
        if i < a.len() && i < b.len() && a[i] == b[i] {
            lemma_lex_lt_from_asymmetric(a, b, i + 1);
        }
    }
}

/// Law: the strict key order is asymmetric — two byte strings never each
/// precede the other. With `a == b` this gives irreflexivity.
pub proof fn lemma_lex_lt_asymmetric(a: Seq<u8>, b: Seq<u8>)
    ensures
        !(lex_lt(a, b) && lex_lt(b, a)),
{
    lemma_lex_lt_from_asymmetric(a, b, 0);
}

/// Law: a range query's result is unique — two sequences that both list the
/// entries of `m` with keys in `[start, end)` in strictly ascending key
/// order are equal.
pub proof fn lemma_range_seq_unique(
    s1: Seq<(Seq<u8>, Seq<u8>)>,
    s2: Seq<(Seq<u8>, Seq<u8>)>,
    m: Map<Seq<u8>, Seq<u8>>,
    start: Seq<u8>,
    end: Seq<u8>,
)
    requires
        is_range_seq(s1, m, start, end),
        is_range_seq(s2, m, start, end),
    ensures
        s1 =~= s2,
    decreases s1.len(),
{
    if s1.len() == 0 {
        if s2.len() > 0 {
            assert(m.contains_key(key_at(s2, 0)) && in_range(key_at(s2, 0), start, end));
        }
    } else if s2.len() == 0 {
        assert(m.contains_key(key_at(s1, 0)) && in_range(key_at(s1, 0), start, end));
    } else {
        let k1 = key_at(s1, 0);
        let k2 = key_at(s2, 0);
        if k1 != k2 {
            assert(m.contains_key(k1) && in_range(k1, start, end));
            let j2 = choose|j: int| 0 <= j < s2.len() && #[trigger] key_at(s2, j) == k1;
            assert(0 <= j2 < s2.len() && key_at(s2, j2) == k1);
            assert(lex_lt(key_at(s2, 0), key_at(s2, j2)));
            assert(m.contains_key(k2) && in_range(k2, start, end));
            let j1 = choose|j: int| 0 <= j < s1.len() && #[trigger] key_at(s1, j) == k2;
            assert(0 <= j1 < s1.len() && key_at(s1, j1) == k2);
            assert(lex_lt(key_at(s1, 0), key_at(s1, j1)));
            lemma_lex_lt_asymmetric(k1, k2);
        }
        let t1 = s1.drop_first();
        let t2 = s2.drop_first();
        let m2 = m.remove(k1);
        lemma_range_seq_tail(s1, m, start, end);
        lemma_range_seq_tail(s2, m, start, end);
        lemma_range_seq_unique(t1, t2, m2, start, end);
        assert forall|idx: int| 0 <= idx < s1.len() implies s1[idx] == s2[idx] by {
            if idx == 0 {
                assert(val_at(s1, 0) == m[k1]);
                assert(val_at(s2, 0) == m[k2]);
            } else {
                assert(t1[idx - 1] == t2[idx - 1]);
            }
        }
    }
}

/// Dropping the first entry of a range listing leaves a range listing of
/// the map without that entry's key.
proof fn lemma_range_seq_tail(s: Seq<(Seq<u8>, Seq<u8>)>, m: Map<Seq<u8>, Seq<u8>>, start: Seq<u8>, end: Seq<u8>)
    requires
        is_range_seq(s, m, start, end),
        s.len() > 0,
    ensures
        is_range_seq(s.drop_first(), m.remove(key_at(s, 0)), start, end),
{
    let t = s.drop_first();
    let k0 = key_at(s, 0);
    let m2 = m.remove(k0);
    assert forall|p: int, q: int| 0 <= p < q < t.len() implies lex_lt(
        #[trigger] key_at(t, p),
        #[trigger] key_at(t, q),
    ) by {
        assert(key_at(t, p) == key_at(s, p + 1));
        assert(key_at(t, q) == key_at(s, q + 1));
        assert(lex_lt(key_at(s, p + 1), key_at(s, q + 1)));
    }
    assert forall|p: int| 0 <= p < t.len() implies {
        &&& in_range(#[trigger] key_at(t, p), start, end)
        &&& m2.contains_key(key_at(t, p))
        &&& m2[key_at(t, p)] == val_at(t, p)
    } by {
        assert(key_at(t, p) == key_at(s, p + 1));
        assert(val_at(t, p) == val_at(s, p + 1));
        assert(in_range(key_at(s, p + 1), start, end));
        assert(m.contains_key(key_at(s, p + 1)));
        assert(lex_lt(key_at(s, 0), key_at(s, p + 1)));
        lemma_lex_lt_asymmetric(k0, key_at(s, p + 1));
        assert(key_at(s, p + 1) != k0);
    }
    assert forall|k: Seq<u8>| #[trigger] m2.contains_key(k) && in_range(k, start, end) implies
        exists|i: int| 0 <= i < t.len() && #[trigger] key_at(t, i) == k by {
        assert(m.contains_key(k));
        let i0 = choose|i: int| 0 <= i < s.len() && #[trigger] key_at(s, i) == k;
        assert(0 <= i0 < s.len() && key_at(s, i0) == k);
        assert(i0 != 0);
        assert(key_at(t, i0 - 1) == k);
    }
}

/// Decides the strict lexicographic order on byte keys.
pub fn lex_lt_bytes(a: &Vec<u8>, b: &Vec<u8>) -> (r: bool)
    ensures
        r == lex_lt(a@, b@),
{
    let mut i: usize = 0;
    while i < a.len() && i < b.len()
        invariant
            i <= a@.len(),
            i <= b@.len(),
            lex_lt(a@, b@) == lex_lt_from(a@, b@, i as int),
        decreases a@.len() - i,
    {
        if a[i] < b[i] {
            return true;
        }
        if a[i] > b[i] {
            return false;
        }
        i = i + 1;
    }
    i < b.len()
}

} // verus!
