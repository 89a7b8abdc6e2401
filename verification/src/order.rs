//! The lexicographic order on byte strings, under which an ordered store
//! keeps its keys, and its agreement with the numeric order on big-endian
//! encodings.

use vstd::prelude::*;
use crate::bytes::{u64_be, lemma_u64_be_round_trip};

verus! {

/// `a` comes strictly before `b` in the lexicographic order on bytes.
pub open spec fn lex_lt(a: Seq<u8>, b: Seq<u8>) -> bool
    decreases a.len(),
{
    if b.len() == 0 {
        false
    } else if a.len() == 0 {
        true
    } else if a[0] != b[0] {
        a[0] < b[0]
    } else {
        lex_lt(a.skip(1), b.skip(1))
    }
}

/// `a` comes before `b`, or is `b`.
pub open spec fn lex_le(a: Seq<u8>, b: Seq<u8>) -> bool {
    a == b || lex_lt(a, b)
}

/// No byte string comes before itself.
pub proof fn lemma_lex_irreflexive(a: Seq<u8>)
    ensures
        !lex_lt(a, a),
    decreases a.len(),
{
    if a.len() > 0 {
        lemma_lex_irreflexive(a.skip(1));
    }
}

/// Of two byte strings at most one comes before the other.
pub proof fn lemma_lex_asymmetric(a: Seq<u8>, b: Seq<u8>)
    ensures
        !(lex_lt(a, b) && lex_lt(b, a)),
    decreases a.len(),
{
    if a.len() > 0 && b.len() > 0 && a[0] == b[0] {
        lemma_lex_asymmetric(a.skip(1), b.skip(1));
    }
}

/// Two different byte strings are ordered one way or the other.
pub proof fn lemma_lex_total(a: Seq<u8>, b: Seq<u8>)
    ensures
        a == b || lex_lt(a, b) || lex_lt(b, a),
    decreases a.len(),
{
    if a.len() == 0 || b.len() == 0 {
        if a.len() == 0 && b.len() == 0 {
            assert(a =~= b);
        }
    } else if a[0] == b[0] {
        lemma_lex_total(a.skip(1), b.skip(1));
        if a.skip(1) == b.skip(1) {
            assert(a =~= seq![a[0]] + a.skip(1));
            assert(b =~= seq![b[0]] + b.skip(1));
        }
    }
}

/// The order is transitive.
pub proof fn lemma_lex_transitive(a: Seq<u8>, b: Seq<u8>, c: Seq<u8>)
    requires
        lex_lt(a, b),
        lex_lt(b, c),
    ensures
        lex_lt(a, c),
    decreases a.len(),
{
    if a.len() > 0 && a[0] == b[0] && b[0] == c[0] {
        lemma_lex_transitive(a.skip(1), b.skip(1), c.skip(1));
    }
}

/// Two byte strings that agree on their first `i` bytes and differ at
/// byte `i` are ordered as those two bytes are.
pub proof fn lemma_lex_first_difference(a: Seq<u8>, b: Seq<u8>, i: int)
    requires
        0 <= i < a.len(),
        i < b.len(),
        forall|j: int| 0 <= j < i ==> a[j] == b[j],
        a[i] < b[i],
    ensures
        lex_lt(a, b),
    decreases i,
{
    if i > 0 {
        assert(a[0] == b[0]);
        assert forall|j: int| 0 <= j < i - 1 implies a.skip(1)[j] == b.skip(1)[j] by {
            assert(a[j + 1] == b[j + 1]);
        }
        lemma_lex_first_difference(a.skip(1), b.skip(1), i - 1);
    }
}

/// Big-endian encodings are ordered as the numbers they encode: the key
/// order of a log keyed by sequence number is the order of appending.
pub proof fn lemma_u64_be_order(a: u64, b: u64)
    ensures
        lex_lt(u64_be(a), u64_be(b)) <==> a < b,
        u64_be(a) == u64_be(b) <==> a == b,
{
    lemma_u64_be_round_trip(a);
    lemma_u64_be_round_trip(b);
    if a < b {
        lemma_u64_be_lt(a, b);
    } else if b < a {
        lemma_u64_be_lt(b, a);
        lemma_lex_asymmetric(u64_be(a), u64_be(b));
    } else {
        lemma_lex_irreflexive(u64_be(a));
    }
}

proof fn lemma_u64_be_lt(a: u64, b: u64)
    requires
        a < b,
    ensures
        lex_lt(u64_be(a), u64_be(b)),
{
    let s = u64_be(a);
    let t = u64_be(b);
    lemma_u64_be_round_trip(a);
    lemma_u64_be_round_trip(b);
    let i = choose|i: int| 0 <= i < 8 && s[i] != t[i] && forall|j: int| 0 <= j < i ==> s[j] == t[j];
    assert(exists|i: int| 0 <= i < 8 && s[i] != t[i] && forall|j: int| 0 <= j < i ==> s[j] == t[j])
        by {
        if s[0] != t[0] {
            assert(0 <= 0 < 8 && s[0] != t[0] && forall|j: int| 0 <= j < 0 ==> s[j] == t[j]);
        } else if s[1] != t[1] {
            assert(0 <= 1 < 8 && s[1] != t[1] && forall|j: int| 0 <= j < 1 ==> s[j] == t[j]);
        } else if s[2] != t[2] {
            assert(0 <= 2 < 8 && s[2] != t[2] && forall|j: int| 0 <= j < 2 ==> s[j] == t[j]);
        } else if s[3] != t[3] {
            assert(0 <= 3 < 8 && s[3] != t[3] && forall|j: int| 0 <= j < 3 ==> s[j] == t[j]);
        } else if s[4] != t[4] {
            assert(0 <= 4 < 8 && s[4] != t[4] && forall|j: int| 0 <= j < 4 ==> s[j] == t[j]);
        } else if s[5] != t[5] {
            assert(0 <= 5 < 8 && s[5] != t[5] && forall|j: int| 0 <= j < 5 ==> s[j] == t[j]);
        } else if s[6] != t[6] {
            assert(0 <= 6 < 8 && s[6] != t[6] && forall|j: int| 0 <= j < 6 ==> s[j] == t[j]);
        } else {
            assert(s[7] != t[7]);
            assert(0 <= 7 < 8 && s[7] != t[7] && forall|j: int| 0 <= j < 7 ==> s[j] == t[j]);
        }
    }
    assert(s[i] < t[i]);
    lemma_lex_first_difference(s, t, i);
}

} // verus!
