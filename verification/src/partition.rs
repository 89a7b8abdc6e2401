//! The model of one partition of the event log: a map from keys to
//! records, read in the lexicographic order of its keys.

use vstd::prelude::*;
use crate::bytes::u64_be;
use crate::order::{
    lex_lt, lex_le, lemma_lex_asymmetric, lemma_lex_irreflexive, lemma_lex_total,
    lemma_lex_transitive, lemma_u64_be_order,
};

verus! {

/// What one partition holds: its records by key.
pub type Records = Map<Seq<u8>, Seq<u8>>;

/// `k` is a key of `t` that no other key of `t` comes after.
pub open spec fn is_greatest(t: Records, k: Seq<u8>) -> bool {
    &&& t.contains_key(k)
    &&& forall|other: Seq<u8>| #[trigger] t.contains_key(other) ==> lex_le(other, k)
}

/// `t` has a last key.
pub open spec fn has_greatest(t: Records) -> bool {
    exists|k: Seq<u8>| is_greatest(t, k)
}

/// The last key of `t`, where it has one.
pub open spec fn greatest_key(t: Records) -> Seq<u8> {
    choose|k: Seq<u8>| is_greatest(t, k)
}

/// The part of `t` whose keys come strictly before `bound`.
pub open spec fn below(t: Records, bound: Seq<u8>) -> Records {
    t.restrict(Set::new(|k: Seq<u8>| lex_lt(k, bound)))
}

/// The part of `t` whose keys come before `bound` or are `bound`.
pub open spec fn up_to(t: Records, bound: Seq<u8>) -> Records {
    t.restrict(Set::new(|k: Seq<u8>| lex_le(k, bound)))
}

/// `t` holds nothing.
pub open spec fn is_vacant(t: Records) -> bool {
    forall|k: Seq<u8>| !t.contains_key(k)
}

/// The records under the last `n` keys of `t`, the last key's first.
/// Where `t` has fewer than `n` keys, all of its records.
pub open spec fn tail(t: Records, n: nat) -> Seq<Seq<u8>>
    decreases n,
{
    if n == 0 || !has_greatest(t) {
        Seq::empty()
    } else {
        let k = greatest_key(t);
        seq![t[k]] + tail(t.remove(k), (n - 1) as nat)
    }
}

/// `t` after the records `recs` were stored, one after the other, under the
/// big-endian encodings of `ids`.
pub open spec fn appended(t: Records, ids: Seq<u64>, recs: Seq<Seq<u8>>) -> Records
    recommends
        ids.len() == recs.len(),
    decreases ids.len(),
{
    if ids.len() == 0 || recs.len() == 0 {
        t
    } else {
        appended(t, ids.drop_last(), recs.drop_last()).insert(u64_be(ids.last()), recs.last())
    }
}

/// Every key of `t` comes strictly before the encoding of `id`.
pub open spec fn keys_below(t: Records, id: u64) -> bool {
    forall|k: Seq<u8>| #[trigger] t.contains_key(k) ==> lex_lt(k, u64_be(id))
}

/// Each number of `ids` is greater than the one before it.
pub open spec fn strictly_increasing(ids: Seq<u64>) -> bool {
    forall|i: int, j: int| 0 <= i < j < ids.len() ==> ids[i] < ids[j]
}

/// A partition has at most one last key.
pub proof fn lemma_greatest_unique(t: Records, k: Seq<u8>)
    requires
        is_greatest(t, k),
    ensures
        has_greatest(t),
        greatest_key(t) == k,
{
    let g = greatest_key(t);
    assert(is_greatest(t, g));
    assert(t.contains_key(g) && t.contains_key(k));
    assert(lex_le(g, k) && lex_le(k, g));
    lemma_lex_asymmetric(g, k);
}

/// A partition that holds nothing has nothing to read.
pub proof fn lemma_tail_of_vacant(t: Records, n: nat)
    requires
        is_vacant(t),
    ensures
        tail(t, n) == Seq::<Seq<u8>>::empty(),
{
    if has_greatest(t) {
        let g = greatest_key(t);
        assert(t.contains_key(g));
    }
}

/// Reading from the last key: its record comes first, then what is read
/// from the keys before it.
pub proof fn lemma_tail_step(t: Records, k: Seq<u8>, n: nat)
    requires
        is_greatest(t, k),
        n > 0,
    ensures
        tail(t, n) == seq![t[k]] + tail(below(t, k), (n - 1) as nat),
{
    lemma_greatest_unique(t, k);
    assert forall|x: Seq<u8>| t.remove(k).contains_key(x) <==> below(t, k).contains_key(x) by {
        if t.contains_key(x) {
            lemma_lex_irreflexive(k);
            assert(lex_le(x, k));
        }
    }
    assert(t.remove(k) =~= below(t, k));
}

/// The keys before `k` are the keys up to the last key before `k`.
pub proof fn lemma_below_is_up_to(t: Records, k: Seq<u8>, prev: Seq<u8>)
    requires
        is_greatest(below(t, k), prev),
    ensures
        below(t, k) == up_to(t, prev),
        is_greatest(up_to(t, prev), prev),
{
    assert(below(t, k).contains_key(prev));
    assert(lex_lt(prev, k));
    assert forall|x: Seq<u8>| below(t, k).contains_key(x) <==> up_to(t, prev).contains_key(x) by {
        if below(t, k).contains_key(x) {
            assert(lex_le(x, prev));
        }
        if up_to(t, prev).contains_key(x) {
            if x != prev {
                lemma_lex_transitive(x, prev, k);
            }
        }
    }
    assert(below(t, k) =~= up_to(t, prev));
}

/// The whole of a partition is what lies up to its last key.
pub proof fn lemma_whole_is_up_to(t: Records, k: Seq<u8>)
    requires
        is_greatest(t, k),
    ensures
        t == up_to(t, k),
{
    assert(t =~= up_to(t, k));
}

/// Storing a record under a key that comes after every key of the
/// partition makes that key the last.
pub proof fn lemma_insert_after_all(t: Records, id: u64, rec: Seq<u8>)
    requires
        keys_below(t, id),
    ensures
        is_greatest(t.insert(u64_be(id), rec), u64_be(id)),
        below(t.insert(u64_be(id), rec), u64_be(id)) == t,
        !t.contains_key(u64_be(id)),
{
    let k = u64_be(id);
    lemma_lex_irreflexive(k);
    assert(below(t.insert(k, rec), k) =~= t);
}

/// Appending under increasing numbers keeps every key below the next number.
pub proof fn lemma_appended_keys_below(t: Records, ids: Seq<u64>, recs: Seq<Seq<u8>>, next: u64)
    requires
        ids.len() == recs.len(),
        strictly_increasing(ids),
        keys_below(t, next),
        forall|i: int| 0 <= i < ids.len() ==> ids[i] < next,
    ensures
        keys_below(appended(t, ids, recs), next),
    decreases ids.len(),
{
    if ids.len() > 0 {
        lemma_appended_keys_below(t, ids.drop_last(), recs.drop_last(), next);
        lemma_u64_be_order(ids.last(), next);
    }
}

/// Events appended to a partition are read back in the reverse order of
/// appending: after `recs` were stored under increasing sequence numbers
/// that all come after the keys the partition held, the last `recs.len()`
/// records are `recs` reversed.
pub proof fn law_read_last_reverses_appends(t: Records, ids: Seq<u64>, recs: Seq<Seq<u8>>)
    requires
        ids.len() == recs.len(),
        strictly_increasing(ids),
        ids.len() > 0 ==> keys_below(t, ids[0]),
    ensures
        tail(appended(t, ids, recs), recs.len()) == recs.reverse(),
    decreases ids.len(),
{
    if ids.len() == 0 {
        assert(recs.reverse() =~= Seq::<Seq<u8>>::empty());
    } else {
        let ids0 = ids.drop_last();
        let recs0 = recs.drop_last();
        let id = ids.last();
        let before = appended(t, ids0, recs0);
        law_read_last_reverses_appends(t, ids0, recs0);
        assert(keys_below(before, id)) by {
            if ids0.len() == 0 {
            } else {
                assert forall|k: Seq<u8>| t.contains_key(k) implies lex_lt(k, u64_be(id)) by {
                    lemma_u64_be_order(ids[0], id);
                    lemma_lex_transitive(k, u64_be(ids[0]), u64_be(id));
                }
                lemma_appended_keys_below(t, ids0, recs0, id);
            }
        }
        lemma_insert_after_all(before, id, recs.last());
        lemma_tail_step(before.insert(u64_be(id), recs.last()), u64_be(id), recs.len());
        assert(recs.reverse() =~= seq![recs.last()] + recs0.reverse());
    }
}

/// What is read after appending, for every number of records asked for:
/// after `recs` were stored under increasing sequence numbers that all
/// come after the keys the partition held, the last `n` records are the
/// last `n` of `recs`, the newest first; and where more are asked for than
/// were appended, all of `recs` reversed, and then what the partition held
/// before, as far as it is asked for. Nothing is skipped and nothing comes
/// twice.
pub proof fn law_read_last_after_appends(t: Records, ids: Seq<u64>, recs: Seq<Seq<u8>>, n: nat)
    requires
        ids.len() == recs.len(),
        strictly_increasing(ids),
        ids.len() > 0 ==> keys_below(t, ids[0]),
    ensures
        tail(appended(t, ids, recs), n) == if n <= recs.len() {
            recs.reverse().take(n as int)
        } else {
            recs.reverse() + tail(t, (n - recs.len()) as nat)
        },
    decreases ids.len(),
{
    if ids.len() == 0 {
        assert(recs.reverse() =~= Seq::<Seq<u8>>::empty());
        if n == 0 {
            assert(recs.reverse().take(0) =~= tail(t, 0));
        } else {
            assert(recs.reverse() + tail(t, n) =~= tail(t, n));
        }
    } else if n == 0 {
        assert(recs.reverse().take(0) =~= Seq::<Seq<u8>>::empty());
    } else {
        let ids0 = ids.drop_last();
        let recs0 = recs.drop_last();
        let id = ids.last();
        let before = appended(t, ids0, recs0);
        law_read_last_after_appends(t, ids0, recs0, (n - 1) as nat);
        assert(keys_below(before, id)) by {
            if ids0.len() > 0 {
                assert forall|k: Seq<u8>| t.contains_key(k) implies lex_lt(k, u64_be(id)) by {
                    lemma_u64_be_order(ids[0], id);
                    lemma_lex_transitive(k, u64_be(ids[0]), u64_be(id));
                }
                lemma_appended_keys_below(t, ids0, recs0, id);
            }
        }
        lemma_insert_after_all(before, id, recs.last());
        lemma_tail_step(before.insert(u64_be(id), recs.last()), u64_be(id), n);
        assert(recs.reverse() =~= seq![recs.last()] + recs0.reverse());
        if n <= recs.len() {
            assert(recs.reverse().take(n as int) =~= seq![recs.last()] + recs0.reverse().take(
                n - 1,
            ));
        } else {
            assert(recs.reverse() + tail(t, (n - recs.len()) as nat) =~= seq![recs.last()] + (
            recs0.reverse() + tail(t, (n - 1 - recs0.len()) as nat)));
        }
    }
}

/// Asking for more records than a partition holds gives all of them and
/// nothing else: what is read is as long as the smaller of the two
/// numbers, each record read is one of the partition's, and where at
/// least as many are asked for as the partition holds, each of its records
/// is read.
pub proof fn law_read_last_is_bounded(t: Records, n: nat)
    requires
        t.dom().finite(),
    ensures
        tail(t, n).len() == if n <= t.dom().len() {
            n
        } else {
            t.dom().len()
        },
        forall|i: int| 0 <= i < tail(t, n).len() ==> t.values().contains(#[trigger] tail(t, n)[i]),
        n >= t.dom().len() ==> forall|k: Seq<u8>| #[trigger]
            t.contains_key(k) ==> tail(t, n).contains(t[k]),
    decreases n,
{
    if n > 0 {
        if has_greatest(t) {
            let k = greatest_key(t);
            assert(is_greatest(t, k));
            law_read_last_is_bounded(t.remove(k), (n - 1) as nat);
            let rest = tail(t.remove(k), (n - 1) as nat);
            assert forall|i: int| 0 <= i < tail(t, n).len() implies t.values().contains(
                #[trigger] tail(t, n)[i],
            ) by {
                if i == 0 {
                    assert(t.contains_key(k));
                } else {
                    let v = rest[i - 1];
                    assert(t.remove(k).values().contains(v));
                    let key = choose|key: Seq<u8>| t.remove(k).contains_key(key) && t.remove(k)[key] == v;
                    assert(t.contains_key(key) && t[key] == v);
                }
            }
            if n >= t.dom().len() {
                assert forall|other: Seq<u8>| #[trigger] t.contains_key(other) implies tail(
                    t,
                    n,
                ).contains(t[other]) by {
                    if other == k {
                        assert(tail(t, n)[0] == t[k]);
                    } else {
                        assert(t.remove(k).contains_key(other));
                        assert(rest.contains(t.remove(k)[other]));
                        let at = choose|at: int| 0 <= at < rest.len() && rest[at] == t[other];
                        assert(tail(t, n)[at + 1] == t[other]);
                    }
                }
            }
        } else {
            lemma_finite_has_greatest(t);
        }
    } else {
        if t.dom().len() == 0 {
            assert forall|k: Seq<u8>| #[trigger] t.contains_key(k) implies tail(t, n).contains(
                t[k],
            ) by {
                assert(t.dom().contains(k));
            }
        }
    }
}

/// A finite partition that holds something has a last key.
pub proof fn lemma_finite_has_greatest(t: Records)
    requires
        t.dom().finite(),
    ensures
        t.dom().len() > 0 ==> has_greatest(t),
        has_greatest(t) ==> t.dom().len() > 0,
    decreases t.dom().len(),
{
    if has_greatest(t) {
        let g = greatest_key(t);
        assert(t.dom().contains(g));
    }
    if t.dom().len() > 0 {
        let x = t.dom().choose();
        let rest = t.remove(x);
        assert(rest.dom() =~= t.dom().remove(x));
        if rest.dom().len() > 0 {
            lemma_finite_has_greatest(rest);
            let g = greatest_key(rest);
            assert(is_greatest(rest, g));
            lemma_lex_total(x, g);
            if lex_lt(g, x) {
                assert forall|other: Seq<u8>| #[trigger] t.contains_key(other) implies lex_le(
                    other,
                    x,
                ) by {
                    if other != x {
                        assert(rest.contains_key(other));
                        if other != g {
                            lemma_lex_transitive(other, g, x);
                        }
                    }
                }
                assert(is_greatest(t, x));
            } else {
                assert forall|other: Seq<u8>| #[trigger] t.contains_key(other) implies lex_le(
                    other,
                    g,
                ) by {
                    if other != x {
                        assert(rest.contains_key(other));
                    }
                }
                assert(rest.contains_key(g));
                assert(is_greatest(t, g));
            }
        } else {
            assert forall|other: Seq<u8>| #[trigger] t.contains_key(other) implies lex_le(
                other,
                x,
            ) by {
                if other != x {
                    assert(rest.dom().contains(other));
                }
            }
            assert(is_greatest(t, x));
        }
    }
}

} // verus!
