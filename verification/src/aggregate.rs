//! Duplicate Aggregator: turns collected per-field matches into confirmed
//! duplicates.
//!
//! Text-matching mode applies the agreement threshold: a matched record is
//! confirmed the moment it has been seen a second time across the
//! concatenated per-column match lists — it must have agreed on at least two
//! distinct fields. A single-column dataset relaxes the threshold to one,
//! since two independent field agreements degenerate to one when only one
//! field exists. A record matching the same base record on two different
//! columns counts twice toward the threshold; per-column lists hold each
//! record at most once, so the two readings coincide. Self-matches are
//! dropped before counting: a record never duplicates itself.

use vstd::prelude::*;
use crate::seqs::{spec_count, distinct_seq, lemma_count_contains};

verus! {

/// All the given match lists, laid end to end in column order.
pub open spec fn concat_all(lists: Seq<Seq<usize>>) -> Seq<usize>
    decreases lists.len(),
{
    if lists.len() == 0 {
        Seq::empty()
    } else {
        concat_all(lists.drop_last()) + lists.last()
    }
}

/// `s` with every occurrence of `x` removed, order otherwise kept.
pub open spec fn remove_all(s: Seq<usize>, x: usize) -> Seq<usize>
    decreases s.len(),
{
    if s.len() == 0 {
        s
    } else if s.last() == x {
        remove_all(s.drop_last(), x)
    } else {
        remove_all(s.drop_last(), x).push(s.last())
    }
}

/// The agreement threshold: two distinct field agreements, or one for a
/// single-column dataset.
pub open spec fn threshold_for(num_columns: nat) -> nat {
    if num_columns == 1 {
        1nat
    } else {
        2nat
    }
}

/// The confirmed duplicates of a match sequence under threshold `t`: an
/// identity enters the result at the position where its running occurrence
/// count reaches `t`, so the result keeps first-confirmation order and holds
/// each identity at most once.
pub open spec fn confirmed_ids(s: Seq<usize>, t: nat) -> Seq<usize>
    decreases s.len(),
{
    if s.len() == 0 {
        Seq::empty()
    } else {
        let prev = confirmed_ids(s.drop_last(), t);
        if spec_count(s, s.last()) == t {
            prev.push(s.last())
        } else {
            prev
        }
    }
}

/// Removing `x` zeroes its count and leaves every other count unchanged.
pub proof fn lemma_count_remove_all(s: Seq<usize>, x: usize, y: usize)
    ensures
        spec_count(remove_all(s, x), y) == if y == x {
            0nat
        } else {
            spec_count(s, y)
        },
    decreases s.len(),
{
    if s.len() > 0 {
        lemma_count_remove_all(s.drop_last(), x, y);
        if s.last() != x {
            assert(remove_all(s, x).drop_last() =~= remove_all(s.drop_last(), x));
        }
    }
}

/// An identity is confirmed exactly when it occurs at least `t` times.
pub proof fn lemma_confirmed_contains(s: Seq<usize>, t: nat, x: usize)
    requires
        t >= 1,
    ensures
        confirmed_ids(s, t).contains(x) <==> spec_count(s, x) >= t,
    decreases s.len(),
{
    if s.len() > 0 {
        lemma_confirmed_contains(s.drop_last(), t, x);
        let prev = confirmed_ids(s.drop_last(), t);
        let cur = confirmed_ids(s, t);
        if spec_count(s, s.last()) == t {
            assert(cur == prev.push(s.last()));
            if x == s.last() {
                assert(cur[cur.len() - 1] == x);
                assert(cur.contains(x));
            } else {
                assert(spec_count(s, x) == spec_count(s.drop_last(), x));
                assert(cur.contains(x) <==> prev.contains(x)) by {
                    if cur.contains(x) {
                        let i = choose|i: int| 0 <= i < cur.len() && cur[i] == x;
                        assert(i < prev.len());
                        assert(prev[i] == x);
                    }
                    if prev.contains(x) {
                        let i = choose|i: int| 0 <= i < prev.len() && prev[i] == x;
                        assert(cur[i] == x);
                    }
                }
            }
        } else {
            assert(cur == prev);
            if x == s.last() {
                assert(spec_count(s, x) == spec_count(s.drop_last(), x) + 1);
                if spec_count(s, x) > t {
                    assert(spec_count(s.drop_last(), x) >= t);
                } else {
                    assert(spec_count(s, x) < t);
                    assert(spec_count(s.drop_last(), x) < t);
                }
            } else {
                assert(spec_count(s, x) == spec_count(s.drop_last(), x));
            }
        }
    }
}

/// The confirmed list holds each identity at most once.
pub proof fn lemma_confirmed_distinct(s: Seq<usize>, t: nat)
    requires
        t >= 1,
    ensures
        distinct_seq(confirmed_ids(s, t)),
    decreases s.len(),
{
    if s.len() > 0 {
        lemma_confirmed_distinct(s.drop_last(), t);
        let prev = confirmed_ids(s.drop_last(), t);
        let cur = confirmed_ids(s, t);
        if spec_count(s, s.last()) == t {
            assert(spec_count(s.drop_last(), s.last()) == t - 1);
            lemma_confirmed_contains(s.drop_last(), t, s.last());
            assert(!prev.contains(s.last()));
            assert forall|p1: int, p2: int| 0 <= p1 < p2 < cur.len() implies cur[p1] != cur[p2] by {
                if p2 == cur.len() - 1 {
                    if cur[p1] == s.last() {
                        assert(prev[p1] == s.last());
                        assert(prev.contains(s.last()));
                    }
                } else {
                    assert(prev[p1] == cur[p1] && prev[p2] == cur[p2]);
                }
            }
        }
    }
}

/// A record never appears as its own duplicate: once self-matches are
/// dropped, the record under test cannot be confirmed.
pub proof fn lemma_self_never_confirmed(s: Seq<usize>, self_id: usize, t: nat)
    requires
        t >= 1,
    ensures
        !confirmed_ids(remove_all(s, self_id), t).contains(self_id),
{
    lemma_count_remove_all(s, self_id, self_id);
    lemma_confirmed_contains(remove_all(s, self_id), t, self_id);
}

/// Dropping one list from a concatenation accounts for exactly that list's
/// occurrences.
pub proof fn lemma_concat_all_remove(lists: Seq<Seq<usize>>, c: int, id: usize)
    requires
        0 <= c < lists.len(),
    ensures
        spec_count(concat_all(lists), id) == spec_count(concat_all(lists.remove(c)), id)
            + spec_count(lists[c], id),
    decreases lists.len(),
{
    crate::seqs::lemma_count_concat(concat_all(lists.drop_last()), lists.last(), id);
    if c == lists.len() - 1 {
        assert(lists.remove(c) =~= lists.drop_last());
    } else {
        lemma_concat_all_remove(lists.drop_last(), c, id);
        assert(lists.remove(c).drop_last() =~= lists.drop_last().remove(c));
        assert(lists.remove(c).last() == lists.last());
        crate::seqs::lemma_count_concat(concat_all(lists.remove(c).drop_last()), lists.last(), id);
    }
}

/// Whoever is confirmed under threshold `t` in the smaller sequence is
/// confirmed in the larger one, counts compared pointwise.
pub proof fn lemma_threshold_monotonic(s_small: Seq<usize>, s_large: Seq<usize>, t: nat)
    requires
        t >= 1,
        forall|id: usize| #[trigger] spec_count(s_small, id) <= spec_count(s_large, id),
    ensures
        forall|id: usize|
            #[trigger] confirmed_ids(s_small, t).contains(id) ==> confirmed_ids(
                s_large,
                t,
            ).contains(id),
{
    assert forall|id: usize| #[trigger] confirmed_ids(s_small, t).contains(id) implies confirmed_ids(
        s_large,
        t,
    ).contains(id) by {
        lemma_confirmed_contains(s_small, t, id);
        lemma_confirmed_contains(s_large, t, id);
    }
}

/// Threshold monotonicity: for a fixed query, removing one column's match
/// list — the self-match exclusion applied on both sides, the agreement
/// threshold held fixed — can only shrink the confirmed-duplicate set. (The
/// threshold itself drops only when a two-column dataset becomes
/// single-column; that relaxation is why the threshold is a parameter here.)
pub proof fn lemma_removing_column_shrinks_confirmed(
    lists: Seq<Seq<usize>>,
    c: int,
    self_id: usize,
    t: nat,
)
    requires
        0 <= c < lists.len(),
        t >= 1,
    ensures
        forall|id: usize|
            #[trigger] confirmed_ids(remove_all(concat_all(lists.remove(c)), self_id), t).contains(
                id,
            ) ==> confirmed_ids(remove_all(concat_all(lists), self_id), t).contains(id),
{
    assert forall|id: usize|
        #[trigger] spec_count(remove_all(concat_all(lists.remove(c)), self_id), id) <= spec_count(
            remove_all(concat_all(lists), self_id),
            id,
        ) by {
        lemma_count_remove_all(concat_all(lists.remove(c)), self_id, id);
        lemma_count_remove_all(concat_all(lists), self_id, id);
        lemma_concat_all_remove(lists, c, id);
    }
    lemma_threshold_monotonic(
        remove_all(concat_all(lists.remove(c)), self_id),
        remove_all(concat_all(lists), self_id),
        t,
    );
}

/// Drops every occurrence of `x` from `v`, keeping the order.
pub fn remove_matches_of(v: &Vec<usize>, x: usize) -> (r: Vec<usize>)
    ensures
        r@ == remove_all(v@, x),
{
    let mut r: Vec<usize> = Vec::new();
    let mut i: usize = 0;
    while i < v.len()
        invariant
            0 <= i <= v@.len(),
            r@ == remove_all(v@.take(i as int), x),
        decreases v@.len() - i,
    {
        proof {
            assert(v@.take(i + 1 as int).drop_last() =~= v@.take(i as int));
            assert(v@.take(i + 1 as int).last() == v@[i as int]);
        }
        if v[i] != x {
            r.push(v[i]);
        }
        i = i + 1;
    }
    proof {
        assert(v@.take(v@.len() as int) =~= v@);
    }
    r
}

/// Counts the occurrences of `x` in the first `upto` positions of `v`.
fn count_prefix(v: &Vec<usize>, upto: usize, x: usize) -> (r: usize)
    requires
        upto <= v@.len(),
    ensures
        r == spec_count(v@.take(upto as int), x),
{
    let mut r: usize = 0;
    let mut i: usize = 0;
    while i < upto
        invariant
            0 <= i <= upto <= v@.len(),
            r == spec_count(v@.take(i as int), x),
            r <= i,
        decreases upto - i,
    {
        proof {
            assert(v@.take(i + 1 as int).drop_last() =~= v@.take(i as int));
            assert(v@.take(i + 1 as int).last() == v@[i as int]);
        }
        if v[i] == x {
            r = r + 1;
        }
        i = i + 1;
    }
    r
}

/// Applies the aggregator to one comparison record's collected matches:
/// drops self-matches (`self_id` is the record's own identity in the base
/// set, where the base set is also the comparison set), then promotes each
/// identity the moment its running match count reaches the agreement
/// threshold for `num_columns`. The result keeps first-confirmation order,
/// holds each identity at most once, and never holds `self_id`.
pub fn confirm_duplicates(matches: &Vec<usize>, self_id: Option<usize>, num_columns: usize) -> (r:
    Vec<usize>)
    requires
        num_columns >= 1,
    ensures
        r@ == confirmed_ids(
            match self_id {
                Some(id) => remove_all(matches@, id),
                None => matches@,
            },
            threshold_for(num_columns as nat),
        ),
        forall|id: usize|
            #[trigger] r@.contains(id) <==> ((self_id is Some ==> id != self_id->0) && spec_count(
                match self_id {
                    Some(s) => remove_all(matches@, s),
                    None => matches@,
                },
                id,
            ) >= threshold_for(num_columns as nat)),
        self_id is Some ==> !r@.contains(self_id->0),
        distinct_seq(r@),
{
    proof {
        let filtered_spec = match self_id {
            Some(s) => remove_all(matches@, s),
            None => matches@,
        };
        let t = threshold_for(num_columns as nat);
        assert forall|id: usize|
            #[trigger] confirmed_ids(filtered_spec, t).contains(id) <==> ((self_id is Some
                ==> id != self_id->0) && spec_count(filtered_spec, id) >= t) by {
            lemma_confirmed_contains(filtered_spec, t, id);
            if self_id is Some && id == self_id->0 {
                lemma_count_remove_all(matches@, self_id->0, id);
            }
        }
    }
    let filtered: Vec<usize> = match self_id {
        Some(id) => remove_matches_of(matches, id),
        None => {
            let mut copy: Vec<usize> = Vec::new();
            let mut i: usize = 0;
            while i < matches.len()
                invariant
                    0 <= i <= matches@.len(),
                    copy@ == matches@.take(i as int),
                decreases matches@.len() - i,
            {
                copy.push(matches[i]);
                proof {
                    assert(matches@.take(i + 1 as int) =~= matches@.take(i as int).push(
                        matches@[i as int],
                    ));
                }
                i = i + 1;
            }
            proof {
                assert(matches@.take(matches@.len() as int) =~= matches@);
            }
            copy
        },
    };
    let threshold: usize = if num_columns == 1 {
        1
    } else {
        2
    };
    let mut r: Vec<usize> = Vec::new();
    let mut p: usize = 0;
    while p < filtered.len()
        invariant
            0 <= p <= filtered@.len(),
            threshold == threshold_for(num_columns as nat),
            threshold >= 1,
            r@ == confirmed_ids(filtered@.take(p as int), threshold as nat),
        decreases filtered@.len() - p,
    {
        let x = filtered[p];
        let cnt = count_prefix(&filtered, p + 1, x);
        proof {
            assert(filtered@.take(p + 1 as int).drop_last() =~= filtered@.take(p as int));
            assert(filtered@.take(p + 1 as int).last() == filtered@[p as int]);
        }
        if cnt == threshold {
            r.push(x);
        }
        p = p + 1;
    }
    proof {
        assert(filtered@.take(filtered@.len() as int) =~= filtered@);
        if self_id is Some {
            lemma_self_never_confirmed(matches@, self_id->0, threshold as nat);
        }
        lemma_confirmed_distinct(filtered@, threshold as nat);
    }
    r
}

} // verus!
