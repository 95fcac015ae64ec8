//! Shared facts about sequences of record identities: occurrence counts,
//! distinctness, and how both behave under concatenation.

use vstd::prelude::*;

verus! {

/// How many positions of `s` hold `x`.
pub open spec fn spec_count(s: Seq<usize>, x: usize) -> nat
    decreases s.len(),
{
    if s.len() == 0 {
        0
    } else {
        spec_count(s.drop_last(), x) + (if s.last() == x {
            1nat
        } else {
            0nat
        })
    }
}

/// No identity occurs twice in `s`.
pub open spec fn distinct_seq(s: Seq<usize>) -> bool {
    forall|p1: int, p2: int| 0 <= p1 < p2 < s.len() ==> s[p1] != s[p2]
}

/// An identity occurs in `s` exactly when its count is positive.
pub proof fn lemma_count_contains(s: Seq<usize>, x: usize)
    ensures
        s.contains(x) <==> spec_count(s, x) >= 1,
    decreases s.len(),
{
    if s.len() > 0 {
        lemma_count_contains(s.drop_last(), x);
        if s.contains(x) {
            let i = choose|i: int| 0 <= i < s.len() && s[i] == x;
            if i < s.len() - 1 {
                assert(s.drop_last()[i] == x);
                assert(s.drop_last().contains(x));
            }
        }
        if s.drop_last().contains(x) {
            let i = choose|i: int| 0 <= i < s.drop_last().len() && s.drop_last()[i] == x;
            assert(s[i] == x);
        }
        if s.last() == x {
            assert(s.contains(x)) by {
                assert(s[s.len() - 1] == x);
            }
        }
    }
}

/// Counts add up over concatenation.
pub proof fn lemma_count_concat(a: Seq<usize>, b: Seq<usize>, x: usize)
    ensures
        spec_count(a + b, x) == spec_count(a, x) + spec_count(b, x),
    decreases b.len(),
{
    if b.len() == 0 {
        assert(a + b =~= a);
    } else {
        lemma_count_concat(a, b.drop_last(), x);
        assert((a + b).drop_last() =~= a + b.drop_last());
        assert((a + b).last() == b.last());
    }
}

/// In a distinct sequence every count is at most one.
pub proof fn lemma_distinct_count_le_one(s: Seq<usize>, x: usize)
    requires
        distinct_seq(s),
    ensures
        spec_count(s, x) <= 1,
    decreases s.len(),
{
    if s.len() > 0 {
        assert(distinct_seq(s.drop_last()));
        lemma_distinct_count_le_one(s.drop_last(), x);
        if s.last() == x && spec_count(s.drop_last(), x) >= 1 {
            lemma_count_contains(s.drop_last(), x);
            let i = choose|i: int|
                0 <= i < s.drop_last().len() && s.drop_last()[i] == x;
            assert(s[i] == x && s[s.len() - 1] == x);
            assert(false);
        }
    }
}

/// Concatenating distinct sequences with no common identity stays distinct.
pub proof fn lemma_distinct_concat(a: Seq<usize>, b: Seq<usize>)
    requires
        distinct_seq(a),
        distinct_seq(b),
        forall|x: usize| #[trigger] a.contains(x) ==> !b.contains(x),
    ensures
        distinct_seq(a + b),
{
    let c = a + b;
    assert forall|p1: int, p2: int| 0 <= p1 < p2 < c.len() implies c[p1] != c[p2] by {
        if p2 < a.len() {
        } else if p1 >= a.len() {
            assert(c[p1] == b[p1 - a.len()]);
            assert(c[p2] == b[p2 - a.len()]);
        } else {
            assert(c[p1] == a[p1]);
            assert(c[p2] == b[p2 - a.len()]);
            if c[p1] == c[p2] {
                assert(a.contains(c[p1]));
                assert(b.contains(c[p2]));
            }
        }
    }
}

} // verus!
