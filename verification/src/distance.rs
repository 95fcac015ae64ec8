//! Levenshtein edit distance over character sequences.
//!
//! The distance between two keys is the minimum number of single-character
//! insertions, deletions and substitutions (each of cost 1) turning one into
//! the other. The Approximate Index retrieves every stored key within a
//! caller-chosen bound of a query key; the bound is a parameter throughout,
//! never hard-coded.

use vstd::prelude::*;

verus! {

/// Minimum of three naturals.
pub open spec fn min3(x: nat, y: nat, z: nat) -> nat {
    if x <= y && x <= z {
        x
    } else if y <= z {
        y
    } else {
        z
    }
}

/// Maximum of two naturals.
pub open spec fn max2(x: nat, y: nat) -> nat {
    if x >= y {
        x
    } else {
        y
    }
}

/// The Levenshtein edit distance between `a` and `b`: insertion, deletion
/// and substitution each cost 1.
pub open spec fn edit_dist(a: Seq<char>, b: Seq<char>) -> nat
    decreases a.len() + b.len(),
{
    if a.len() == 0 {
        b.len()
    } else if b.len() == 0 {
        a.len()
    } else {
        let sub_cost: nat = if a.last() == b.last() {
            0
        } else {
            1
        };
        min3(
            edit_dist(a.drop_last(), b) + 1,
            edit_dist(a, b.drop_last()) + 1,
            edit_dist(a.drop_last(), b.drop_last()) + sub_cost,
        )
    }
}

/// The distance never exceeds the longer input's length.
pub proof fn lemma_edit_dist_le_max(a: Seq<char>, b: Seq<char>)
    ensures
        edit_dist(a, b) <= max2(a.len(), b.len()),
    decreases a.len() + b.len(),
{
    if a.len() > 0 && b.len() > 0 {
        lemma_edit_dist_le_max(a.drop_last(), b.drop_last());
    }
}

/// One cell of the standard dynamic program: the distance between prefixes
/// `a[..i]` and `b[..j]` follows from the three neighbouring cells.
proof fn lemma_edit_dist_step(a: Seq<char>, b: Seq<char>, i: int, j: int)
    requires
        1 <= i <= a.len(),
        1 <= j <= b.len(),
    ensures
        edit_dist(a.take(i), b.take(j)) == min3(
            edit_dist(a.take(i - 1), b.take(j)) + 1,
            edit_dist(a.take(i), b.take(j - 1)) + 1,
            edit_dist(a.take(i - 1), b.take(j - 1)) + (if a[i - 1] == b[j - 1] {
                0nat
            } else {
                1nat
            }),
        ),
{
    let x = a.take(i);
    let y = b.take(j);
    assert(x.drop_last() =~= a.take(i - 1));
    assert(y.drop_last() =~= b.take(j - 1));
    assert(x.last() == a[i - 1]);
    assert(y.last() == b[j - 1]);
}

/// Computes the Levenshtein distance between two character vectors by the
/// classic row-by-row dynamic program.
pub fn edit_distance(a: &Vec<char>, b: &Vec<char>) -> (d: usize)
    requires
        a@.len() < usize::MAX,
        b@.len() < usize::MAX,
    ensures
        d == edit_dist(a@, b@),
{
    let m = a.len();
    let n = b.len();
    let mut prev: Vec<usize> = Vec::new();
    let mut j: usize = 0;
    while j <= n
        invariant
            n == b@.len() < usize::MAX,
            0 <= j <= n + 1,
            prev@.len() == j,
            forall|k: int| 0 <= k < j ==> prev@[k] == edit_dist(a@.take(0), b@.take(k)),
        decreases n + 1 - j,
    {
        proof {
            assert(a@.take(0).len() == 0);
            assert(b@.take(j as int).len() == j);
        }
        prev.push(j);
        j = j + 1;
    }
    let mut i: usize = 1;
    while i <= m
        invariant
            m == a@.len() < usize::MAX,
            n == b@.len() < usize::MAX,
            1 <= i <= m + 1,
            prev@.len() == n + 1,
            forall|k: int| 0 <= k <= n ==> prev@[k] == edit_dist(a@.take(i - 1), b@.take(k)),
        decreases m + 1 - i,
    {
        let mut cur: Vec<usize> = Vec::new();
        proof {
            assert(b@.take(0).len() == 0);
            assert(a@.take(i as int).len() == i);
        }
        cur.push(i);
        let mut j2: usize = 1;
        while j2 <= n
            invariant
                m == a@.len() < usize::MAX,
                n == b@.len() < usize::MAX,
                1 <= i <= m,
                1 <= j2 <= n + 1,
                prev@.len() == n + 1,
                forall|k: int| 0 <= k <= n ==> prev@[k] == edit_dist(a@.take(i - 1), b@.take(k)),
                cur@.len() == j2,
                forall|k: int| 0 <= k < j2 ==> cur@[k] == edit_dist(a@.take(i as int), b@.take(k)),
            decreases n + 1 - j2,
        {
            let cost: usize = if a[i - 1] == b[j2 - 1] {
                0
            } else {
                1
            };
            proof {
                lemma_edit_dist_le_max(a@.take(i - 1), b@.take(j2 as int));
                lemma_edit_dist_le_max(a@.take(i as int), b@.take(j2 - 1));
                lemma_edit_dist_le_max(a@.take(i - 1), b@.take(j2 - 1));
            }
            let d1 = prev[j2] + 1;
            let d2 = cur[j2 - 1] + 1;
            let d3 = prev[j2 - 1] + cost;
            let mut d = d1;
            if d2 < d {
                d = d2;
            }
            if d3 < d {
                d = d3;
            }
            proof {
                lemma_edit_dist_step(a@, b@, i as int, j2 as int);
            }
            cur.push(d);
            j2 = j2 + 1;
        }
        prev = cur;
        i = i + 1;
    }
    proof {
        assert(a@.take(m as int) =~= a@);
        assert(b@.take(n as int) =~= b@);
    }
    prev[n]
}

/// Converts a string slice to the vector of its characters.
pub fn str_to_chars(s: &str) -> (v: Vec<char>)
    ensures
        v@ == s@,
{
    let len = s.unicode_len();
    let mut v: Vec<char> = Vec::new();
    let mut i: usize = 0;
    while i < len
        invariant
            0 <= i <= len,
            len == s@.len(),
            v@ == s@.take(i as int),
        decreases len - i,
    {
        let c = s.get_char(i);
        v.push(c);
        proof {
            assert(s@.take(i + 1 as int) =~= s@.take(i as int).push(s@[i as int]));
        }
        i = i + 1;
    }
    proof {
        assert(s@.take(len as int) =~= s@);
    }
    v
}

/// Decides whether two strings are within `max_distance` edits of each other.
pub fn within_edit_distance(a: &str, b: &str, max_distance: usize) -> (r: bool)
    requires
        a@.len() < usize::MAX,
        b@.len() < usize::MAX,
    ensures
        r == (edit_dist(a@, b@) <= max_distance),
{
    let av = str_to_chars(a);
    let bv = str_to_chars(b);
    let d = edit_distance(&av, &bv);
    d <= max_distance
}

} // verus!
