//! Per-Field Index Set: one Approximate Index per column of the base
//! dataset.
//!
//! Built once from the base dataset and queried record by record: each field
//! of the record under test is normalized and run against its own column's
//! index, and the per-column results are laid end to end. A base record may
//! appear once per matching column — that multiplicity is what the
//! agreement threshold of the Duplicate Aggregator counts.

use vstd::prelude::*;
use crate::aggregate::concat_all;
use crate::index::ApproximateIndex;
use crate::models::CsvData;
use crate::normalize::{norm_spec, normalize, lemma_normalize_idempotent};
use crate::seqs::{spec_count, lemma_count_contains, lemma_count_concat, lemma_distinct_count_le_one};

verus! {

/// One Approximate Index per header column of the base dataset.
pub struct PerFieldIndexSet {
    pub indexes: Vec<ApproximateIndex>,
}

impl PerFieldIndexSet {
    /// Every per-column index is well formed.
    pub open spec fn wf(self) -> bool {
        forall|c: int| 0 <= c < self.indexes@.len() ==> (#[trigger] self.indexes@[c]).wf()
    }

    /// The index set indexes `n` base records under their normalized column
    /// values: a record is registered in column `c` under exactly the
    /// normalized form of its value in that column (unless that form is
    /// empty, which is never indexed).
    pub open spec fn indexes_dataset(self, base: CsvData) -> bool {
        &&& self.indexes@.len() == base.headers@.len()
        &&& forall|c: int, key: Seq<char>, id: usize|
            0 <= c < self.indexes@.len() ==> ((#[trigger] self.indexes@[c].registered(key, id))
                <==> (key.len() > 0 && id < base.entries@.len() && norm_spec(
                base.entries@[id as int].row@[c]@,
            ) == key))
    }

    /// The per-column match lists for one record: column `c`'s list is the
    /// result of querying column `c`'s index with the record's normalized
    /// `c`-th field.
    pub open spec fn col_lists(self, row: Seq<String>, d: usize) -> Seq<Seq<usize>> {
        Seq::new(
            self.indexes@.len() as nat,
            |c: int| self.indexes@[c].query_spec(norm_spec(row[c]@), d),
        )
    }

    /// The full match sequence for one record: the per-column lists laid end
    /// to end, in column order.
    pub open spec fn match_spec(self, row: Seq<String>, d: usize) -> Seq<usize> {
        concat_all(self.col_lists(row, d))
    }

    /// How many of the first `upto` columns match record `id`.
    pub open spec fn matching_col_count(self, row: Seq<String>, d: usize, id: usize, upto: int) -> nat
        decreases upto,
    {
        if upto <= 0 {
            0nat
        } else {
            self.matching_col_count(row, d, id, upto - 1) + (if self.indexes@[upto - 1].query_spec(
                norm_spec(row[upto - 1]@),
                d,
            ).contains(id) {
                1nat
            } else {
                0nat
            })
        }
    }

    /// A record's multiplicity in the match sequence is the number of
    /// columns on which it matched: per-column lists hold a record at most
    /// once, so "seen twice" and "matched on two distinct fields" coincide.
    pub proof fn lemma_match_count(self, row: Seq<String>, d: usize, id: usize)
        requires
            self.wf(),
        ensures
            spec_count(self.match_spec(row, d), id) == self.matching_col_count(
                row,
                d,
                id,
                self.indexes@.len() as int,
            ),
    {
        self.lemma_match_count_prefix(row, d, id, self.indexes@.len() as int);
        assert(self.col_lists(row, d).take(self.indexes@.len() as int) =~= self.col_lists(row, d));
    }

    proof fn lemma_match_count_prefix(self, row: Seq<String>, d: usize, id: usize, upto: int)
        requires
            self.wf(),
            0 <= upto <= self.indexes@.len(),
        ensures
            spec_count(concat_all(self.col_lists(row, d).take(upto)), id)
                == self.matching_col_count(row, d, id, upto),
        decreases upto,
    {
        let lists = self.col_lists(row, d);
        if upto > 0 {
            self.lemma_match_count_prefix(row, d, id, upto - 1);
            assert(lists.take(upto).drop_last() =~= lists.take(upto - 1));
            assert(lists.take(upto).last() == lists[upto - 1]);
            lemma_count_concat(concat_all(lists.take(upto - 1)), lists[upto - 1], id);
            let col = self.indexes@[upto - 1].query_spec(norm_spec(row[upto - 1]@), d);
            assert(lists[upto - 1] == col);
            self.indexes@[upto - 1].lemma_query_characterization(norm_spec(row[upto - 1]@), d);
            lemma_distinct_count_le_one(col, id);
            lemma_count_contains(col, id);
        }
    }

    /// Builds one Approximate Index per header column of the base dataset,
    /// indexing every record under its normalized value in that column.
    pub fn build(base: &CsvData) -> (r: PerFieldIndexSet)
        requires
            base.wf(),
        ensures
            r.wf(),
            r.indexes_dataset(*base),
    {
        let ncols = base.headers.len();
        let n = base.entries.len();
        let mut indexes: Vec<ApproximateIndex> = Vec::new();
        let mut c: usize = 0;
        while c < ncols
            invariant
                base.wf(),
                ncols == base.headers@.len(),
                n == base.entries@.len(),
                0 <= c <= ncols,
                indexes@.len() == c,
                forall|c2: int| 0 <= c2 < c ==> (#[trigger] indexes@[c2]).wf(),
                forall|c2: int, key: Seq<char>, id: usize|
                    0 <= c2 < c ==> ((#[trigger] indexes@[c2].registered(key, id)) <==> (key.len()
                        > 0 && id < n && norm_spec(base.entries@[id as int].row@[c2]@) == key)),
            decreases ncols - c,
        {
            let mut pairs: Vec<(String, usize)> = Vec::new();
            let mut id: usize = 0;
            while id < n
                invariant
                    base.wf(),
                    ncols == base.headers@.len(),
                    n == base.entries@.len(),
                    0 <= c < ncols,
                    0 <= id <= n,
                    pairs@.len() == id,
                    forall|p: int|
                        0 <= p < id ==> (#[trigger] pairs@[p]).0@ == norm_spec(
                            base.entries@[p].row@[c as int]@,
                        ) && pairs@[p].1 == p,
                decreases n - id,
            {
                let key = normalize(base.entries[id].row[c].as_str());
                pairs.push((key, id));
                id = id + 1;
            }
            proof {
                assert forall|p: int| 0 <= p < pairs@.len() implies (#[trigger] pairs@[p].0)@
                    == norm_spec(pairs@[p].0@) by {
                    lemma_normalize_idempotent(base.entries@[p].row@[c as int]@);
                }
            }
            let index = ApproximateIndex::build(&pairs);
            proof {
                assert forall|key: Seq<char>, id2: usize| #[trigger] index.registered(key, id2)
                    <==> (key.len() > 0 && id2 < n && norm_spec(
                    base.entries@[id2 as int].row@[c as int]@,
                ) == key) by {
                    if index.registered(key, id2) {
                        let p = choose|p: int|
                            0 <= p < pairs@.len() && (#[trigger] pairs@[p].0)@ == key
                                && pairs@[p].1 == id2;
                        assert(p == id2);
                    }
                    if key.len() > 0 && id2 < n && norm_spec(base.entries@[id2 as int].row@[c as int]@)
                        == key {
                        assert(pairs@[id2 as int].0@ == key && pairs@[id2 as int].1 == id2);
                    }
                }
            }
            indexes.push(index);
            c = c + 1;
        }
        PerFieldIndexSet { indexes }
    }

    /// Matches one record against every column's index: normalizes each
    /// field, queries the corresponding index with the caller's edit-distance
    /// bound, and concatenates the per-column results in column order.
    pub fn match_record(&self, row: &Vec<String>, max_distance: usize) -> (r: Vec<usize>)
        requires
            self.wf(),
            row@.len() == self.indexes@.len(),
        ensures
            r@ == self.match_spec(row@, max_distance),
            forall|id: usize|
                #[trigger] spec_count(r@, id) == self.matching_col_count(
                    row@,
                    max_distance,
                    id,
                    self.indexes@.len() as int,
                ),
    {
        proof {
            assert forall|id: usize|
                #[trigger] spec_count(self.match_spec(row@, max_distance), id)
                    == self.matching_col_count(
                    row@,
                    max_distance,
                    id,
                    self.indexes@.len() as int,
                ) by {
                self.lemma_match_count(row@, max_distance, id);
            }
        }
        let ghost lists = self.col_lists(row@, max_distance);
        let mut r: Vec<usize> = Vec::new();
        let mut c: usize = 0;
        while c < self.indexes.len()
            invariant
                self.wf(),
                row@.len() == self.indexes@.len(),
                0 <= c <= self.indexes@.len(),
                lists == self.col_lists(row@, max_distance),
                r@ == concat_all(lists.take(c as int)),
            decreases self.indexes@.len() - c,
        {
            let key = normalize(row[c].as_str());
            proof {
                lemma_normalize_idempotent(row@[c as int]@);
            }
            let mut q = self.indexes[c].query(key.as_str(), max_distance);
            r.append(&mut q);
            proof {
                assert(lists.take(c + 1 as int).drop_last() =~= lists.take(c as int));
                assert(lists.take(c + 1 as int).last() == lists[c as int]);
            }
            c = c + 1;
        }
        proof {
            assert(lists.take(self.indexes@.len() as int) =~= lists);
        }
        r
    }
}

} // verus!
