//! The duplicate-detection run: build the index over the base dataset once,
//! stream the comparison dataset against it, and assemble the output table.
//!
//! Single-file mode compares a dataset against itself, so a record's own
//! identity is excluded from its matches; comparison mode matches a second
//! dataset of identical column count against the base, where no identities
//! are shared. The writing of the assembled table is the unverified shell's
//! job.

use vstd::prelude::*;
use crate::aggregate::{
    confirm_duplicates, confirmed_ids, remove_all, remove_matches_of, threshold_for,
};
use crate::fields::PerFieldIndexSet;
use crate::file::{
    compose_output, derive_output_name, duplicate_cell_spec, duplicate_string_spec,
    output_name_spec, rows_nonempty, verdicts_in_range,
};
use crate::models::{CsvData, DedupeError, DedupeTask, Location};
use crate::searchable::{loc_find_spec, LocationMatcher};
use crate::seqs::{lemma_count_contains, spec_count};

verus! {

/// Everything a run produces: the derived output file name and the output
/// table (header row plus data rows) for the shell to write.
#[derive(Debug)]
pub struct RunOutcome {
    pub output_file: String,
    pub headers: Vec<String>,
    pub rows: Vec<Vec<String>>,
}

/// The coordinates of a dataset's records, by identity.
pub open spec fn base_locations(base: CsvData) -> Seq<Location> {
    Seq::new(base.entries@.len(), |i: int| base.entries@[i].location)
}

/// The confirmed duplicates of one comparison record in location mode: every
/// base record within the tolerance window in both dimensions, minus the
/// record itself where base and comparison are the same dataset. Location
/// mode has no agreement threshold — the two-dimensional window intersection
/// already encodes the agreement signal.
pub open spec fn location_confirmed(
    locs: Seq<Location>,
    rec: Location,
    self_id: Option<usize>,
    noise: int,
) -> Seq<usize> {
    let m = loc_find_spec(locs, rec, noise);
    match self_id {
        Option::Some(i) => remove_all(m, i),
        Option::None => m,
    }
}

/// The confirmed duplicates of one comparison record in text-matching mode:
/// the per-column matches laid end to end, self-matches dropped, then the
/// agreement threshold applied.
pub open spec fn field_confirmed(
    set: PerFieldIndexSet,
    row: Seq<String>,
    self_id: Option<usize>,
    max_distance: usize,
) -> Seq<usize> {
    let m = set.match_spec(row, max_distance);
    let filtered = match self_id {
        Option::Some(i) => remove_all(m, i),
        Option::None => m,
    };
    confirmed_ids(filtered, threshold_for(set.indexes@.len() as nat))
}

/// Streams the comparison records over the already-built location matcher.
/// The verdict map holds an entry exactly for the records with at least one
/// confirmed duplicate; a record never appears among its own duplicates.
pub fn get_duplicate_ids_against_base(
    searchable_base: &LocationMatcher,
    comparison_data: &CsvData,
    acceptable_noise: i64,
    same_dataset: bool,
) -> (verdicts: Vec<Option<Vec<usize>>>)
    ensures
        verdicts@.len() == comparison_data.entries@.len(),
        forall|i: int|
            0 <= i < verdicts@.len() ==> {
                let kept = location_confirmed(
                    searchable_base.locations@,
                    comparison_data.entries@[i].location,
                    if same_dataset {
                        Option::Some(i as usize)
                    } else {
                        Option::None
                    },
                    acceptable_noise as int,
                );
                ((#[trigger] verdicts@[i]) is Some <==> kept.len() > 0) && (verdicts@[i] is Some
                    ==> verdicts@[i]->0@ == kept)
            },
        same_dataset ==> forall|i: int|
            0 <= i < verdicts@.len() && (#[trigger] verdicts@[i]) is Some ==> !verdicts@[i]->0@.contains(
                i as usize,
            ),
{
    let n = comparison_data.entries.len();
    let mut verdicts: Vec<Option<Vec<usize>>> = Vec::new();
    let mut i: usize = 0;
    while i < n
        invariant
            n == comparison_data.entries@.len(),
            0 <= i <= n,
            verdicts@.len() == i,
            forall|j: int|
                0 <= j < i ==> {
                    let kept = location_confirmed(
                        searchable_base.locations@,
                        comparison_data.entries@[j].location,
                        if same_dataset {
                            Option::Some(j as usize)
                        } else {
                            Option::None
                        },
                        acceptable_noise as int,
                    );
                    ((#[trigger] verdicts@[j]) is Some <==> kept.len() > 0) && (verdicts@[j] is Some
                        ==> verdicts@[j]->0@ == kept)
                },
            same_dataset ==> forall|j: int|
                0 <= j < i && (#[trigger] verdicts@[j]) is Some ==> !verdicts@[j]->0@.contains(
                    j as usize,
                ),
        decreases n - i,
    {
        let matches = searchable_base.find_matches(
            &comparison_data.entries[i].location,
            acceptable_noise,
        );
        let kept: Vec<usize> = if same_dataset {
            let filtered = remove_matches_of(&matches, i);
            proof {
                crate::aggregate::lemma_count_remove_all(matches@, i as usize, i as usize);
                lemma_count_contains(filtered@, i as usize);
            }
            filtered
        } else {
            matches
        };
        if kept.len() > 0 {
            verdicts.push(Option::Some(kept));
        } else {
            verdicts.push(Option::None);
        }
        i = i + 1;
    }
    verdicts
}

/// Streams the comparison records over the already-built per-field index
/// set, with the caller's edit-distance bound. The verdict map holds an
/// entry exactly for the records with at least one confirmed duplicate; a
/// record never appears among its own duplicates.
pub fn find_field_duplicates(
    index_set: &PerFieldIndexSet,
    comparison_data: &CsvData,
    max_distance: usize,
    same_dataset: bool,
) -> (verdicts: Vec<Option<Vec<usize>>>)
    requires
        index_set.wf(),
        comparison_data.wf(),
        index_set.indexes@.len() == comparison_data.headers@.len(),
        comparison_data.headers@.len() >= 1,
    ensures
        verdicts@.len() == comparison_data.entries@.len(),
        forall|i: int|
            0 <= i < verdicts@.len() ==> {
                let kept = field_confirmed(
                    *index_set,
                    comparison_data.entries@[i].row@,
                    if same_dataset {
                        Option::Some(i as usize)
                    } else {
                        Option::None
                    },
                    max_distance,
                );
                ((#[trigger] verdicts@[i]) is Some <==> kept.len() > 0) && (verdicts@[i] is Some
                    ==> verdicts@[i]->0@ == kept)
            },
        same_dataset ==> forall|i: int|
            0 <= i < verdicts@.len() && (#[trigger] verdicts@[i]) is Some ==> !verdicts@[i]->0@.contains(
                i as usize,
            ),
{
    let n = comparison_data.entries.len();
    let ncols = comparison_data.headers.len();
    let mut verdicts: Vec<Option<Vec<usize>>> = Vec::new();
    let mut i: usize = 0;
    while i < n
        invariant
            index_set.wf(),
            comparison_data.wf(),
            index_set.indexes@.len() == comparison_data.headers@.len(),
            ncols == comparison_data.headers@.len(),
            ncols >= 1,
            n == comparison_data.entries@.len(),
            0 <= i <= n,
            verdicts@.len() == i,
            forall|j: int|
                0 <= j < i ==> {
                    let kept = field_confirmed(
                        *index_set,
                        comparison_data.entries@[j].row@,
                        if same_dataset {
                            Option::Some(j as usize)
                        } else {
                            Option::None
                        },
                        max_distance,
                    );
                    ((#[trigger] verdicts@[j]) is Some <==> kept.len() > 0) && (verdicts@[j] is Some
                        ==> verdicts@[j]->0@ == kept)
                },
            same_dataset ==> forall|j: int|
                0 <= j < i && (#[trigger] verdicts@[j]) is Some ==> !verdicts@[j]->0@.contains(
                    j as usize,
                ),
        decreases n - i,
    {
        let matches = index_set.match_record(&comparison_data.entries[i].row, max_distance);
        let confirmed = confirm_duplicates(
            &matches,
            if same_dataset {
                Option::Some(i)
            } else {
                Option::None
            },
            ncols,
        );
        if confirmed.len() > 0 {
            verdicts.push(Option::Some(confirmed));
        } else {
            verdicts.push(Option::None);
        }
        i = i + 1;
    }
    verdicts
}

/// All the clauses that hold of a successful run's output table: the header
/// is `data`'s header plus the `Duplicate` column; each row keeps `data`'s
/// row byte for byte and appends the duplicate summary of the location
/// matches against `base`.
pub open spec fn outcome_describes(
    out: RunOutcome,
    data: CsvData,
    base: CsvData,
    noise: int,
    same: bool,
) -> bool {
    &&& out.headers@.len() == data.headers@.len() + 1
    &&& forall|c: int|
        0 <= c < data.headers@.len() ==> (#[trigger] out.headers@[c])@ == data.headers@[c]@
    &&& out.headers@[data.headers@.len() as int]@ == "Duplicate"@
    &&& out.rows@.len() == data.entries@.len()
    &&& forall|i: int|
        0 <= i < out.rows@.len() ==> (#[trigger] out.rows@[i])@.len() == data.headers@.len() + 1
    &&& forall|i: int, c: int|
        0 <= i < out.rows@.len() && 0 <= c < data.headers@.len() ==> (#[trigger] out.rows@[i]@[c])@
            == data.entries@[i].row@[c]@
    &&& forall|i: int|
        0 <= i < out.rows@.len() ==> (#[trigger] out.rows@[i]@[data.headers@.len() as int])@
            == duplicate_cell_spec(
            location_confirmed(
                base_locations(base),
                data.entries@[i].location,
                if same {
                    Option::Some(i as usize)
                } else {
                    Option::None
                },
                noise,
            ),
            base.entries@,
        )
}

/// Turns one verdict map into the full output table against `data`, and
/// derives the output file name from `target`.
fn assemble_outcome(
    target: &str,
    data: &CsvData,
    base_entries: &Vec<crate::models::Entry>,
    verdicts: &Vec<Option<Vec<usize>>>,
) -> (out: RunOutcome)
    requires
        data.wf(),
        verdicts_in_range(verdicts@, base_entries@.len() as int),
        rows_nonempty(base_entries@),
    ensures
        out.output_file@ == output_name_spec(target@),
        out.headers@.len() == data.headers@.len() + 1,
        forall|c: int|
            0 <= c < data.headers@.len() ==> (#[trigger] out.headers@[c])@ == data.headers@[c]@,
        out.headers@[data.headers@.len() as int]@ == "Duplicate"@,
        out.rows@.len() == data.entries@.len(),
        forall|i: int|
            0 <= i < out.rows@.len() ==> (#[trigger] out.rows@[i])@.len() == data.headers@.len()
                + 1,
        forall|i: int, c: int|
            0 <= i < out.rows@.len() && 0 <= c < data.headers@.len() ==> (
            #[trigger] out.rows@[i]@[c])@ == data.entries@[i].row@[c]@,
        forall|i: int|
            0 <= i < out.rows@.len() ==> (#[trigger] out.rows@[i]@[data.headers@.len() as int])@
                == duplicate_string_spec(i as usize, verdicts@, base_entries@),
{
    let output_file = derive_output_name(target);
    let (headers, rows) = compose_output(data, base_entries, verdicts);
    RunOutcome { output_file, headers, rows }
}

/// Runs one resolved dedupe task over already-loaded data: flags duplicates
/// within the base dataset, or — for a comparison task — flags duplicates of
/// the base dataset inside the comparison dataset, which must have the same
/// number of columns. Returns the assembled output table and the output file
/// name, or the precondition error, before any matching, when the column
/// counts disagree.
pub fn run(
    task: DedupeTask,
    base_data: CsvData,
    comparison_data: Option<CsvData>,
    acceptable_noise: i64,
) -> (r: Result<RunOutcome, DedupeError>)
    requires
        base_data.wf(),
        base_data.headers@.len() >= 1,
        task is SingleFile <==> comparison_data is None,
        comparison_data is Some ==> comparison_data->0.wf(),
    ensures
        r is Err <==> (task is FileComparison && comparison_data->0.headers@.len()
            != base_data.headers@.len()),
        r is Err ==> r->Err_0 == DedupeError::ColumnCountMismatch,
        r is Ok && task is SingleFile ==> r->Ok_0.output_file@ == output_name_spec(
            task->SingleFile_0@,
        ) && outcome_describes(r->Ok_0, base_data, base_data, acceptable_noise as int, true),
        r is Ok && task is FileComparison ==> r->Ok_0.output_file@ == output_name_spec(
            task->FileComparison_1@,
        ) && outcome_describes(
            r->Ok_0,
            comparison_data->0,
            base_data,
            acceptable_noise as int,
            false,
        ),
{
    match task {
        DedupeTask::SingleFile(file) => {
            let searchable_base = LocationMatcher::new(&base_data.entries);
            proof {
                assert(searchable_base.locations@ =~= base_locations(base_data));
            }
            let verdicts = get_duplicate_ids_against_base(
                &searchable_base,
                &base_data,
                acceptable_noise,
                true,
            );
            proof {
                assert(vstd::std_specs::vec::spec_vec_len(&searchable_base.locations)
                    == searchable_base.locations@.len());
                lemma_verdicts_fit(
                    verdicts@,
                    searchable_base.locations@,
                    base_data,
                    acceptable_noise as int,
                    true,
                );
            }
            let out = assemble_outcome(file.as_str(), &base_data, &base_data.entries, &verdicts);
            proof {
                assert(vstd::std_specs::vec::spec_vec_len(&verdicts) == verdicts@.len());
                lemma_cells_match(verdicts@, searchable_base.locations@, base_data, base_data,
                    acceptable_noise as int, true, out);
            }
            Ok(out)
        },
        DedupeTask::FileComparison(_base_file, comparison_file) => {
            let comp = comparison_data.unwrap();
            if base_data.headers.len() != comp.headers.len() {
                return Err(DedupeError::ColumnCountMismatch);
            }
            let searchable_base = LocationMatcher::new(&base_data.entries);
            proof {
                assert(searchable_base.locations@ =~= base_locations(base_data));
            }
            let verdicts = get_duplicate_ids_against_base(
                &searchable_base,
                &comp,
                acceptable_noise,
                false,
            );
            proof {
                assert(vstd::std_specs::vec::spec_vec_len(&searchable_base.locations)
                    == searchable_base.locations@.len());
                lemma_verdicts_fit(
                    verdicts@,
                    searchable_base.locations@,
                    comp,
                    acceptable_noise as int,
                    false,
                );
            }
            let out = assemble_outcome(comparison_file.as_str(), &comp, &base_data.entries, &verdicts);
            proof {
                assert(vstd::std_specs::vec::spec_vec_len(&verdicts) == verdicts@.len());
                lemma_cells_match(verdicts@, searchable_base.locations@, comp, base_data,
                    acceptable_noise as int, false, out);
            }
            Ok(out)
        },
    }
}

/// A location verdict map only mentions identities of the base arena.
proof fn lemma_verdicts_fit(
    verdicts: Seq<Option<Vec<usize>>>,
    locs: Seq<Location>,
    data: CsvData,
    noise: int,
    same: bool,
)
    requires
        verdicts.len() == data.entries@.len(),
        forall|i: int|
            0 <= i < verdicts.len() ==> {
                let kept = location_confirmed(
                    locs,
                    data.entries@[i].location,
                    if same {
                        Option::Some(i as usize)
                    } else {
                        Option::None
                    },
                    noise,
                );
                ((#[trigger] verdicts[i]) is Some <==> kept.len() > 0) && (verdicts[i] is Some
                    ==> verdicts[i]->0@ == kept)
            },
        locs.len() <= usize::MAX,
    ensures
        verdicts_in_range(verdicts, locs.len() as int),
{
    assert forall|i: int, p: int|
        0 <= i < verdicts.len() && verdicts[i] is Some && 0 <= p < verdicts[i]->0@.len() implies (
    #[trigger] verdicts[i]->0@[p]) < locs.len() as int by {
        let rec = data.entries@[i].location;
        let self_id = if same {
            Option::<usize>::Some(i as usize)
        } else {
            Option::<usize>::None
        };
        let m = loc_find_spec(locs, rec, noise);
        let kept = location_confirmed(locs, rec, self_id, noise);
        let x = verdicts[i]->0@[p];
        assert(kept.contains(x));
        if same {
            crate::aggregate::lemma_count_remove_all(m, i as usize, x);
            lemma_count_contains(kept, x);
            lemma_count_contains(m, x);
        }
        assert(m.contains(x));
        crate::searchable::lemma_loc_find_characterization(locs, rec, noise);
    }
}

/// The summary cell of each assembled row equals the rendered confirmed
/// matches of that row's record.
proof fn lemma_cells_match(
    verdicts: Seq<Option<Vec<usize>>>,
    locs: Seq<Location>,
    data: CsvData,
    base: CsvData,
    noise: int,
    same: bool,
    out: RunOutcome,
)
    requires
        locs == base_locations(base),
        verdicts.len() <= usize::MAX,
        verdicts.len() == data.entries@.len(),
        forall|i: int|
            0 <= i < verdicts.len() ==> {
                let kept = location_confirmed(
                    locs,
                    data.entries@[i].location,
                    if same {
                        Option::Some(i as usize)
                    } else {
                        Option::None
                    },
                    noise,
                );
                ((#[trigger] verdicts[i]) is Some <==> kept.len() > 0) && (verdicts[i] is Some
                    ==> verdicts[i]->0@ == kept)
            },
        out.headers@.len() == data.headers@.len() + 1,
        forall|c: int|
            0 <= c < data.headers@.len() ==> (#[trigger] out.headers@[c])@ == data.headers@[c]@,
        out.headers@[data.headers@.len() as int]@ == "Duplicate"@,
        out.rows@.len() == data.entries@.len(),
        forall|i: int|
            0 <= i < out.rows@.len() ==> (#[trigger] out.rows@[i])@.len() == data.headers@.len()
                + 1,
        forall|i: int, c: int|
            0 <= i < out.rows@.len() && 0 <= c < data.headers@.len() ==> (
            #[trigger] out.rows@[i]@[c])@ == data.entries@[i].row@[c]@,
        forall|i: int|
            0 <= i < out.rows@.len() ==> (#[trigger] out.rows@[i]@[data.headers@.len() as int])@
                == duplicate_string_spec(i as usize, verdicts, base.entries@),
    ensures
        outcome_describes(out, data, base, noise, same),
{
    assert forall|i: int| 0 <= i < out.rows@.len() implies (#[trigger] out.rows@[i]@[data.headers@.len() as int])@
        == duplicate_cell_spec(
        location_confirmed(
            locs,
            data.entries@[i].location,
            if same {
                Option::Some(i as usize)
            } else {
                Option::None
            },
            noise,
        ),
        base.entries@,
    ) by {
        let kept = location_confirmed(
            locs,
            data.entries@[i].location,
            if same {
                Option::Some(i as usize)
            } else {
                Option::None
            },
            noise,
        );
        if kept.len() == 0 {
            assert(duplicate_string_spec(i as usize, verdicts, base.entries@) =~= Seq::<
                char,
            >::empty());
            assert(crate::file::rendered_rows(kept, base.entries@).len() == 0);
            assert(duplicate_cell_spec(kept, base.entries@) =~= Seq::<char>::empty());
        }
    }
}

/// Threshold monotonicity over datasets: remove one column — from the
/// per-field index set and from the query record alike — while at least two
/// columns remain, and a fixed query's confirmed-duplicate set can only
/// shrink. (Shrinking a two-column dataset to one column is the exception:
/// the agreement threshold itself relaxes from two to one there, which is
/// why at least three columns are asked for here.)
pub proof fn lemma_drop_column_monotonic(
    set1: PerFieldIndexSet,
    set2: PerFieldIndexSet,
    row1: Seq<String>,
    row2: Seq<String>,
    c: int,
    self_id: Option<usize>,
    max_distance: usize,
)
    requires
        0 <= c < set1.indexes@.len(),
        set1.indexes@.len() >= 3,
        set2.indexes@ == set1.indexes@.remove(c),
        row1.len() == set1.indexes@.len(),
        row2 == row1.remove(c),
    ensures
        forall|id: usize|
            #[trigger] field_confirmed(set2, row2, self_id, max_distance).contains(id)
                ==> field_confirmed(set1, row1, self_id, max_distance).contains(id),
{
    let lists1 = set1.col_lists(row1, max_distance);
    let lists2 = set2.col_lists(row2, max_distance);
    assert(lists2 =~= lists1.remove(c)) by {
        assert forall|k: int| 0 <= k < lists2.len() implies lists2[k] == lists1.remove(c)[k] by {
            if k < c {
                assert(set2.indexes@[k] == set1.indexes@[k]);
                assert(row2[k] == row1[k]);
                assert(lists1.remove(c)[k] == lists1[k]);
            } else {
                assert(set2.indexes@[k] == set1.indexes@[k + 1]);
                assert(row2[k] == row1[k + 1]);
                assert(lists1.remove(c)[k] == lists1[k + 1]);
            }
        }
    }
    let t = threshold_for(set1.indexes@.len() as nat);
    assert(t == threshold_for(set2.indexes@.len() as nat));
    let m1 = crate::aggregate::concat_all(lists1);
    let m2 = crate::aggregate::concat_all(lists2);
    match self_id {
        Option::Some(i) => {
            crate::aggregate::lemma_removing_column_shrinks_confirmed(lists1, c, i, t);
        },
        Option::None => {
            assert forall|id: usize| #[trigger] spec_count(m2, id) <= spec_count(m1, id) by {
                crate::aggregate::lemma_concat_all_remove(lists1, c, id);
            }
            crate::aggregate::lemma_threshold_monotonic(m2, m1, t);
        },
    }
}

} // verus!
