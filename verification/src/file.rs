//! Output composition: everything about the result file except the writing.
//!
//! The output file is the input file with `-DUPLICATE-FLAG` spliced in before
//! the `.csv` extension; its header is the input header plus one trailing
//! `Duplicate` column; each row is the original row, byte for byte, plus a
//! human-readable summary of the confirmed duplicates — at most six rendered
//! matches joined by `" | "`, with `and N more ...` appended when more exist.
//! The unverified shell only copies these values into a delimited file.

use vstd::prelude::*;
use crate::models::{CsvData, Entry};

verus! {

/// How many matched records the duplicate summary renders before switching
/// to `and N more ...`.
pub const SUMMARY_LIMIT: usize = 6;

/// Utility handle for assembling output files, mirroring the shape of the
/// loader/writer collaborator.
#[derive(Debug)]
pub struct FileUtil {}

impl FileUtil {
    pub fn new() -> FileUtil {
        FileUtil {}
    }
}

/// The decimal digit character for `d`.
pub open spec fn dec_digit(d: nat) -> char
    recommends
        d < 10,
{
    ((48 + d) as u8) as char
}

/// The decimal rendering of `n`, most significant digit first, no leading
/// zeroes (a single `0` for zero).
pub open spec fn dec_spec(n: nat) -> Seq<char>
    decreases n,
{
    if n < 10 {
        seq![dec_digit(n)]
    } else {
        dec_spec(n / 10).push(dec_digit(n % 10))
    }
}

/// `s` backwards.
spec fn rev_chars(s: Seq<char>) -> Seq<char>
    decreases s.len(),
{
    if s.len() == 0 {
        s
    } else {
        seq![s.last()] + rev_chars(s.drop_last())
    }
}

proof fn lemma_rev_chars(s: Seq<char>)
    ensures
        rev_chars(s).len() == s.len(),
        forall|i: int| 0 <= i < s.len() ==> rev_chars(s)[i] == s[s.len() - 1 - i],
    decreases s.len(),
{
    if s.len() > 0 {
        lemma_rev_chars(s.drop_last());
        assert forall|i: int| 0 <= i < s.len() implies rev_chars(s)[i] == s[s.len() - 1 - i] by {
            if i > 0 {
                assert(rev_chars(s)[i] == rev_chars(s.drop_last())[i - 1]);
            }
        }
    }
}

/// Renders `n` in decimal.
pub fn usize_to_string(n: usize) -> (s: String)
    ensures
        s@ == dec_spec(n as nat),
{
    let mut digits: Vec<char> = Vec::new();
    let mut m: usize = n;
    while m >= 10
        invariant
            dec_spec(n as nat) == dec_spec(m as nat) + rev_chars(digits@),
        decreases m,
    {
        let d: usize = m % 10;
        let c: char = ((48 + d) as u8) as char;
        let ghost pre = digits@;
        digits.push(c);
        proof {
            assert(c == dec_digit((m % 10) as nat));
            assert(pre.push(c).drop_last() =~= pre);
            assert(pre.push(c).last() == c);
            assert(rev_chars(pre.push(c)) =~= seq![c] + rev_chars(pre));
            assert(dec_spec((m / 10) as nat) + rev_chars(pre.push(c)) =~= (dec_spec(
                (m / 10) as nat,
            ).push(c)) + rev_chars(pre));
            assert(dec_spec(m as nat) == dec_spec((m / 10) as nat).push(dec_digit((m % 10) as nat)));
        }
        m = m / 10;
    }
    let c: char = ((48 + m) as u8) as char;
    let ghost pre = digits@;
    digits.push(c);
    proof {
        assert(c == dec_digit(m as nat));
        assert(pre.push(c).drop_last() =~= pre);
        assert(pre.push(c).last() == c);
        assert(rev_chars(pre.push(c)) =~= seq![c] + rev_chars(pre));
        assert(dec_spec(m as nat) =~= seq![c]);
        assert(seq![c] + rev_chars(pre) =~= dec_spec(m as nat) + rev_chars(pre));
    }
    let len = digits.len();
    let mut out: Vec<char> = Vec::new();
    let mut i: usize = 0;
    while i < len
        invariant
            0 <= i <= len,
            len == digits@.len(),
            out@.len() == i,
            forall|j: int| 0 <= j < i ==> out@[j] == digits@[len - 1 - j],
        decreases len - i,
    {
        out.push(digits[len - 1 - i]);
        i = i + 1;
    }
    proof {
        lemma_rev_chars(digits@);
        assert(out@ =~= rev_chars(digits@));
    }
    crate::normalize::chars_to_string(&out)
}

/// One matched record as the summary renders it: its first field, or its
/// first two fields joined by a comma, for datasets with more than one
/// column.
pub open spec fn render_row(row: Seq<String>) -> Seq<char>
    recommends
        row.len() >= 1,
{
    if row.len() == 1 {
        row[0]@
    } else {
        row[0]@ + ", "@ + row[1]@
    }
}

/// The given renderings joined by `" | "`.
pub open spec fn sep_join(rows: Seq<Seq<char>>) -> Seq<char>
    decreases rows.len(),
{
    if rows.len() == 0 {
        Seq::empty()
    } else if rows.len() == 1 {
        rows[0]
    } else {
        sep_join(rows.drop_last()) + " | "@ + rows.last()
    }
}

/// The renderings of the records behind `ids`, in order.
pub open spec fn rendered_rows(ids: Seq<usize>, entries: Seq<Entry>) -> Seq<Seq<char>> {
    Seq::new(ids.len(), |p: int| render_row(entries[ids[p] as int].row@))
}

/// The duplicate-summary cell for one list of confirmed matches: all of them
/// joined by `" | "` if at most six, else the first six followed by
/// `and N more ...`.
pub open spec fn duplicate_cell_spec(ids: Seq<usize>, entries: Seq<Entry>) -> Seq<char> {
    let rows = rendered_rows(ids, entries);
    if rows.len() <= SUMMARY_LIMIT as int {
        sep_join(rows)
    } else {
        sep_join(rows.take(SUMMARY_LIMIT as int)) + " | and "@ + dec_spec(
            (rows.len() - SUMMARY_LIMIT as int) as nat,
        ) + " more ..."@
    }
}

/// The duplicate-summary cell for record `id` under the verdict map: empty
/// when the map holds no entry for it.
pub open spec fn duplicate_string_spec(
    id: usize,
    verdicts: Seq<Option<Vec<usize>>>,
    entries: Seq<Entry>,
) -> Seq<char> {
    if id < verdicts.len() && verdicts[id as int] is Some {
        duplicate_cell_spec(verdicts[id as int]->0@, entries)
    } else {
        Seq::empty()
    }
}

/// Every identity a verdict map mentions points into the base record arena.
pub open spec fn verdicts_in_range(verdicts: Seq<Option<Vec<usize>>>, n: int) -> bool {
    forall|i: int, p: int|
        0 <= i < verdicts.len() && verdicts[i] is Some && 0 <= p < verdicts[i]->0@.len()
            ==> (#[trigger] verdicts[i]->0@[p]) < n
}

/// Every base record has at least one column to render.
pub open spec fn rows_nonempty(entries: Seq<Entry>) -> bool {
    forall|e: int| 0 <= e < entries.len() ==> (#[trigger] entries[e].row)@.len() >= 1
}

/// Renders the duplicate summary for record `id`: the confirmed matches from
/// the verdict map, or the empty string when there is no entry.
pub fn get_duplicate_string(
    id: usize,
    duplicate_ids: &Vec<Option<Vec<usize>>>,
    entries: &Vec<Entry>,
) -> (r: String)
    requires
        verdicts_in_range(duplicate_ids@, entries@.len() as int),
        rows_nonempty(entries@),
    ensures
        r@ == duplicate_string_spec(id, duplicate_ids@, entries@),
{
    let mut result = String::new();
    if id >= duplicate_ids.len() {
        return result;
    }
    let slot = &duplicate_ids[id];
    match slot {
        Option::None => result,
        Option::Some(matches) => {
            let ghost rows = rendered_rows(matches@, entries@);
            let limit: usize = if matches.len() <= SUMMARY_LIMIT {
                matches.len()
            } else {
                SUMMARY_LIMIT
            };
            let mut p: usize = 0;
            while p < limit
                invariant
                    verdicts_in_range(duplicate_ids@, entries@.len() as int),
                    rows_nonempty(entries@),
                    id < duplicate_ids@.len(),
                    duplicate_ids@[id as int] == Option::Some(*matches),
                    rows == rendered_rows(matches@, entries@),
                    0 <= p <= limit <= matches@.len(),
                    limit == (if matches@.len() <= SUMMARY_LIMIT as int {
                        matches@.len() as int
                    } else {
                        SUMMARY_LIMIT as int
                    }),
                    result@ == sep_join(rows.take(p as int)),
                decreases limit - p,
            {
                if p > 0 {
                    result.append(" | ");
                }
                let eid = matches[p];
                proof {
                    assert(matches@[p as int] == duplicate_ids@[id as int]->0@[p as int]);
                    assert(duplicate_ids@[id as int]->0@[p as int] < entries@.len());
                }
                let row = &entries[eid].row;
                if row.len() == 1 {
                    result.append(row[0].as_str());
                } else {
                    result.append(row[0].as_str());
                    result.append(", ");
                    result.append(row[1].as_str());
                }
                proof {
                    assert(rows[p as int] == render_row(entries@[eid as int].row@));
                    assert(rows.take(p + 1 as int).drop_last() =~= rows.take(p as int));
                    assert(rows.take(p + 1 as int).last() == rows[p as int]);
                    if p == 0 {
                        assert(sep_join(rows.take(1)) == rows[0]);
                    }
                }
                p = p + 1;
            }
            if matches.len() > SUMMARY_LIMIT {
                result.append(" | and ");
                let more = usize_to_string(matches.len() - SUMMARY_LIMIT);
                result.append(more.as_str());
                result.append(" more ...");
                proof {
                    assert(rows.take(SUMMARY_LIMIT as int).len() == SUMMARY_LIMIT as int);
                }
            } else {
                proof {
                    assert(rows.take(matches@.len() as int) =~= rows);
                }
            }
            result
        },
    }
}

/// Whether two strings agree up to ASCII letter case.
fn equal_ignore_ascii_case(a: &str, b: &str) -> (r: bool)
    ensures
        r == (crate::normalize::lower_seq(a@) == crate::normalize::lower_seq(b@)),
{
    let alen = a.unicode_len();
    let blen = b.unicode_len();
    if alen != blen {
        proof {
            assert(crate::normalize::lower_seq(a@).len() == a@.len());
            assert(crate::normalize::lower_seq(b@).len() == b@.len());
        }
        return false;
    }
    let mut i: usize = 0;
    while i < alen
        invariant
            0 <= i <= alen,
            alen == a@.len(),
            alen == b@.len(),
            forall|j: int|
                0 <= j < i ==> crate::normalize::lower_char(a@[j]) == crate::normalize::lower_char(
                    b@[j],
                ),
        decreases alen - i,
    {
        let ca = crate::normalize::lower_char_exec(a.get_char(i));
        let cb = crate::normalize::lower_char_exec(b.get_char(i));
        if ca != cb {
            proof {
                assert(crate::normalize::lower_seq(a@)[i as int] != crate::normalize::lower_seq(
                    b@,
                )[i as int]);
            }
            return false;
        }
        i = i + 1;
    }
    proof {
        assert(crate::normalize::lower_seq(a@) =~= crate::normalize::lower_seq(b@));
    }
    true
}

/// Locates the first header equal to `name` up to ASCII letter case — how
/// the loader finds the designated `latitude` and `longitude` columns.
pub fn find_column_index(headers: &Vec<String>, name: &str) -> (r: Option<usize>)
    ensures
        r is Some ==> r->0 < headers@.len() && crate::normalize::lower_seq(
            headers@[r->0 as int]@,
        ) == crate::normalize::lower_seq(name@) && (forall|j: int|
            0 <= j < r->0 ==> crate::normalize::lower_seq((#[trigger] headers@[j])@)
                != crate::normalize::lower_seq(name@)),
        r is None ==> forall|j: int|
            0 <= j < headers@.len() ==> crate::normalize::lower_seq((#[trigger] headers@[j])@)
                != crate::normalize::lower_seq(name@),
{
    let mut i: usize = 0;
    while i < headers.len()
        invariant
            0 <= i <= headers@.len(),
            forall|j: int|
                0 <= j < i ==> crate::normalize::lower_seq((#[trigger] headers@[j])@)
                    != crate::normalize::lower_seq(name@),
        decreases headers@.len() - i,
    {
        if equal_ignore_ascii_case(headers[i].as_str(), name) {
            return Some(i);
        }
        i = i + 1;
    }
    None
}

/// The output file name: the input name with `-DUPLICATE-FLAG` spliced in
/// before a trailing `.csv` extension, or appended (extension and all) when
/// the input name has none.
pub open spec fn output_name_spec(file: Seq<char>) -> Seq<char> {
    if file.len() >= 4 && file.subrange(file.len() - 4, file.len() as int) == ".csv"@ {
        file.take(file.len() - 4) + "-DUPLICATE-FLAG.csv"@
    } else {
        file + "-DUPLICATE-FLAG.csv"@
    }
}

/// Derives the output file name from the input file name.
pub fn derive_output_name(file: &str) -> (r: String)
    ensures
        r@ == output_name_spec(file@),
{
    let len = file.unicode_len();
    proof {
        reveal_strlit(".csv");
    }
    let stem: &str = if len >= 4 && file.get_char(len - 4) == '.' && file.get_char(len - 3) == 'c'
        && file.get_char(len - 2) == 's' && file.get_char(len - 1) == 'v' {
        proof {
            assert(file@.subrange(len - 4, len as int) =~= ".csv"@);
        }
        file.substring_char(0, len - 4)
    } else {
        proof {
            if file@.len() >= 4 && file@.subrange(file@.len() - 4, file@.len() as int) == ".csv"@ {
                assert(file@[len - 4] == ".csv"@[0]);
                assert(file@[len - 3] == ".csv"@[1]);
                assert(file@[len - 2] == ".csv"@[2]);
                assert(file@[len - 1] == ".csv"@[3]);
            }
        }
        file
    };
    let mut out = String::from_str(stem);
    out.append("-DUPLICATE-FLAG.csv");
    proof {
        assert(file@.take(file@.len() - 4) == file@.subrange(0, file@.len() - 4));
    }
    out
}

/// Assembles the full output table: the input header plus the `Duplicate`
/// column, and every input row — each original value kept byte for byte —
/// plus its duplicate summary. Reading these rows back thus recovers every
/// original column exactly.
pub fn compose_output(
    data: &CsvData,
    base_entries: &Vec<Entry>,
    verdicts: &Vec<Option<Vec<usize>>>,
) -> (r: (Vec<String>, Vec<Vec<String>>))
    requires
        data.wf(),
        verdicts_in_range(verdicts@, base_entries@.len() as int),
        rows_nonempty(base_entries@),
    ensures
        r.0@.len() == data.headers@.len() + 1,
        forall|c: int| 0 <= c < data.headers@.len() ==> (#[trigger] r.0@[c])@ == data.headers@[c]@,
        r.0@[data.headers@.len() as int]@ == "Duplicate"@,
        r.1@.len() == data.entries@.len(),
        forall|i: int| 0 <= i < r.1@.len() ==> (#[trigger] r.1@[i])@.len() == data.headers@.len() + 1,
        forall|i: int, c: int|
            0 <= i < r.1@.len() && 0 <= c < data.headers@.len() ==> (#[trigger] r.1@[i]@[c])@
                == data.entries@[i].row@[c]@,
        forall|i: int|
            0 <= i < r.1@.len() ==> (#[trigger] r.1@[i]@[data.headers@.len() as int])@
                == duplicate_string_spec(i as usize, verdicts@, base_entries@),
    {
    let mut headers: Vec<String> = Vec::new();
    let mut c: usize = 0;
    while c < data.headers.len()
        invariant
            0 <= c <= data.headers@.len(),
            headers@.len() == c,
            forall|j: int| 0 <= j < c ==> (#[trigger] headers@[j])@ == data.headers@[j]@,
        decreases data.headers@.len() - c,
    {
        headers.push(data.headers[c].clone());
        c = c + 1;
    }
    headers.push(String::from_str("Duplicate"));
    let mut rows: Vec<Vec<String>> = Vec::new();
    let mut i: usize = 0;
    while i < data.entries.len()
        invariant
            data.wf(),
            verdicts_in_range(verdicts@, base_entries@.len() as int),
            rows_nonempty(base_entries@),
            0 <= i <= data.entries@.len(),
            rows@.len() == i,
            forall|j: int| 0 <= j < i ==> (#[trigger] rows@[j])@.len() == data.headers@.len() + 1,
            forall|j: int, c2: int|
                0 <= j < i && 0 <= c2 < data.headers@.len() ==> (#[trigger] rows@[j]@[c2])@
                    == data.entries@[j].row@[c2]@,
            forall|j: int|
                0 <= j < i ==> (#[trigger] rows@[j]@[data.headers@.len() as int])@
                    == duplicate_string_spec(j as usize, verdicts@, base_entries@),
        decreases data.entries@.len() - i,
    {
        let mut row: Vec<String> = Vec::new();
        let src = &data.entries[i].row;
        let mut c2: usize = 0;
        while c2 < src.len()
            invariant
                0 <= c2 <= src@.len(),
                row@.len() == c2,
                forall|k: int| 0 <= k < c2 ==> (#[trigger] row@[k])@ == src@[k]@,
            decreases src@.len() - c2,
        {
            row.push(src[c2].clone());
            c2 = c2 + 1;
        }
        let cell = get_duplicate_string(i, verdicts, base_entries);
        row.push(cell);
        rows.push(row);
        i = i + 1;
    }
    (headers, rows)
}

} // verus!
