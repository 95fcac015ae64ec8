//! Core data model: records, datasets, locations, tasks and errors.
//!
//! Coordinates are held as plain fixed-point integers (the caller picks the
//! scale, e.g. ten-millionths of a degree); keeping them as integers gives the
//! coordinate maps a total order and keeps the matching logic free of
//! floating point. The shell that loads files converts parsed coordinates to
//! this fixed-point form and rejects non-finite values before they get here.

use vstd::prelude::*;

verus! {

/// A resolved unit of work: flag duplicates within one file, or flag
/// duplicates in a comparison file against a base file.
#[derive(Debug)]
pub enum DedupeTask {
    SingleFile(String),
    FileComparison(String, String),
}

/// A geographic point in fixed-point coordinate units.
#[derive(Debug, Clone, Copy, PartialEq, Eq, Structural)]
pub struct Location {
    pub latitude: i64,
    pub longitude: i64,
}

impl Location {
    pub fn new(latitude: i64, longitude: i64) -> (r: Location)
        ensures
            r.latitude == latitude,
            r.longitude == longitude,
    {
        Location { latitude, longitude }
    }
}

/// One loaded record: its column values plus the location derived from the
/// designated coordinate columns (zero for datasets without one). A record's
/// identity is its position in the owning dataset, never its content.
#[derive(Debug)]
pub struct Entry {
    pub location: Location,
    pub row: Vec<String>,
}

/// A loaded dataset: ordered column names plus the records, addressed by
/// index. Every row has exactly as many values as there are headers.
#[derive(Debug)]
pub struct CsvData {
    pub headers: Vec<String>,
    pub entries: Vec<Entry>,
}

/// Errors of the matching core. Load errors (malformed files, unparsable
/// numbers) belong to the unverified shell and never reach this library.
#[derive(Debug, PartialEq, Eq, Structural, Clone, Copy)]
pub enum DedupeError {
    /// A row's value count differs from the header count.
    RowArityMismatch,
    /// Base and comparison datasets disagree on column count.
    ColumnCountMismatch,
}

impl DedupeError {
    /// A human-readable account of the error, for the shell to report.
    pub fn message(&self) -> (r: String)
        ensures
            *self is RowArityMismatch ==> r@ == "every row must have as many values as the header"@,
            *self is ColumnCountMismatch ==> r@
                == "The two specified csv files must have the same amount of columns"@,
    {
        match self {
            DedupeError::RowArityMismatch => String::from_str(
                "every row must have as many values as the header",
            ),
            DedupeError::ColumnCountMismatch => String::from_str(
                "The two specified csv files must have the same amount of columns",
            ),
        }
    }
}

impl CsvData {
    /// The dataset invariant: each record's arity equals the header arity.
    pub open spec fn wf(self) -> bool {
        forall|i: int|
            0 <= i < self.entries@.len() ==> (#[trigger] self.entries@[i].row@).len()
                == self.headers@.len()
    }

    /// Assembles a dataset, rejecting any row whose arity differs from the
    /// header's. This is the only constructor, so a `CsvData` in the matching
    /// core is always well formed.
    pub fn new(headers: Vec<String>, entries: Vec<Entry>) -> (r: Result<CsvData, DedupeError>)
        ensures
            r is Ok ==> r->Ok_0.wf(),
            r is Ok ==> r->Ok_0.headers@ == headers@,
            r is Ok ==> r->Ok_0.entries@ == entries@,
            r is Ok <==> (forall|i: int|
                0 <= i < entries@.len() ==> (#[trigger] entries@[i].row@).len()
                    == headers@.len()),
            r is Err ==> r->Err_0 == DedupeError::RowArityMismatch,
    {
        let mut i: usize = 0;
        while i < entries.len()
            invariant
                0 <= i <= entries@.len(),
                forall|j: int|
                    0 <= j < i ==> (#[trigger] entries@[j].row@).len() == headers@.len(),
            decreases entries@.len() - i,
        {
            if entries[i].row.len() != headers.len() {
                return Err(DedupeError::RowArityMismatch);
            }
            i = i + 1;
        }
        Ok(CsvData { headers, entries })
    }
}

} // verus!
