//! Writing the assembled output as a delimited file and reading it back
//! preserves every original column byte for byte; only the `Duplicate`
//! column is new.

use dedupe::execution::run;
use dedupe::models::{CsvData, DedupeTask, Entry, Location};

fn entry(lat: i64, long: i64, row: Vec<&str>) -> Entry {
    Entry {
        location: Location::new(lat, long),
        row: row.into_iter().map(|s| s.to_string()).collect(),
    }
}

#[test]
fn output_file_round_trip_preserves_original_columns() {
    let original_rows = vec![
        vec!["40.7128", "-74.0060", "alpha, with comma"],
        vec!["40.7129", "-74.0061", "beta \"quoted\""],
        vec!["0", "0", ""],
    ];
    let entries = vec![
        entry(407128, -740060, original_rows[0].clone()),
        entry(407129, -740061, original_rows[1].clone()),
        entry(0, 0, original_rows[2].clone()),
    ];
    let headers: Vec<String> =
        ["latitude", "longitude", "note"].iter().map(|s| s.to_string()).collect();
    let base = CsvData::new(headers.clone(), entries).unwrap();
    let outcome =
        run(DedupeTask::SingleFile("points.csv".to_string()), base, None, 7).unwrap();

    // write the assembled table as a delimited file image
    let mut writer = csv::Writer::from_writer(Vec::new());
    writer.write_record(&outcome.headers).unwrap();
    for row in &outcome.rows {
        writer.write_record(row).unwrap();
    }
    let image = writer.into_inner().unwrap();

    // read it back
    let mut reader = csv::Reader::from_reader(image.as_slice());
    let read_headers: Vec<String> =
        reader.headers().unwrap().iter().map(|s| s.to_string()).collect();
    assert_eq!(read_headers.len(), headers.len() + 1);
    assert_eq!(&read_headers[..headers.len()], &headers[..]);
    assert_eq!(read_headers[headers.len()], "Duplicate");

    let read_rows: Vec<Vec<String>> = reader
        .records()
        .map(|r| r.unwrap().iter().map(|s| s.to_string()).collect())
        .collect();
    assert_eq!(read_rows.len(), original_rows.len());
    for (read_row, original) in read_rows.iter().zip(original_rows.iter()) {
        assert_eq!(read_row.len(), original.len() + 1);
        for (got, want) in read_row.iter().zip(original.iter()) {
            assert_eq!(got, want);
        }
    }
    // the appended column holds the duplicate summaries
    assert_eq!(read_rows[0][3], "40.7129, -74.0061");
    assert_eq!(read_rows[1][3], "40.7128, -74.0060");
    assert_eq!(read_rows[2][3], "");
}
