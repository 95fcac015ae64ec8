use dedupe::aggregate::confirm_duplicates;
use dedupe::distance::{edit_distance, str_to_chars, within_edit_distance};
use dedupe::execution::{find_field_duplicates, get_duplicate_ids_against_base, run};
use dedupe::fields::PerFieldIndexSet;
use dedupe::file::{derive_output_name, find_column_index, get_duplicate_string, usize_to_string};
use dedupe::index::ApproximateIndex;
use dedupe::models::{CsvData, DedupeError, DedupeTask, Entry, Location};
use dedupe::normalize::normalize;
use dedupe::searchable::{within_window, LocationMatcher};

fn entry(lat: i64, long: i64, row: Vec<&str>) -> Entry {
    Entry {
        location: Location::new(lat, long),
        row: row.into_iter().map(|s| s.to_string()).collect(),
    }
}

fn dataset(headers: Vec<&str>, entries: Vec<Entry>) -> CsvData {
    CsvData::new(headers.into_iter().map(|s| s.to_string()).collect(), entries)
        .expect("rows must match the header arity")
}

#[test]
fn normalize_strips_and_lowercases() {
    assert_eq!(normalize("Hello, World!"), "helloworld");
    assert_eq!(normalize("123-456"), "123456");
    assert_eq!(normalize("  "), "");
    assert_eq!(normalize(""), "");
}

#[test]
fn normalize_truncates_to_25_characters() {
    let long = "A".repeat(30);
    assert_eq!(normalize(&long), "a".repeat(25));
    // truncation happens before stripping: only the first 25 characters survive
    let mixed = format!("{}XYZ", "-".repeat(25));
    assert_eq!(normalize(&mixed), "");
}

#[test]
fn normalize_drops_non_ascii_characters() {
    assert_eq!(normalize("Çafé"), "af");
    assert_eq!(normalize("名前"), "");
}

#[test]
fn index_groups_records_sharing_a_key() {
    let pairs = vec![("smith".to_string(), 0usize), ("smith".to_string(), 1usize)];
    let index = ApproximateIndex::build(&pairs);
    assert_eq!(index.query("smith", 0), vec![0, 1]);
}

#[test]
fn normalize_is_idempotent_on_examples() {
    for raw in ["Hello, World!", "ACME Corp", "Jn", "  ", "ümlaut-Straße 9"] {
        let once = normalize(raw);
        assert_eq!(normalize(&once), once);
    }
}

#[test]
fn edit_distance_exact_values() {
    let a = str_to_chars("kitten");
    let b = str_to_chars("sitting");
    assert_eq!(edit_distance(&a, &b), 3);
    let c = str_to_chars("jon");
    let d = str_to_chars("jn");
    assert_eq!(edit_distance(&c, &d), 1);
    let e = str_to_chars("");
    let f = str_to_chars("abc");
    assert_eq!(edit_distance(&e, &f), 3);
}

#[test]
fn within_edit_distance_bounds() {
    assert!(within_edit_distance("jon", "jn", 2));
    assert!(!within_edit_distance("jon", "jonathan", 2));
    assert!(within_edit_distance("acmecorp", "acmecorpp", 2));
    assert!(within_edit_distance("same", "same", 0));
    assert!(!within_edit_distance("same", "sama", 0));
}

#[test]
fn index_query_unions_buckets_within_distance() {
    let pairs = vec![
        ("jon".to_string(), 0usize),
        ("jn".to_string(), 1usize),
        ("zzzzz".to_string(), 2usize),
    ];
    let index = ApproximateIndex::build(&pairs);
    let mut hits = index.query("jon", 2);
    hits.sort();
    assert_eq!(hits, vec![0, 1]);
    assert_eq!(index.query("jon", 0), vec![0]);
    // the empty key never matches
    assert_eq!(index.query("", 2), Vec::<usize>::new());
}

#[test]
fn index_never_stores_empty_keys() {
    let pairs = vec![("".to_string(), 0usize), ("a".to_string(), 1usize)];
    let index = ApproximateIndex::build(&pairs);
    // even a large distance bound cannot reach record 0: its key was never indexed
    let hits = index.query("a", 10);
    assert_eq!(hits, vec![1]);
}

#[test]
fn two_field_agreement_confirms_duplicate() {
    // base rows ["Jon","Smith"] and ["Jn","Smyth"]: within edit distance 2 on
    // both columns, so the two-field agreement rule confirms each as the
    // other's duplicate when the dataset is matched against itself.
    let base = dataset(
        vec!["first", "last"],
        vec![entry(0, 0, vec!["Jon", "Smith"]), entry(0, 0, vec!["Jn", "Smyth"])],
    );
    let set = PerFieldIndexSet::build(&base);
    let verdicts = find_field_duplicates(&set, &base, 2, true);
    assert_eq!(verdicts.len(), 2);
    assert_eq!(verdicts[0], Some(vec![1]));
    assert_eq!(verdicts[1], Some(vec![0]));
}

#[test]
fn single_field_agreement_is_not_enough_with_two_columns() {
    let base = dataset(
        vec!["first", "last"],
        vec![entry(0, 0, vec!["Jon", "Aaaaaaaa"]), entry(0, 0, vec!["Jn", "Zzzzzzzz"])],
    );
    let set = PerFieldIndexSet::build(&base);
    let verdicts = find_field_duplicates(&set, &base, 2, true);
    assert_eq!(verdicts, vec![None, None]);
}

#[test]
fn single_column_relaxation_confirms_on_one_match() {
    // single-column dataset: one field agreement suffices
    let base = dataset(
        vec!["company"],
        vec![entry(0, 0, vec!["ACME Corp"]), entry(0, 0, vec!["ACME Corpp"])],
    );
    let set = PerFieldIndexSet::build(&base);
    let verdicts = find_field_duplicates(&set, &base, 2, true);
    assert_eq!(verdicts[0], Some(vec![1]));
    assert_eq!(verdicts[1], Some(vec![0]));
}

#[test]
fn record_never_duplicates_itself() {
    let base = dataset(
        vec!["company"],
        vec![entry(0, 0, vec!["ACME Corp"]), entry(0, 0, vec!["ACME Corp"])],
    );
    let set = PerFieldIndexSet::build(&base);
    let verdicts = find_field_duplicates(&set, &base, 2, true);
    for (i, verdict) in verdicts.iter().enumerate() {
        if let Some(ids) = verdict {
            assert!(!ids.contains(&i));
        }
    }
    assert_eq!(verdicts[0], Some(vec![1]));
    assert_eq!(verdicts[1], Some(vec![0]));
}

#[test]
fn comparison_mode_keeps_identical_records() {
    // across two files no identities are shared, so an exact twin is reported
    let base = dataset(vec!["company"], vec![entry(0, 0, vec!["ACME Corp"])]);
    let comparison = dataset(vec!["company"], vec![entry(0, 0, vec!["ACME Corp"])]);
    let set = PerFieldIndexSet::build(&base);
    let verdicts = find_field_duplicates(&set, &comparison, 2, false);
    assert_eq!(verdicts[0], Some(vec![0]));
}

#[test]
fn confirm_duplicates_threshold_counting() {
    // 5 matched on two columns, 7 on one
    let matches = vec![5usize, 7, 5];
    assert_eq!(confirm_duplicates(&matches, None, 2), vec![5]);
    // single-column relaxation: first sighting confirms, order kept
    assert_eq!(confirm_duplicates(&matches, None, 1), vec![5, 7]);
    // self-matches are dropped before counting
    assert_eq!(confirm_duplicates(&matches, Some(5), 2), Vec::<usize>::new());
    assert_eq!(confirm_duplicates(&matches, Some(7), 2), vec![5]);
}

#[test]
fn window_membership_is_half_open_plus_exact() {
    assert!(within_window(10, 3, 7)); // lower edge included
    assert!(within_window(10, 3, 12));
    assert!(!within_window(10, 3, 13)); // upper edge excluded
    assert!(within_window(10, 3, 10));
    assert!(within_window(10, 0, 10)); // exact match always included
    assert!(!within_window(10, 0, 11));
}

#[test]
fn window_membership_is_symmetric_off_the_lower_edge() {
    // strictly inside the window, membership holds both ways
    assert!(within_window(10, 3, 8) && within_window(8, 3, 10));
    assert!(within_window(10, 3, 12) && within_window(12, 3, 10));
    // the exact lower edge is the one-sided exception of the half-open range
    assert!(within_window(10, 3, 7) && !within_window(7, 3, 10));
}

#[test]
fn removing_a_column_only_shrinks_confirmed_duplicates() {
    // three columns; the first two agree within distance 2, the third does not
    let full = dataset(
        vec!["first", "last", "phone"],
        vec![
            entry(0, 0, vec!["Jon", "Smith", "111"]),
            entry(0, 0, vec!["Jn", "Smyth", "999"]),
        ],
    );
    let set_full = PerFieldIndexSet::build(&full);
    let verdicts_full = find_field_duplicates(&set_full, &full, 2, true);
    assert_eq!(verdicts_full[0], Some(vec![1]));

    // dropping the agreeing "last" column leaves one agreement: no confirmation
    let without_last = dataset(
        vec!["first", "phone"],
        vec![entry(0, 0, vec!["Jon", "111"]), entry(0, 0, vec!["Jn", "999"])],
    );
    let set_without_last = PerFieldIndexSet::build(&without_last);
    let verdicts_without_last = find_field_duplicates(&set_without_last, &without_last, 2, true);
    assert_eq!(verdicts_without_last, vec![None, None]);

    // dropping the disagreeing "phone" column keeps both agreements
    let without_phone = dataset(
        vec!["first", "last"],
        vec![entry(0, 0, vec!["Jon", "Smith"]), entry(0, 0, vec!["Jn", "Smyth"])],
    );
    let set_without_phone = PerFieldIndexSet::build(&without_phone);
    let verdicts_without_phone = find_field_duplicates(&set_without_phone, &without_phone, 2, true);
    assert_eq!(verdicts_without_phone[0], Some(vec![1]));

    // either way, the reduced confirmed set is contained in the full one
    for reduced_verdicts in [&verdicts_without_last, &verdicts_without_phone] {
        for (record, reduced) in reduced_verdicts.iter().enumerate() {
            if let Some(ids) = reduced {
                let full_ids: &[usize] = verdicts_full[record].as_deref().unwrap_or(&[]);
                for id in ids {
                    assert!(full_ids.contains(id));
                }
            }
        }
    }
}

#[test]
fn location_pair_within_tolerance_matches_both_ways() {
    // (40.7128, -74.0060) and (40.7129, -74.0061) in ten-thousandths of a
    // degree, tolerance 0.0007 in the same units
    let entries = vec![
        entry(407128, -740060, vec!["a", "b"]),
        entry(407129, -740061, vec!["c", "d"]),
        entry(0, 0, vec!["e", "f"]),
    ];
    let matcher = LocationMatcher::new(&entries);
    let one = matcher.find_matches(&Location::new(407128, -740060), 7);
    assert_eq!(one, vec![0, 1]);
    let two = matcher.find_matches(&Location::new(407129, -740061), 7);
    assert_eq!(two, vec![0, 1]);
}

#[test]
fn zero_coordinate_never_matches() {
    let entries = vec![
        entry(0, 0, vec!["a", "b"]),
        entry(1, 1, vec!["c", "d"]),
        entry(0, 0, vec!["e", "f"]),
    ];
    let matcher = LocationMatcher::new(&entries);
    // the sentinel query returns nothing, whatever the tolerance
    assert_eq!(matcher.find_matches(&Location::new(0, 0), 1_000_000), Vec::<usize>::new());
    assert_eq!(matcher.find_matches(&Location::new(0, 0), 0), Vec::<usize>::new());
}

#[test]
fn location_verdicts_exclude_self_and_sentinel() {
    let base = dataset(
        vec!["latitude", "longitude"],
        vec![
            entry(407128, -740060, vec!["40.7128", "-74.0060"]),
            entry(407129, -740061, vec!["40.7129", "-74.0061"]),
            entry(0, 0, vec!["0", "0"]),
        ],
    );
    let matcher = LocationMatcher::new(&base.entries);
    let verdicts = get_duplicate_ids_against_base(&matcher, &base, 7, true);
    assert_eq!(verdicts[0], Some(vec![1]));
    assert_eq!(verdicts[1], Some(vec![0]));
    assert_eq!(verdicts[2], None);
}

#[test]
fn duplicate_string_renders_pairs_and_overflow() {
    let entries: Vec<Entry> = (0..9)
        .map(|i| Entry {
            location: Location::new(0, 0),
            row: vec![format!("f{}", i), "x".to_string()],
        })
        .collect();
    let verdicts = vec![Some(vec![1usize, 2]), None, Some((1..9).collect::<Vec<usize>>())];
    assert_eq!(get_duplicate_string(0, &verdicts, &entries), "f1, x | f2, x");
    assert_eq!(get_duplicate_string(1, &verdicts, &entries), "");
    assert_eq!(get_duplicate_string(5, &verdicts, &entries), "");
    assert_eq!(
        get_duplicate_string(2, &verdicts, &entries),
        "f1, x | f2, x | f3, x | f4, x | f5, x | f6, x | and 2 more ..."
    );
}

#[test]
fn duplicate_string_single_column_renders_one_value() {
    let entries = vec![entry(0, 0, vec!["only"]), entry(0, 0, vec!["other"])];
    let verdicts = vec![Some(vec![1usize]), Some(vec![0usize, 1usize])];
    assert_eq!(get_duplicate_string(0, &verdicts, &entries), "other");
    assert_eq!(get_duplicate_string(1, &verdicts, &entries), "only | other");
}

#[test]
fn usize_renders_in_decimal() {
    assert_eq!(usize_to_string(0), "0");
    assert_eq!(usize_to_string(7), "7");
    assert_eq!(usize_to_string(42), "42");
    assert_eq!(usize_to_string(90125), "90125");
}

#[test]
fn output_name_splices_flag_before_extension() {
    assert_eq!(derive_output_name("data.csv"), "data-DUPLICATE-FLAG.csv");
    assert_eq!(derive_output_name("data.txt"), "data.txt-DUPLICATE-FLAG.csv");
    assert_eq!(derive_output_name("csv"), "csv-DUPLICATE-FLAG.csv");
    assert_eq!(derive_output_name(".csv"), "-DUPLICATE-FLAG.csv");
}

#[test]
fn header_lookup_is_case_insensitive() {
    let headers: Vec<String> =
        vec!["Name".to_string(), "LATITUDE".to_string(), "Longitude".to_string()];
    assert_eq!(find_column_index(&headers, "latitude"), Some(1));
    assert_eq!(find_column_index(&headers, "Longitude"), Some(2));
    assert_eq!(find_column_index(&headers, "altitude"), None);
}

#[test]
fn dataset_rejects_ragged_rows() {
    let headers = vec!["a".to_string(), "b".to_string()];
    let entries = vec![entry(0, 0, vec!["x", "y"]), entry(0, 0, vec!["z"])];
    assert_eq!(CsvData::new(headers, entries).unwrap_err(), DedupeError::RowArityMismatch);
}

#[test]
fn run_single_file_flags_location_duplicates() {
    let base = dataset(
        vec!["latitude", "longitude"],
        vec![
            entry(407128, -740060, vec!["40.7128", "-74.0060"]),
            entry(407129, -740061, vec!["40.7129", "-74.0061"]),
            entry(0, 0, vec!["0", "0"]),
        ],
    );
    let task = DedupeTask::SingleFile("points.csv".to_string());
    let outcome = run(task, base, None, 7).expect("single-file runs cannot fail");
    assert_eq!(outcome.output_file, "points-DUPLICATE-FLAG.csv");
    assert_eq!(outcome.headers, vec!["latitude", "longitude", "Duplicate"]);
    assert_eq!(outcome.rows.len(), 3);
    assert_eq!(outcome.rows[0], vec!["40.7128", "-74.0060", "40.7129, -74.0061"]);
    assert_eq!(outcome.rows[1], vec!["40.7129", "-74.0061", "40.7128, -74.0060"]);
    assert_eq!(outcome.rows[2], vec!["0", "0", ""]);
}

#[test]
fn run_comparison_rejects_column_mismatch() {
    let base = dataset(vec!["latitude", "longitude"], vec![entry(1, 1, vec!["1", "1"])]);
    let comparison =
        dataset(vec!["latitude", "longitude", "name"], vec![entry(1, 1, vec!["1", "1", "x"])]);
    let task = DedupeTask::FileComparison("a.csv".to_string(), "b.csv".to_string());
    let result = run(task, base, Some(comparison), 7);
    assert_eq!(result.unwrap_err(), DedupeError::ColumnCountMismatch);
}

#[test]
fn run_comparison_flags_against_base() {
    let base = dataset(
        vec!["latitude", "longitude"],
        vec![entry(407128, -740060, vec!["40.7128", "-74.0060"])],
    );
    let comparison = dataset(
        vec!["latitude", "longitude"],
        vec![
            entry(407129, -740061, vec!["40.7129", "-74.0061"]),
            entry(100000, 100000, vec!["10.0", "10.0"]),
        ],
    );
    let task = DedupeTask::FileComparison("a.csv".to_string(), "b.csv".to_string());
    let outcome = run(task, base, Some(comparison), 7).expect("columns match");
    assert_eq!(outcome.output_file, "b-DUPLICATE-FLAG.csv");
    // the comparison record close to the base record is flagged, even though
    // it sits at the same index as the base record: identities are not shared
    // across datasets
    assert_eq!(outcome.rows[0], vec!["40.7129", "-74.0061", "40.7128, -74.0060"]);
    assert_eq!(outcome.rows[1], vec!["10.0", "10.0", ""]);
}
