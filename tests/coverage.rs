use lcov_diff::coverage::{Coverage, CoverageError, LineData, Ratio, Record};

fn begin(path: &str) -> Record {
    Record::SourceFile { path: path.to_string() }
}

fn feed(coverage: &mut Coverage, records: Vec<Record>) {
    for record in records {
        coverage.consume(record).unwrap();
    }
}

fn as_float(r: Ratio) -> f64 {
    r.hit as f64 / r.found as f64
}

#[test]
fn repeated_sample_adds_up() {
    let mut coverage = Coverage::new();
    feed(
        &mut coverage,
        vec![
            begin("a.rs"),
            Record::LineData { line: 3, count: 1 },
            Record::LineData { line: 3, count: 1 },
            Record::LinesFound { found: 2 },
            Record::LinesHit { hit: 1 },
            Record::EndOfRecord,
        ],
    );
    assert!(coverage.finish().is_ok());
    let data = coverage.file("a.rs").unwrap();
    assert_eq!(data.counts.get(&3), Some(&2));
    assert_eq!(data.counts.len(), 1);
    let fraction = data.coverage_fraction().unwrap();
    assert_eq!(fraction, Ratio { hit: 1, found: 2 });
    assert_eq!(as_float(fraction), 0.5);
}

#[test]
fn samples_of_other_lines_stay_apart() {
    let mut coverage = Coverage::new();
    feed(
        &mut coverage,
        vec![
            begin("a.rs"),
            Record::LineData { line: 1, count: 4 },
            Record::LineData { line: 2, count: 0 },
            Record::LineData { line: 1, count: 5 },
            Record::EndOfRecord,
        ],
    );
    let data = coverage.file("a.rs").unwrap();
    assert_eq!(data.counts.get(&1), Some(&9));
    assert_eq!(data.counts.get(&2), Some(&0));
    assert_eq!(data.counts.get(&3), None);
}

#[test]
fn sample_count_saturates() {
    let mut coverage = Coverage::new();
    feed(
        &mut coverage,
        vec![
            begin("a.rs"),
            Record::LineData { line: 1, count: u64::MAX - 1 },
            Record::LineData { line: 1, count: 5 },
            Record::EndOfRecord,
        ],
    );
    assert_eq!(coverage.file("a.rs").unwrap().counts.get(&1), Some(&u64::MAX));
}

#[test]
fn total_skips_file_without_found() {
    let mut coverage = Coverage::new();
    feed(
        &mut coverage,
        vec![
            begin("a.rs"),
            Record::LinesFound { found: 10 },
            Record::LinesHit { hit: 8 },
            Record::EndOfRecord,
            begin("b.rs"),
            Record::LinesHit { hit: 3 },
            Record::EndOfRecord,
        ],
    );
    let total = coverage.total_coverage().unwrap();
    assert_eq!(total, Ratio { hit: 8, found: 10 });
    assert_eq!(as_float(total), 0.8);
}

#[test]
fn total_sums_summarized_files() {
    let mut coverage = Coverage::new();
    feed(
        &mut coverage,
        vec![
            begin("a.rs"),
            Record::LinesFound { found: 10 },
            Record::LinesHit { hit: 8 },
            Record::EndOfRecord,
            begin("b.rs"),
            Record::LinesHit { hit: 1 },
            Record::LinesFound { found: 4 },
            Record::EndOfRecord,
        ],
    );
    assert_eq!(coverage.total_coverage(), Some(Ratio { hit: 9, found: 14 }));
}

#[test]
fn total_unknown_without_summaries() {
    let mut coverage = Coverage::new();
    assert_eq!(coverage.total_coverage(), None);
    feed(
        &mut coverage,
        vec![begin("a.rs"), Record::LinesFound { found: 10 }, Record::EndOfRecord],
    );
    assert_eq!(coverage.total_coverage(), None);
}

#[test]
fn fraction_unknown_without_both_counts() {
    let mut coverage = Coverage::new();
    feed(
        &mut coverage,
        vec![
            begin("a.rs"),
            Record::LinesHit { hit: 0 },
            Record::EndOfRecord,
            begin("b.rs"),
            Record::EndOfRecord,
            begin("c.rs"),
            Record::LinesFound { found: 5 },
            Record::LinesHit { hit: 0 },
            Record::EndOfRecord,
        ],
    );
    assert_eq!(coverage.file("a.rs").unwrap().coverage_fraction(), None);
    assert_eq!(coverage.file("b.rs").unwrap().coverage_fraction(), None);
    assert_eq!(
        coverage.file("c.rs").unwrap().coverage_fraction(),
        Some(Ratio { hit: 0, found: 5 })
    );
}

#[test]
fn new_line_data_is_empty() {
    let data = LineData::new();
    assert_eq!(data.hit, None);
    assert_eq!(data.found, None);
    assert!(data.counts.is_empty());
    assert_eq!(data.coverage_fraction(), None);
}

#[test]
fn nested_begin_is_refused() {
    let mut coverage = Coverage::new();
    feed(&mut coverage, vec![begin("a.rs"), Record::LineData { line: 1, count: 1 }]);
    match coverage.consume(begin("b.rs")) {
        Err(CoverageError::UnexpectedRecord { record: Record::SourceFile { path }, block }) => {
            assert_eq!(path, "b.rs");
            assert_eq!(block, Some("a.rs".to_string()));
        }
        other => panic!("unexpected result {other:?}"),
    }
    assert!(coverage.consume(Record::EndOfRecord).is_ok());
    assert_eq!(coverage.file("a.rs").unwrap().counts.get(&1), Some(&1));
    assert!(coverage.file("b.rs").is_none());
}

#[test]
fn record_outside_block_is_refused() {
    let mut coverage = Coverage::new();
    for record in [
        Record::LineData { line: 1, count: 1 },
        Record::LinesFound { found: 1 },
        Record::LinesHit { hit: 1 },
        Record::EndOfRecord,
        Record::Other { kind: "TestName".to_string() },
    ] {
        match coverage.consume(record) {
            Err(CoverageError::UnexpectedRecord { block: None, .. }) => {}
            other => panic!("unexpected result {other:?}"),
        }
    }
    assert!(coverage.files().is_empty());
    assert!(coverage.finish().is_ok());
}

#[test]
fn other_record_in_block_is_refused() {
    let mut coverage = Coverage::new();
    feed(&mut coverage, vec![begin("a.rs")]);
    match coverage.consume(Record::Other { kind: "BranchData".to_string() }) {
        Err(CoverageError::UnexpectedRecord { record: Record::Other { kind }, block }) => {
            assert_eq!(kind, "BranchData");
            assert_eq!(block, Some("a.rs".to_string()));
        }
        other => panic!("unexpected result {other:?}"),
    }
}

#[test]
fn stream_ending_in_block_is_truncated() {
    let mut coverage = Coverage::new();
    feed(
        &mut coverage,
        vec![begin("a.rs"), Record::LineData { line: 1, count: 1 }, Record::LinesFound { found: 1 }],
    );
    match coverage.finish() {
        Err(CoverageError::TruncatedTrace { path }) => assert_eq!(path, "a.rs"),
        other => panic!("unexpected result {other:?}"),
    }
    assert!(coverage.file("a.rs").is_none());
    assert!(coverage.files().is_empty());
}

#[test]
fn later_block_replaces_earlier() {
    let mut coverage = Coverage::new();
    feed(
        &mut coverage,
        vec![
            begin("a.rs"),
            Record::LineData { line: 1, count: 7 },
            Record::LinesFound { found: 1 },
            Record::LinesHit { hit: 1 },
            Record::EndOfRecord,
            begin("b.rs"),
            Record::EndOfRecord,
            begin("a.rs"),
            Record::LineData { line: 2, count: 1 },
            Record::EndOfRecord,
        ],
    );
    let data = coverage.file("a.rs").unwrap();
    assert_eq!(data.counts.get(&1), None);
    assert_eq!(data.counts.get(&2), Some(&1));
    assert_eq!(data.hit, None);
    assert_eq!(data.found, None);
    assert_eq!(coverage.files().len(), 2);
}

#[test]
fn files_are_sorted_by_path() {
    let mut coverage = Coverage::new();
    for path in ["src/b.rs", "src/a.rs", "lib.rs", "src/ab.rs", "src/a.rs", "Z.rs"] {
        feed(&mut coverage, vec![begin(path), Record::EndOfRecord]);
    }
    let paths: Vec<&str> = coverage.files().iter().map(|f| f.path.as_str()).collect();
    assert_eq!(paths, vec!["Z.rs", "lib.rs", "src/a.rs", "src/ab.rs", "src/b.rs"]);
}

#[test]
fn fraction_unknown_when_nothing_instrumented() {
    let mut coverage = Coverage::new();
    feed(
        &mut coverage,
        vec![
            begin("a.rs"),
            Record::LinesFound { found: 0 },
            Record::LinesHit { hit: 0 },
            Record::EndOfRecord,
        ],
    );
    assert_eq!(coverage.file("a.rs").unwrap().coverage_fraction(), None);
}

#[test]
fn total_unknown_when_found_sums_to_zero() {
    let mut coverage = Coverage::new();
    feed(
        &mut coverage,
        vec![
            begin("a.rs"),
            Record::LinesFound { found: 0 },
            Record::LinesHit { hit: 0 },
            Record::EndOfRecord,
            begin("b.rs"),
            Record::LinesFound { found: 0 },
            Record::LinesHit { hit: 2 },
            Record::EndOfRecord,
        ],
    );
    assert_eq!(coverage.total_coverage(), None);
    feed(
        &mut coverage,
        vec![
            begin("c.rs"),
            Record::LinesFound { found: 4 },
            Record::LinesHit { hit: 1 },
            Record::EndOfRecord,
        ],
    );
    assert_eq!(coverage.total_coverage(), Some(Ratio { hit: 3, found: 4 }));
}
