use filefuser::file_data::claude::{ClaudeFileDataExtractorImpl, ProbeOutcome, sort_records};
use filefuser::file_data::model::{FileData, only_binaries, only_errors, only_text_files};

fn record(path: &str, is_text: Option<bool>, size: Option<u64>, error: Option<&str>) -> FileData {
    FileData {
        is_text,
        path_to_file: path.to_string(),
        size,
        error: error.map(|e| e.to_string()),
    }
}

fn sample_batch() -> Vec<FileData> {
    vec![
        record("a.txt", Some(true), Some(5), None),
        record("b.bin", Some(false), Some(3), None),
        record("c.log", None, None, Some("permission denied")),
        record("d.md", Some(true), Some(9), None),
    ]
}

#[test]
fn only_errors_keeps_exactly_the_failed_records() {
    let errors = only_errors(&sample_batch());
    assert_eq!(errors.len(), 1);
    assert_eq!(errors[0].path_to_file, "c.log");
    assert_eq!(errors[0].error.as_deref(), Some("permission denied"));
    assert_eq!(errors[0].is_text, None);
}

#[test]
fn only_text_files_keeps_exactly_the_text_records() {
    let text = only_text_files(&sample_batch());
    assert_eq!(text.len(), 2);
    assert_eq!(text[0].path_to_file, "a.txt");
    assert_eq!(text[1].path_to_file, "d.md");
}

#[test]
fn only_binaries_keeps_exactly_the_binary_records() {
    let binaries = only_binaries(&sample_batch());
    assert_eq!(binaries.len(), 1);
    assert_eq!(binaries[0].path_to_file, "b.bin");
}

#[test]
fn filters_on_empty_batch_are_empty() {
    let empty: Vec<FileData> = vec![];
    assert_eq!(only_errors(&empty).len(), 0);
    assert_eq!(only_text_files(&empty).len(), 0);
    assert_eq!(only_binaries(&empty).len(), 0);
}

#[test]
fn sort_records_orders_by_path() {
    let batch = vec![
        record("c.log", None, None, Some("x")),
        record("a.txt", Some(true), Some(5), None),
        record("b.bin", Some(false), Some(3), None),
    ];
    let sorted = sort_records(batch);
    let paths: Vec<&str> = sorted.iter().map(|r| r.path_to_file.as_str()).collect();
    assert_eq!(paths, vec!["a.txt", "b.bin", "c.log"]);
}

#[test]
fn classify_yields_one_record_per_candidate() {
    let extractor = ClaudeFileDataExtractorImpl::new();
    let outcomes = vec![
        ("b.bin".to_string(), ProbeOutcome::Read { size: 3, head: vec![0, 1, 2] }),
        ("a.txt".to_string(), ProbeOutcome::Read { size: 5, head: b"hello".to_vec() }),
        ("c.log".to_string(), ProbeOutcome::MetaFailed { message: "denied".to_string() }),
        ("d.dat".to_string(), ProbeOutcome::ReadFailed { size: 7, message: "gone".to_string() }),
    ];
    let records = extractor.classify_outcomes(outcomes);
    assert_eq!(records.len(), 4);
    // sorted by path, whatever the completion order was
    let paths: Vec<&str> = records.iter().map(|r| r.path_to_file.as_str()).collect();
    assert_eq!(paths, vec!["a.txt", "b.bin", "c.log", "d.dat"]);
    // a successful probe records size and verdict, and no error
    assert_eq!(records[0].is_text, Some(true));
    assert_eq!(records[0].size, Some(5));
    assert_eq!(records[0].error, None);
    assert_eq!(records[1].is_text, Some(false));
    assert_eq!(records[1].size, Some(3));
    // a failed metadata fetch leaves size and verdict unset
    assert_eq!(records[2].is_text, None);
    assert_eq!(records[2].size, None);
    assert_eq!(records[2].error.as_deref(), Some("denied"));
    // a failed read keeps the size but no verdict
    assert_eq!(records[3].is_text, None);
    assert_eq!(records[3].size, Some(7));
    assert_eq!(records[3].error.as_deref(), Some("gone"));
}

#[test]
fn classify_on_zero_candidates_yields_zero_records() {
    let extractor = ClaudeFileDataExtractorImpl::new();
    let records = extractor.classify_outcomes(vec![]);
    assert_eq!(records.len(), 0);
}

#[test]
fn one_failure_never_aborts_the_batch() {
    let extractor = ClaudeFileDataExtractorImpl::new();
    let outcomes = vec![
        ("bad".to_string(), ProbeOutcome::MetaFailed { message: "denied".to_string() }),
        ("good".to_string(), ProbeOutcome::Read { size: 2, head: b"ok".to_vec() }),
    ];
    let records = extractor.classify_outcomes(outcomes);
    assert_eq!(records.len(), 2);
    assert!(records[0].error.is_some());
    assert_eq!(records[1].is_text, Some(true));
}
