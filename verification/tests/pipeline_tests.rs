//! The whole pipeline on an in-memory tree: scan, classify, filter,
//! assemble.

use filefuser::dirscan::{get_files, WalkEntry};
use filefuser::file_data::claude::{ClaudeFileDataExtractorImpl, ProbeOutcome};
use filefuser::file_data::model::{only_errors, only_text_files};
use filefuser::io::eml::{EmlArchiver, TextFile};

#[test]
fn end_to_end_text_file_archived_binary_left_out() {
    // a directory holding a.txt ("hello") and b.bin ([0, 1, 2]),
    // scanned with the pattern list ["*.txt"]
    let tree = vec![
        WalkEntry { path: "/dir".to_string(), is_file: false },
        WalkEntry { path: "/dir/a.txt".to_string(), is_file: true },
        WalkEntry { path: "/dir/b.bin".to_string(), is_file: true },
    ];
    let contents: Vec<(&str, &[u8])> = vec![("/dir/a.txt", b"hello"), ("/dir/b.bin", &[0, 1, 2])];
    let patterns = vec!["*.txt".to_string()];

    let candidates = get_files(&tree, &patterns).unwrap();
    assert_eq!(candidates, vec!["/dir/a.txt".to_string()]);

    let extractor = ClaudeFileDataExtractorImpl::new();
    let outcomes: Vec<(String, ProbeOutcome)> = candidates
        .iter()
        .map(|path| {
            let bytes = contents.iter().find(|(p, _)| p == path).unwrap().1;
            (path.clone(), ProbeOutcome::Read { size: bytes.len() as u64, head: bytes.to_vec() })
        })
        .collect();
    let records = extractor.classify_outcomes(outcomes);
    assert_eq!(records.len(), 1);
    assert_eq!(records[0].path_to_file, "/dir/a.txt");
    assert_eq!(records[0].is_text, Some(true));
    assert_eq!(records[0].size, Some(5));

    assert_eq!(only_errors(&records).len(), 0);
    let text_records = only_text_files(&records);
    let files: Vec<TextFile> = text_records
        .iter()
        .map(|r| {
            let bytes = contents.iter().find(|(p, _)| *p == r.path_to_file).unwrap().1;
            TextFile { path: r.path_to_file.clone(), content: bytes.to_vec() }
        })
        .collect();

    let doc = EmlArchiver::assemble_document("D", "B", &files);
    assert!(doc.contains("Content-Disposition: attachment; filename=\"a.txt\""));
    assert!(doc.contains("\r\n\r\nhello\r\n\r\n"));
    assert!(!doc.contains("b.bin"));
}
