use filefuser::io::eml::{EmlArchiver, TextFile};
use filefuser::strutil::{file_base_name, str_le};

fn text_file(path: &str, content: &[u8]) -> TextFile {
    TextFile { path: path.to_string(), content: content.to_vec() }
}

fn expected_headers(date: &str, boundary: &str) -> String {
    format!(
        "Date: {date}\r\nFrom: EmlArchiver <archiver@example.com>\r\nTo: User <user@example.com>\r\nSubject: Archived Files\r\nMIME-Version: 1.0\r\nContent-Type: multipart/mixed; boundary=\"{boundary}\"\r\n\r\n"
    )
}

fn expected_intro(boundary: &str) -> String {
    format!(
        "--{boundary}\r\nContent-Type: text/plain; charset=UTF-8\r\nContent-Transfer-Encoding: 8bit\r\n\r\nThis is an archived collection of files created by EmlArchiver.\r\n\r\n"
    )
}

fn expected_part(boundary: &str, name: &str, body: &str) -> String {
    format!(
        "--{boundary}\r\nContent-Type: text/plain; charset=UTF-8\r\nContent-Transfer-Encoding: 8bit\r\nContent-Disposition: attachment; filename=\"{name}\"\r\n\r\n{body}\r\n\r\n"
    )
}

#[test]
fn empty_archive_is_headers_intro_and_closing_only() {
    let date = "Mon, 01 Jan 2024 00:00:00 +0000";
    let boundary = "BNDRY";
    let doc = EmlArchiver::assemble_document(date, boundary, &vec![]);
    let expected = format!(
        "{}{}--{}--\r\n",
        expected_headers(date, boundary),
        expected_intro(boundary),
        boundary
    );
    assert_eq!(expected, doc);
    assert!(!doc.contains("Content-Disposition"));
}

#[test]
fn one_text_file_becomes_one_attachment_part() {
    let date = "Mon, 01 Jan 2024 00:00:00 +0000";
    let boundary = "BNDRY";
    let files = vec![text_file("/root/a.txt", b"hello")];
    let doc = EmlArchiver::assemble_document(date, boundary, &files);
    let expected = format!(
        "{}{}{}--{}--\r\n",
        expected_headers(date, boundary),
        expected_intro(boundary),
        expected_part(boundary, "a.txt", "hello"),
        boundary
    );
    assert_eq!(expected, doc);
}

#[test]
fn files_appear_in_the_given_order() {
    let date = "D";
    let boundary = "B";
    let files = vec![text_file("/x/a.txt", b"first"), text_file("/x/b.txt", b"second")];
    let doc = EmlArchiver::assemble_document(date, boundary, &files);
    let a = doc.find("filename=\"a.txt\"").unwrap();
    let b = doc.find("filename=\"b.txt\"").unwrap();
    assert!(a < b);
    assert!(doc.contains("first"));
    assert!(doc.contains("second"));
}

#[test]
fn non_utf8_file_is_skipped_not_fatal() {
    let date = "D";
    let boundary = "B";
    let files = vec![
        text_file("/x/bad.bin", &[0xff, 0xfe, 0x00]),
        text_file("/x/good.txt", b"kept"),
    ];
    let doc = EmlArchiver::assemble_document(date, boundary, &files);
    assert!(!doc.contains("bad.bin"));
    assert!(doc.contains("filename=\"good.txt\""));
    assert!(doc.contains("kept"));
}

#[test]
fn process_file_reports_whether_it_included() {
    let mut doc = String::new();
    let included = EmlArchiver::process_file("B", &text_file("/x/a.txt", b"hi"), &mut doc);
    assert!(included);
    assert_eq!(doc, expected_part("B", "a.txt", "hi"));
    let mut doc2 = String::new();
    let included2 = EmlArchiver::process_file("B", &text_file("/x/bad", &[0xff, 0xc0]), &mut doc2);
    assert!(!included2);
    assert_eq!(doc2, "");
}

#[test]
fn built_document_carries_a_fresh_boundary_token() {
    let archiver = EmlArchiver::new();
    let doc = archiver.build_document(&vec![text_file("/x/a.txt", b"hello")]);
    // the boundary token is 47 characters starting with --boundary_, and
    // every part delimiter prefixes it with --
    let start = doc.find("boundary=\"").unwrap() + "boundary=\"".len();
    let token = &doc[start..start + 47];
    assert!(token.starts_with("--boundary_"));
    assert!(doc.contains(&format!("--{token}\r\n")));
    assert!(doc.ends_with(&format!("--{token}--\r\n")));
    assert!(doc.contains("hello"));
}

#[test]
fn two_runs_use_distinct_boundary_tokens() {
    let archiver = EmlArchiver::new();
    let d1 = archiver.build_document(&vec![]);
    let d2 = archiver.build_document(&vec![]);
    let token = |d: &str| {
        let start = d.find("boundary=\"").unwrap() + "boundary=\"".len();
        d[start..start + 47].to_string()
    };
    assert_ne!(token(&d1), token(&d2));
}

#[test]
fn is_valid_file_requires_a_base_name() {
    assert!(EmlArchiver::is_valid_file("/root/a.txt"));
    assert!(EmlArchiver::is_valid_file("plain"));
    assert!(!EmlArchiver::is_valid_file("/root/dir/"));
    assert!(!EmlArchiver::is_valid_file(""));
}

#[test]
fn base_name_is_the_suffix_after_the_last_slash() {
    assert_eq!(file_base_name("/root/sub/a.txt"), "a.txt");
    assert_eq!(file_base_name("plain"), "plain");
    assert_eq!(file_base_name("/root/dir/"), "");
    assert_eq!(file_base_name(""), "");
}

#[test]
fn path_order_is_lexicographic() {
    assert!(str_le("a.txt", "b.bin"));
    assert!(!str_le("b.bin", "a.txt"));
    assert!(str_le("abc", "abc"));
    assert!(str_le("ab", "abc"));
    assert!(!str_le("abc", "ab"));
}
