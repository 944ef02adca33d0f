//! Assembly of the multipart EML document: a header block, one
//! introduction part, one attachment part per included text file in the
//! given order, and a closing boundary marker, all tagged with one
//! boundary token. A file whose bytes are not well-formed UTF-8 is
//! skipped rather than aborting the archive.

use vstd::prelude::*;

use vstd::utf8::{valid_utf8, decode_utf8};
use crate::strutil::{basename, file_base_name};

verus! {

/// A text file handed to the archiver: its path and its full content
/// bytes, already read.
pub struct TextFile {
    pub path: String,
    pub content: Vec<u8>,
}

/// The mathematical value of a text file.
pub struct TextFileView {
    pub path: Seq<char>,
    pub content: Seq<u8>,
}

impl View for TextFile {
    type V = TextFileView;

    open spec fn view(&self) -> TextFileView {
        TextFileView { path: self.path@, content: self.content@ }
    }
}

/// The values of a sequence of text files.
pub open spec fn text_file_views(s: Seq<TextFile>) -> Seq<TextFileView> {
    s.map_values(|f: TextFile| f@)
}

/// The header block: date, fixed sender, recipient and subject lines,
/// the MIME version, and the multipart content type that names the
/// boundary token, ended by a blank line.
pub open spec fn spec_eml_headers(date: Seq<char>, boundary: Seq<char>) -> Seq<char> {
    "Date: "@ + date + "\r\n"@ + "From: EmlArchiver <archiver@example.com>\r\n"@
        + "To: User <user@example.com>\r\n"@ + "Subject: Archived Files\r\n"@
        + "MIME-Version: 1.0\r\n"@ + "Content-Type: multipart/mixed; boundary=\""@ + boundary
        + "\"\r\n\r\n"@
}

/// The introduction part: a boundary delimiter line, the text part
/// headers, a blank line, and the fixed introductory text.
pub open spec fn spec_introduction_part(boundary: Seq<char>) -> Seq<char> {
    "--"@ + boundary + "\r\n"@ + "Content-Type: text/plain; charset=UTF-8\r\n"@
        + "Content-Transfer-Encoding: 8bit\r\n\r\n"@
        + "This is an archived collection of files created by EmlArchiver.\r\n\r\n"@
}

/// One attachment part's header: a boundary delimiter line, the text
/// part headers, and the disposition line carrying the file's name,
/// ended by a blank line.
pub open spec fn spec_file_part_header(boundary: Seq<char>, file_name: Seq<char>) -> Seq<char> {
    "--"@ + boundary + "\r\n"@ + "Content-Type: text/plain; charset=UTF-8\r\n"@
        + "Content-Transfer-Encoding: 8bit\r\n"@ + "Content-Disposition: attachment; filename=\""@
        + file_name + "\"\r\n\r\n"@
}

/// The closing boundary marker that ends the document.
pub open spec fn spec_closing(boundary: Seq<char>) -> Seq<char> {
    "--"@ + boundary + "--\r\n"@
}

/// What one text file contributes to the document: its part header
/// (named by the path's base name), its decoded content and a trailing
/// blank line — or nothing at all when its bytes are not well-formed
/// UTF-8.
pub open spec fn spec_file_part(boundary: Seq<char>, f: TextFileView) -> Seq<char> {
    if valid_utf8(f.content) {
        spec_file_part_header(boundary, basename(f.path)) + decode_utf8(f.content) + "\r\n\r\n"@
    } else {
        Seq::<char>::empty()
    }
}

/// The concatenation of all attachment parts, in the files' order.
pub open spec fn spec_parts(boundary: Seq<char>, files: Seq<TextFileView>) -> Seq<char>
    decreases files.len(),
{
    if files.len() == 0 {
        Seq::<char>::empty()
    } else {
        spec_parts(boundary, files.drop_last()) + spec_file_part(boundary, files.last())
    }
}

/// The whole document: headers, introduction, attachment parts, closing
/// marker.
pub open spec fn spec_document(date: Seq<char>, boundary: Seq<char>, files: Seq<TextFileView>) -> Seq<
    char,
> {
    spec_eml_headers(date, boundary) + spec_introduction_part(boundary) + spec_parts(
        boundary,
        files,
    ) + spec_closing(boundary)
}

/// With no text files the document is exactly the header block, the
/// introduction part and the closing boundary marker — and never an
/// error.
pub proof fn lemma_empty_document(date: Seq<char>, boundary: Seq<char>)
    ensures
        spec_document(date, boundary, Seq::<TextFileView>::empty()) == spec_eml_headers(
            date,
            boundary,
        ) + spec_introduction_part(boundary) + spec_closing(boundary),
{
    assert(spec_parts(boundary, Seq::<TextFileView>::empty()) =~= Seq::<char>::empty());
    assert(spec_document(date, boundary, Seq::<TextFileView>::empty()) =~= spec_eml_headers(
        date,
        boundary,
    ) + spec_introduction_part(boundary) + spec_closing(boundary));
}

/// A well-formed boundary token: the fixed `--boundary_` prefix and a
/// 36-character token, free of line breaks and quotes.
pub open spec fn boundary_ok(b: Seq<char>) -> bool {
    &&& b.len() == 47
    &&& b.subrange(0, 11) == "--boundary_"@
    &&& forall|i: int| 0 <= i < b.len() ==> b[i] != '\r' && b[i] != '\n' && b[i] != '"'
}

/// A well-formed date line: free of line breaks.
pub open spec fn date_ok(d: Seq<char>) -> bool {
    forall|i: int| 0 <= i < d.len() ==> d[i] != '\r' && d[i] != '\n'
}

/// Relies on `uuid::Uuid::new_v4` and the hyphenated lower-case form
/// its `Display` impl produces: 36 characters, each a hex digit or a
/// hyphen, which the fixed prefix extends to 47.
#[verifier::external_body]
fn generate_boundary() -> (r: String)
    ensures
        boundary_ok(r@),
{
    format!("--boundary_{}", uuid::Uuid::new_v4())
}

/// Relies on `chrono::Utc::now` and its formatting with
/// `%a, %d %b %Y %H:%M:%S %z`: an RFC-822-style date line that never
/// holds a line break.
#[verifier::external_body]
fn current_date_rfc822() -> (r: String)
    ensures
        date_ok(r@),
{
    chrono::Utc::now().format("%a, %d %b %Y %H:%M:%S %z").to_string()
}

/// Relies on `String::from_utf8`, which succeeds exactly on well-formed
/// UTF-8 and yields the decoded characters.
#[verifier::external_body]
fn decode_text(bytes: &Vec<u8>) -> (r: Option<String>)
    ensures
        r is Some <==> valid_utf8(bytes@),
        r matches Some(s) ==> s@ == decode_utf8(bytes@),
{
    match String::from_utf8(bytes.clone()) {
        Ok(s) => Some(s),
        Err(_) => None,
    }
}

/// The EML archiver: assembles one multipart document per run.
pub struct EmlArchiver;

impl EmlArchiver {
    /// Creates a new EmlArchiver instance.
    pub fn new() -> Self {
        Self {  }
    }

    /// Creates the EML header block for the given date line and
    /// boundary token.
    pub fn create_eml_headers(date: &str, boundary: &str) -> (r: String)
        ensures
            r@ == spec_eml_headers(date@, boundary@),
    {
        let mut headers = String::from_str("Date: ");
        headers.append(date);
        headers.append("\r\n");
        headers.append("From: EmlArchiver <archiver@example.com>\r\n");
        headers.append("To: User <user@example.com>\r\n");
        headers.append("Subject: Archived Files\r\n");
        headers.append("MIME-Version: 1.0\r\n");
        headers.append("Content-Type: multipart/mixed; boundary=\"");
        headers.append(boundary);
        headers.append("\"\r\n\r\n");
        headers
    }

    /// Creates the introduction part for the EML file.
    pub fn create_introduction_part(boundary: &str) -> (r: String)
        ensures
            r@ == spec_introduction_part(boundary@),
    {
        let mut intro = String::from_str("--");
        intro.append(boundary);
        intro.append("\r\n");
        intro.append("Content-Type: text/plain; charset=UTF-8\r\n");
        intro.append("Content-Transfer-Encoding: 8bit\r\n\r\n");
        intro.append("This is an archived collection of files created by EmlArchiver.\r\n\r\n");
        intro
    }

    /// Creates an attachment part's header for the EML file.
    pub fn create_file_part_header(boundary: &str, file_name: &str) -> (r: String)
        ensures
            r@ == spec_file_part_header(boundary@, file_name@),
    {
        let mut header = String::from_str("--");
        header.append(boundary);
        header.append("\r\n");
        header.append("Content-Type: text/plain; charset=UTF-8\r\n");
        header.append("Content-Transfer-Encoding: 8bit\r\n");
        header.append("Content-Disposition: attachment; filename=\"");
        header.append(file_name);
        header.append("\"\r\n\r\n");
        header
    }

    /// True when a part header can name the file: the path has a
    /// non-empty base name. Whether the file exists is its reader's
    /// concern, settled before its content reaches the archiver.
    pub fn is_valid_file(path: &str) -> (r: bool)
        ensures
            r == (basename(path@).len() > 0),
    {
        let name = file_base_name(path);
        name.unicode_len() > 0
    }

    /// Appends one file's attachment part to the document under
    /// construction: the part header, the decoded content and a blank
    /// line. A file whose bytes are not well-formed UTF-8 is skipped
    /// and the document is left unchanged; the result says whether the
    /// file was included.
    pub fn process_file(boundary: &str, file: &TextFile, eml_content: &mut String) -> (included:
        bool)
        ensures
            final(eml_content)@ == old(eml_content)@ + spec_file_part(boundary@, file@),
            included == valid_utf8(file@.content),
    {
        match decode_text(&file.content) {
            Some(text) => {
                let name = file_base_name(file.path.as_str());
                let header = Self::create_file_part_header(boundary, name.as_str());
                eml_content.append(header.as_str());
                eml_content.append(text.as_str());
                eml_content.append("\r\n\r\n");
                assert(eml_content@ =~= old(eml_content)@ + spec_file_part(boundary@, file@));
                true
            },
            None => {
                assert(eml_content@ =~= old(eml_content)@ + spec_file_part(boundary@, file@));
                false
            },
        }
    }

    /// Assembles the whole document for a given date line and boundary
    /// token: headers, introduction, one part per file in the given
    /// order (files that are not well-formed UTF-8 are skipped), and
    /// the closing marker.
    pub fn assemble_document(date: &str, boundary: &str, files: &Vec<TextFile>) -> (doc: String)
        ensures
            doc@ == spec_document(date@, boundary@, text_file_views(files@)),
    {
        let mut doc = Self::create_eml_headers(date, boundary);
        let intro = Self::create_introduction_part(boundary);
        doc.append(intro.as_str());
        let ghost head = spec_eml_headers(date@, boundary@) + spec_introduction_part(boundary@);
        assert(doc@ =~= head + spec_parts(boundary@, text_file_views(files@).take(0)));
        let n: usize = files.len();
        let mut i: usize = 0;
        while i < n
            invariant
                i <= n,
                n == files@.len(),
                doc@ == head + spec_parts(boundary@, text_file_views(files@).take(i as int)),
            decreases n - i,
        {
            Self::process_file(boundary, &files[i], &mut doc);
            i = i + 1;
            proof {
                let ip = i as int;
                let all = text_file_views(files@);
                assert(all.take(ip).drop_last() =~= all.take(ip - 1));
                assert(all.take(ip).last() == all[ip - 1]);
                assert(all[ip - 1] == files@[ip - 1]@);
                assert(doc@ =~= head + spec_parts(boundary@, all.take(ip)));
            }
        }
        assert(text_file_views(files@).take(n as int) =~= text_file_views(files@));
        doc.append("--");
        doc.append(boundary);
        doc.append("--\r\n");
        assert(doc@ =~= spec_document(date@, boundary@, text_file_views(files@)));
        doc
    }

    /// Builds the document for the given text files with a fresh
    /// boundary token and the current date: some well-formed boundary
    /// and date line exist for which the result is exactly the
    /// assembled document.
    pub fn build_document(&self, files: &Vec<TextFile>) -> (doc: String)
        ensures
            exists|date: Seq<char>, boundary: Seq<char>|
                date_ok(date) && boundary_ok(boundary) && doc@ == spec_document(
                    date,
                    boundary,
                    text_file_views(files@),
                ),
    {
        let boundary = generate_boundary();
        let date = current_date_rfc822();
        let doc = Self::assemble_document(date.as_str(), boundary.as_str(), files);
        assert(date_ok(date@) && boundary_ok(boundary@) && doc@ == spec_document(
            date@,
            boundary@,
            text_file_views(files@),
        ));
        doc
    }
}

} // verus!
