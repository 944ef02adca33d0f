//! The classification record itself and the filters that split a batch
//! of records into errors, text files and binaries.

use vstd::prelude::*;

verus! {

/// The mathematical value of a classification record.
#[verifier::ext_equal]
pub struct FileDataView {
    pub is_text: Option<bool>,
    pub path_to_file: Seq<char>,
    pub size: Option<u64>,
    pub error: Option<Seq<char>>,
}

/// One candidate file's classification outcome. After classification
/// exactly one of a successful verdict (`is_text` set) or an `error`
/// holds; `is_text` is `None` only when `error` is set.
#[derive(Debug)]
pub struct FileData {
    pub is_text: Option<bool>,
    pub path_to_file: String,
    pub size: Option<u64>,
    pub error: Option<String>,
}

impl View for FileData {
    type V = FileDataView;

    open spec fn view(&self) -> FileDataView {
        FileDataView {
            is_text: self.is_text,
            path_to_file: self.path_to_file@,
            size: self.size,
            error: match self.error {
                Option::Some(e) => Option::Some(e@),
                Option::None => Option::None,
            },
        }
    }
}

impl Clone for FileData {
    /// Cloning a record keeps its value.
    fn clone(&self) -> (res: Self)
        ensures
            res@ == self@,
    {
        let res = FileData {
            is_text: self.is_text,
            path_to_file: self.path_to_file.clone(),
            size: self.size,
            error: match &self.error {
                Option::Some(e) => Option::Some(e.clone()),
                Option::None => Option::None,
            },
        };
        assert(res@ =~= self@);
        res
    }
}

/// The values of a sequence of records.
pub open spec fn rec_views(s: Seq<FileData>) -> Seq<FileDataView> {
    s.map_values(|fd: FileData| fd@)
}

/// A record that carries an error.
pub open spec fn is_error_rec(v: FileDataView) -> bool {
    v.error is Some
}

/// A record classified as text.
pub open spec fn is_text_rec(v: FileDataView) -> bool {
    v.is_text == Option::<bool>::Some(true)
}

/// A record classified as binary.
pub open spec fn is_binary_rec(v: FileDataView) -> bool {
    v.is_text == Option::<bool>::Some(false)
}

/// The subsequence of records that carry an error.
pub open spec fn errors_of(s: Seq<FileDataView>) -> Seq<FileDataView>
    decreases s.len(),
{
    if s.len() == 0 {
        s
    } else if is_error_rec(s.last()) {
        errors_of(s.drop_last()).push(s.last())
    } else {
        errors_of(s.drop_last())
    }
}

/// The subsequence of records classified as text.
pub open spec fn text_files_of(s: Seq<FileDataView>) -> Seq<FileDataView>
    decreases s.len(),
{
    if s.len() == 0 {
        s
    } else if is_text_rec(s.last()) {
        text_files_of(s.drop_last()).push(s.last())
    } else {
        text_files_of(s.drop_last())
    }
}

/// The subsequence of records classified as binary.
pub open spec fn binaries_of(s: Seq<FileDataView>) -> Seq<FileDataView>
    decreases s.len(),
{
    if s.len() == 0 {
        s
    } else if is_binary_rec(s.last()) {
        binaries_of(s.drop_last()).push(s.last())
    } else {
        binaries_of(s.drop_last())
    }
}

/// Mapping the values of a sequence of records commutes with `push`.
proof fn lemma_rec_views_push(s: Seq<FileData>, x: FileData)
    ensures
        rec_views(s.push(x)) =~= rec_views(s).push(x@),
{
}

/// The records that carry an error, in their original order.
pub fn only_errors(file_data_list: &Vec<FileData>) -> (r: Vec<FileData>)
    ensures
        rec_views(r@) == errors_of(rec_views(file_data_list@)),
{
    let n: usize = file_data_list.len();
    let mut out: Vec<FileData> = Vec::new();
    let mut i: usize = 0;
    while i < n
        invariant
            i <= n,
            n == file_data_list@.len(),
            rec_views(out@) =~= errors_of(rec_views(file_data_list@).take(i as int)),
        decreases n - i,
    {
        let fd = &file_data_list[i];
        let ghost old_out = out@;
        let ghost fdv = file_data_list@[i as int]@;
        if fd.error.is_some() {
            let c = fd.clone();
            out.push(c);
            proof {
                lemma_rec_views_push(old_out, c);
                assert(rec_views(out@) =~= rec_views(old_out).push(fdv));
            }
        }
        i = i + 1;
        proof {
            let ip = i as int;
            let all = rec_views(file_data_list@);
            assert(all[ip - 1] == fdv);
            assert(all.take(ip).drop_last() =~= all.take(ip - 1));
            assert(all.take(ip).last() == fdv);
            assert(rec_views(out@) =~= errors_of(all.take(ip)));
        }
    }
    assert(rec_views(file_data_list@).take(n as int) =~= rec_views(file_data_list@));
    out
}

/// The records classified as text, in their original order.
pub fn only_text_files(file_data_list: &Vec<FileData>) -> (r: Vec<FileData>)
    ensures
        rec_views(r@) == text_files_of(rec_views(file_data_list@)),
{
    let n: usize = file_data_list.len();
    let mut out: Vec<FileData> = Vec::new();
    let mut i: usize = 0;
    while i < n
        invariant
            i <= n,
            n == file_data_list@.len(),
            rec_views(out@) =~= text_files_of(rec_views(file_data_list@).take(i as int)),
        decreases n - i,
    {
        let fd = &file_data_list[i];
        let ghost old_out = out@;
        let ghost fdv = file_data_list@[i as int]@;
        let keep = match &fd.is_text {
            Option::Some(b) => *b,
            Option::None => false,
        };
        if keep {
            let c = fd.clone();
            out.push(c);
            proof {
                lemma_rec_views_push(old_out, c);
                assert(rec_views(out@) =~= rec_views(old_out).push(fdv));
            }
        }
        i = i + 1;
        proof {
            let ip = i as int;
            let all = rec_views(file_data_list@);
            assert(all[ip - 1] == fdv);
            assert(all.take(ip).drop_last() =~= all.take(ip - 1));
            assert(all.take(ip).last() == fdv);
            assert(rec_views(out@) =~= text_files_of(all.take(ip)));
        }
    }
    assert(rec_views(file_data_list@).take(n as int) =~= rec_views(file_data_list@));
    out
}

/// The records classified as binary, in their original order.
pub fn only_binaries(file_data_list: &Vec<FileData>) -> (r: Vec<FileData>)
    ensures
        rec_views(r@) == binaries_of(rec_views(file_data_list@)),
{
    let n: usize = file_data_list.len();
    let mut out: Vec<FileData> = Vec::new();
    let mut i: usize = 0;
    while i < n
        invariant
            i <= n,
            n == file_data_list@.len(),
            rec_views(out@) =~= binaries_of(rec_views(file_data_list@).take(i as int)),
        decreases n - i,
    {
        let fd = &file_data_list[i];
        let ghost old_out = out@;
        let ghost fdv = file_data_list@[i as int]@;
        let keep = match &fd.is_text {
            Option::Some(b) => !*b,
            Option::None => false,
        };
        if keep {
            let c = fd.clone();
            out.push(c);
            proof {
                lemma_rec_views_push(old_out, c);
                assert(rec_views(out@) =~= rec_views(old_out).push(fdv));
            }
        }
        i = i + 1;
        proof {
            let ip = i as int;
            let all = rec_views(file_data_list@);
            assert(all[ip - 1] == fdv);
            assert(all.take(ip).drop_last() =~= all.take(ip - 1));
            assert(all.take(ip).last() == fdv);
            assert(rec_views(out@) =~= binaries_of(all.take(ip)));
        }
    }
    assert(rec_views(file_data_list@).take(n as int) =~= rec_views(file_data_list@));
    out
}

} // verus!
