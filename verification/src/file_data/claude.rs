//! The classifier: builds one classification record per candidate from
//! the candidate's path and the outcome of probing it, and orders the
//! finished batch by path so that downstream output is deterministic
//! regardless of the order in which the probes completed.

use vstd::prelude::*;

use crate::file_data::model::{FileData, FileDataView, rec_views};
use crate::io_utils::{is_text, is_text_spec};
use crate::strutil::{lex_le, str_le, lemma_lex_le_total, lemma_lex_le_trans};

verus! {

broadcast use vstd::seq_lib::group_to_multiset_ensures, vstd::multiset::group_multiset_axioms;

/// What probing one candidate file yielded: the metadata fetch failed,
/// the metadata gave a size but reading the head of the file failed, or
/// both succeeded and the first bytes are at hand.
pub enum ProbeOutcome {
    MetaFailed { message: String },
    ReadFailed { size: u64, message: String },
    Read { size: u64, head: Vec<u8> },
}

/// The mathematical value of a probe outcome.
pub enum ProbeOutcomeView {
    MetaFailed { message: Seq<char> },
    ReadFailed { size: u64, message: Seq<char> },
    Read { size: u64, head: Seq<u8> },
}

impl View for ProbeOutcome {
    type V = ProbeOutcomeView;

    open spec fn view(&self) -> ProbeOutcomeView {
        match self {
            ProbeOutcome::MetaFailed { message } => ProbeOutcomeView::MetaFailed {
                message: message@,
            },
            ProbeOutcome::ReadFailed { size, message } => ProbeOutcomeView::ReadFailed {
                size: *size,
                message: message@,
            },
            ProbeOutcome::Read { size, head } => ProbeOutcomeView::Read {
                size: *size,
                head: head@,
            },
        }
    }
}

/// The record that classification assigns to a candidate with the given
/// path and probe outcome: a failed probe leaves `is_text` unset and
/// records the error; a successful probe records the size and applies
/// the text heuristic to the file's first bytes.
pub open spec fn record_for(path: Seq<char>, o: ProbeOutcomeView) -> FileDataView {
    match o {
        ProbeOutcomeView::MetaFailed { message } => FileDataView {
            is_text: None,
            path_to_file: path,
            size: None,
            error: Some(message),
        },
        ProbeOutcomeView::ReadFailed { size, message } => FileDataView {
            is_text: None,
            path_to_file: path,
            size: Some(size),
            error: Some(message),
        },
        ProbeOutcomeView::Read { size, head } => FileDataView {
            is_text: Some(is_text_spec(head)),
            path_to_file: path,
            size: Some(size),
            error: None,
        },
    }
}

/// Exactly one of a successful verdict or an error holds of every
/// record the classifier produces: `is_text` is unset exactly when the
/// error is set. The record always carries the candidate's own path.
pub proof fn lemma_record_verdict_or_error(path: Seq<char>, o: ProbeOutcomeView)
    ensures
        record_for(path, o).error is Some <==> record_for(path, o).is_text is None,
        record_for(path, o).path_to_file == path,
{
}

/// The records for a sequence of (path, probe outcome) pairs, in order.
pub open spec fn records_of(inputs: Seq<(String, ProbeOutcome)>) -> Seq<FileDataView>
    decreases inputs.len(),
{
    if inputs.len() == 0 {
        Seq::<FileDataView>::empty()
    } else {
        records_of(inputs.drop_last()).push(
            record_for(inputs.last().0@, inputs.last().1@),
        )
    }
}

/// A batch of records ordered by path, lexicographically.
pub open spec fn sorted_by_path(s: Seq<FileDataView>) -> bool {
    forall|i: int, j: int|
        0 <= i < j < s.len() ==> lex_le(s[i].path_to_file, s[j].path_to_file)
}

/// Mapping the values of a sequence of records commutes with `push`.
proof fn lemma_rec_views_push(s: Seq<FileData>, x: FileData)
    ensures
        rec_views(s.push(x)) =~= rec_views(s).push(x@),
{
}

/// Mapping the values of a sequence of records commutes with `remove`.
proof fn lemma_rec_views_remove(s: Seq<FileData>, i: int)
    requires
        0 <= i < s.len(),
    ensures
        rec_views(s.remove(i)) =~= rec_views(s).remove(i),
{
}

/// The index of a record whose path is lexicographically least.
fn min_path_index(v: &Vec<FileData>) -> (m: usize)
    requires
        v@.len() > 0,
    ensures
        m < v@.len(),
        forall|k: int| 0 <= k < v@.len() ==> lex_le(v@[m as int]@.path_to_file, v@[k]@.path_to_file),
{
    let mut m: usize = 0;
    let mut j: usize = 1;
    proof {
        lemma_lex_le_total(v@[0]@.path_to_file, v@[0]@.path_to_file);
    }
    while j < v.len()
        invariant
            m < j,
            1 <= j <= v@.len(),
            forall|k: int| 0 <= k < j ==> lex_le(v@[m as int]@.path_to_file, v@[k]@.path_to_file),
        decreases v@.len() - j,
    {
        let ghost pm = v@[m as int]@.path_to_file;
        let ghost pj = v@[j as int]@.path_to_file;
        if str_le(v[j].path_to_file.as_str(), v[m].path_to_file.as_str()) {
            proof {
                assert forall|k: int| 0 <= k < j + 1 implies lex_le(pj, v@[k]@.path_to_file) by {
                    if k < j {
                        lemma_lex_le_trans(pj, pm, v@[k]@.path_to_file);
                    } else {
                        lemma_lex_le_total(pj, pj);
                    }
                }
            }
            m = j;
        } else {
            proof {
                lemma_lex_le_total(pm, pj);
            }
        }
        j = j + 1;
    }
    m
}

/// Orders a batch of records by path. The result holds exactly the
/// given records, rearranged into lexicographic path order.
pub fn sort_records(file_data_list: Vec<FileData>) -> (r: Vec<FileData>)
    ensures
        r@.len() == file_data_list@.len(),
        sorted_by_path(rec_views(r@)),
        rec_views(r@).to_multiset() == rec_views(file_data_list@).to_multiset(),
{
    let mut rem = file_data_list;
    let ghost orig = rem@;
    let mut out: Vec<FileData> = Vec::new();
    while rem.len() > 0
        invariant
            out@.len() + rem@.len() == orig.len(),
            rec_views(out@).to_multiset().add(rec_views(rem@).to_multiset()) == rec_views(
                orig,
            ).to_multiset(),
            sorted_by_path(rec_views(out@)),
            forall|i: int, k: int|
                0 <= i < out@.len() && 0 <= k < rem@.len() ==> lex_le(
                    out@[i]@.path_to_file,
                    rem@[k]@.path_to_file,
                ),
        decreases rem@.len(),
    {
        let m = min_path_index(&rem);
        let ghost old_rem = rem@;
        let ghost old_out = out@;
        let x = rem.remove(m);
        let ghost xv = x@;
        out.push(x);
        proof {
            let mi = m as int;
            assert(xv == old_rem[mi]@);
            assert(rem@ == old_rem.remove(mi));
            lemma_rec_views_remove(old_rem, mi);
            lemma_rec_views_push(old_out, old_rem[mi]);
            assert(rec_views(old_rem)[mi] == xv);
            assert(rec_views(old_rem).contains(xv));
            // the multisets balance: one copy of the moved record leaves
            // the remainder and joins the output
            assert(rec_views(rem@).to_multiset() =~= rec_views(old_rem).to_multiset().remove(
                xv,
            ));
            assert(rec_views(out@).to_multiset() =~= rec_views(old_out).to_multiset().insert(
                xv,
            ));
            assert(rec_views(old_rem).to_multiset().count(xv) > 0);
            assert(rec_views(out@).to_multiset().add(rec_views(rem@).to_multiset())
                =~= rec_views(old_out).to_multiset().add(rec_views(old_rem).to_multiset()));
            // the output stays sorted: the moved record's path is least
            // among the remainder, and not below any already placed
            assert forall|i: int, j: int|
                0 <= i < j < out@.len() implies lex_le(
                rec_views(out@)[i].path_to_file,
                rec_views(out@)[j].path_to_file,
            ) by {
                if j < out@.len() - 1 {
                    assert(lex_le(rec_views(old_out)[i].path_to_file, rec_views(
                        old_out,
                    )[j].path_to_file));
                } else {
                    assert(lex_le(old_out[i]@.path_to_file, old_rem[mi]@.path_to_file));
                }
            }
            // every record already placed is still not above any record
            // that remains
            assert forall|i: int, k: int|
                0 <= i < out@.len() && 0 <= k < rem@.len() implies lex_le(
                out@[i]@.path_to_file,
                rem@[k]@.path_to_file,
            ) by {
                let ko = if k < mi {
                    k
                } else {
                    k + 1
                };
                assert(rem@[k] == old_rem[ko]);
                if i < out@.len() - 1 {
                    assert(lex_le(old_out[i]@.path_to_file, old_rem[ko]@.path_to_file));
                } else {
                    assert(lex_le(old_rem[mi]@.path_to_file, old_rem[ko]@.path_to_file));
                }
            }
        }
    }
    proof {
        assert(rem@.len() == 0);
        assert forall|a: FileDataView|
            rec_views(out@).to_multiset().add(rec_views(rem@).to_multiset()).count(a)
                == rec_views(out@).to_multiset().count(a) by {
            assert(!rec_views(rem@).contains(a));
            assert(rec_views(rem@).to_multiset().count(a) == 0);
        }
        assert(rec_views(out@).to_multiset() =~= rec_views(orig).to_multiset());
    }
    out
}

/// The classifier. It is stateless; classification is a pure function
/// of each candidate's probe outcome.
pub struct ClaudeFileDataExtractorImpl {
}

impl ClaudeFileDataExtractorImpl {
    /// Creates a new classifier.
    pub fn new() -> Self {
        Self {  }
    }

    /// Builds the classification record for one candidate from its path
    /// and probe outcome. A failed probe never aborts anything: it is
    /// recorded as this candidate's error.
    pub fn make_record(path: String, outcome: ProbeOutcome) -> (r: FileData)
        ensures
            r@ == record_for(path@, outcome@),
    {
        let ghost ov = outcome@;
        let r = match outcome {
            ProbeOutcome::MetaFailed { message } => FileData {
                is_text: None,
                path_to_file: path,
                size: None,
                error: Some(message),
            },
            ProbeOutcome::ReadFailed { size, message } => FileData {
                is_text: None,
                path_to_file: path,
                size: Some(size),
                error: Some(message),
            },
            ProbeOutcome::Read { size, head } => {
                let t = is_text(head.as_slice());
                FileData {
                    is_text: Some(t),
                    path_to_file: path,
                    size: Some(size),
                    error: None,
                }
            },
        };
        assert(r@ =~= record_for(r@.path_to_file, ov));
        r
    }

    /// Classifies a whole batch: one record per (path, probe outcome)
    /// pair — never fewer, whatever the outcomes — ordered by path.
    pub fn classify_outcomes(&self, outcomes: Vec<(String, ProbeOutcome)>) -> (r: Vec<FileData>)
        ensures
            r@.len() == outcomes@.len(),
            sorted_by_path(rec_views(r@)),
            rec_views(r@).to_multiset() == records_of(outcomes@).to_multiset(),
    {
        let mut inputs = outcomes;
        let ghost orig = inputs@;
        let mut recs: Vec<FileData> = Vec::new();
        while inputs.len() > 0
            invariant
                recs@.len() + inputs@.len() == orig.len(),
                inputs@ =~= orig.skip(recs@.len() as int),
                rec_views(recs@) =~= records_of(orig.take(recs@.len() as int)),
            decreases inputs@.len(),
        {
            let ghost old_recs = recs@;
            let ghost old_inputs = inputs@;
            let pr = inputs.remove(0);
            let rec = Self::make_record(pr.0, pr.1);
            recs.push(rec);
            proof {
                let kp = recs@.len() as int;
                assert(old_inputs[0] == orig[kp - 1]);
                assert(inputs@ =~= old_inputs.remove(0));
                assert(inputs@ =~= orig.skip(kp));
                lemma_rec_views_push(old_recs, rec);
                let prefix = orig.take(kp);
                assert(prefix.drop_last() =~= orig.take(kp - 1));
                assert(prefix.last() == orig[kp - 1]);
                assert(rec@ == record_for(orig[kp - 1].0@, orig[kp - 1].1@));
                assert(rec_views(recs@) =~= records_of(orig.take(kp)));
            }
        }
        assert(orig.take(recs@.len() as int) =~= orig);
        let r = sort_records(recs);
        assert(rec_views(r@).to_multiset() == records_of(orig).to_multiset());
        r
    }
}

} // verus!
