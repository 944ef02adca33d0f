//! Candidate selection: which of the nodes discovered by a directory
//! walk become candidate files. A node is selected exactly when it is a
//! regular file and its path matches at least one pattern of the set;
//! an empty pattern set selects nothing. The walk itself — and the
//! propagation of a directory that cannot be listed as a fatal scan
//! error, with no partial candidate list — lives with the caller that
//! owns the file system.

use vstd::prelude::*;

use crate::patterns::{PatternSet, PatternError, any_pattern_matches, views_of_strings};

verus! {

/// One node discovered by the directory walk: its path, and whether it
/// is a regular file (directories are never candidates).
pub struct WalkEntry {
    pub path: String,
    pub is_file: bool,
}

/// The mathematical value of a walked node.
pub struct WalkEntryView {
    pub path: Seq<char>,
    pub is_file: bool,
}

impl View for WalkEntry {
    type V = WalkEntryView;

    open spec fn view(&self) -> WalkEntryView {
        WalkEntryView { path: self.path@, is_file: self.is_file }
    }
}

/// The values of a sequence of walked nodes.
pub open spec fn entry_views(s: Seq<WalkEntry>) -> Seq<WalkEntryView> {
    s.map_values(|e: WalkEntry| e@)
}

/// A walked node that the pattern set selects: a regular file whose
/// path matches at least one pattern.
pub open spec fn selected(e: WalkEntryView, pats: Seq<Seq<char>>) -> bool {
    e.is_file && any_pattern_matches(pats, e.path)
}

/// The paths of the selected nodes, in walk order.
pub open spec fn selected_paths(entries: Seq<WalkEntryView>, pats: Seq<Seq<char>>) -> Seq<
    Seq<char>,
>
    decreases entries.len(),
{
    if entries.len() == 0 {
        Seq::<Seq<char>>::empty()
    } else if selected(entries.last(), pats) {
        selected_paths(entries.drop_last(), pats).push(entries.last().path)
    } else {
        selected_paths(entries.drop_last(), pats)
    }
}

/// An empty pattern set selects no candidate, whatever was walked.
pub proof fn lemma_empty_patterns_select_nothing(entries: Seq<WalkEntryView>, pats: Seq<Seq<char>>)
    requires
        pats.len() == 0,
    ensures
        selected_paths(entries, pats).len() == 0,
    decreases entries.len(),
{
    if entries.len() > 0 {
        lemma_empty_patterns_select_nothing(entries.drop_last(), pats);
    }
}

/// Candidate selection is deterministic: walks that discover the same
/// entries, filtered with the same patterns, select the same candidate
/// paths.
pub proof fn lemma_selection_deterministic(
    e1: Seq<WalkEntryView>,
    e2: Seq<WalkEntryView>,
    pats: Seq<Seq<char>>,
)
    requires
        e1 == e2,
    ensures
        selected_paths(e1, pats) == selected_paths(e2, pats),
{
}

/// Filters the nodes of a completed directory walk down to the
/// candidate files: the regular files whose paths match the pattern
/// set. Pattern compilation accepts every pattern, so the result is
/// always `Ok` and holds exactly the selected paths, in walk order.
pub fn get_files(entries: &Vec<WalkEntry>, patterns: &Vec<String>) -> (r: Result<
    Vec<String>,
    PatternError,
>)
    ensures
        r is Ok,
        r matches Ok(files) ==> views_of_strings(files@) == selected_paths(
            entry_views(entries@),
            views_of_strings(patterns@),
        ),
{
    let pset = match PatternSet::compile(patterns) {
        Ok(p) => p,
        Err(e) => {
            return Err(e);
        },
    };
    let n: usize = entries.len();
    let mut out: Vec<String> = Vec::new();
    let mut i: usize = 0;
    while i < n
        invariant
            i <= n,
            n == entries@.len(),
            pset@ == views_of_strings(patterns@),
            views_of_strings(out@) =~= selected_paths(
                entry_views(entries@).take(i as int),
                views_of_strings(patterns@),
            ),
        decreases n - i,
    {
        let e = &entries[i];
        let ghost old_out = out@;
        let ghost ev = entries@[i as int]@;
        let keep = if e.is_file {
            pset.matches(e.path.as_str())
        } else {
            false
        };
        if keep {
            let p = e.path.clone();
            out.push(p);
            proof {
                assert(views_of_strings(out@) =~= views_of_strings(old_out).push(ev.path));
            }
        }
        i = i + 1;
        proof {
            let ip = i as int;
            let all = entry_views(entries@);
            assert(all[ip - 1] == ev);
            assert(all.take(ip).drop_last() =~= all.take(ip - 1));
            assert(all.take(ip).last() == ev);
            assert(views_of_strings(out@) =~= selected_paths(
                all.take(ip),
                views_of_strings(patterns@),
            ));
        }
    }
    assert(entry_views(entries@).take(n as int) =~= entry_views(entries@));
    Ok(out)
}

} // verus!
