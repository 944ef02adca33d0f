//! Glob-like pattern matching. A pattern is a string in which `*` stands
//! for any run of characters and every other character stands for itself;
//! a pattern matches a path when it matches anywhere inside the path's
//! string (a substring match, anchored neither at the start nor at the
//! end). A set of patterns matches when at least one of its members does;
//! the empty set matches nothing.

use vstd::prelude::*;

use crate::strutil::str_chars;

verus! {

/// True when pattern `pat` matches some prefix of `text`: `*` consumes
/// any run of characters, every other pattern character must equal the
/// corresponding text character.
pub open spec fn matches_prefix(pat: Seq<char>, text: Seq<char>) -> bool
    decreases pat.len(), text.len(),
{
    if pat.len() == 0 {
        true
    } else if pat[0] == '*' {
        matches_prefix(pat.skip(1), text) || (text.len() > 0 && matches_prefix(pat, text.skip(1)))
    } else {
        text.len() > 0 && pat[0] == text[0] && matches_prefix(pat.skip(1), text.skip(1))
    }
}

/// True when pattern `pat` matches somewhere inside `text`.
pub open spec fn pattern_matches(pat: Seq<char>, text: Seq<char>) -> bool {
    exists|i: int| 0 <= i <= text.len() && matches_prefix(pat, text.skip(i))
}

/// True when at least one pattern of the set matches `text`. An empty
/// set matches nothing.
pub open spec fn any_pattern_matches(pats: Seq<Seq<char>>, text: Seq<char>) -> bool {
    exists|k: int| 0 <= k < pats.len() && pattern_matches(pats[k], text)
}

/// True when `needle` occurs as a contiguous substring of `hay`.
pub open spec fn is_substring(needle: Seq<char>, hay: Seq<char>) -> bool {
    exists|i: int|
        0 <= i && i + needle.len() <= hay.len() && #[trigger] hay.subrange(i, i + needle.len())
            == needle
}

/// For a pattern without `*`, matching a prefix of `text` is exactly
/// being equal to the text's first `pat.len()` characters.
proof fn lemma_no_star_prefix(pat: Seq<char>, text: Seq<char>)
    requires
        forall|i: int| 0 <= i < pat.len() ==> pat[i] != '*',
    ensures
        matches_prefix(pat, text) <==> (pat.len() <= text.len() && text.subrange(
            0,
            pat.len() as int,
        ) == pat),
    decreases pat.len(),
{
    let pl = pat.len() as int;
    if pat.len() == 0 {
        assert(text.subrange(0, 0) =~= pat);
    } else if text.len() == 0 {
    } else {
        lemma_no_star_prefix(pat.skip(1), text.skip(1));
        if matches_prefix(pat, text) {
            assert(text.skip(1).subrange(0, pl - 1) == pat.skip(1));
            assert(text.subrange(0, pl) =~= pat) by {
                assert forall|k: int| 0 <= k < pl implies text.subrange(0, pl)[k] == pat[k] by {
                    if k > 0 {
                        assert(text.skip(1).subrange(0, pl - 1)[k - 1] == text[k]);
                        assert(pat.skip(1)[k - 1] == pat[k]);
                    }
                }
            }
        }
        if pl <= text.len() && text.subrange(0, pl) == pat {
            assert(text.subrange(0, pl)[0] == text[0]);
            assert(text.skip(1).subrange(0, pl - 1) =~= pat.skip(1)) by {
                assert forall|k: int| 0 <= k < pl - 1 implies text.skip(1).subrange(0, pl - 1)[k]
                    == pat.skip(1)[k] by {
                    assert(text.skip(1).subrange(0, pl - 1)[k] == text[k + 1]);
                    assert(text.subrange(0, pl)[k + 1] == text[k + 1]);
                }
            }
            assert(matches_prefix(pat.skip(1), text.skip(1)));
        }
    }
}

/// A pattern with no `*` matches exactly the texts that contain it as a
/// literal substring.
pub proof fn lemma_literal_pattern_is_substring_match(pat: Seq<char>, text: Seq<char>)
    requires
        forall|i: int| 0 <= i < pat.len() ==> pat[i] != '*',
    ensures
        pattern_matches(pat, text) <==> is_substring(pat, text),
{
    let pl = pat.len() as int;
    if pattern_matches(pat, text) {
        let i = choose|i: int| 0 <= i <= text.len() && matches_prefix(pat, text.skip(i));
        lemma_no_star_prefix(pat, text.skip(i));
        assert(text.subrange(i, i + pl) =~= text.skip(i).subrange(0, pl));
        assert(is_substring(pat, text));
    }
    if is_substring(pat, text) {
        let i = choose|i: int|
            0 <= i && i + pat.len() <= text.len() && #[trigger] text.subrange(i, i + pat.len())
                == pat;
        lemma_no_star_prefix(pat, text.skip(i));
        assert(text.skip(i).subrange(0, pl) =~= text.subrange(i, i + pl));
        assert(matches_prefix(pat, text.skip(i)));
        assert(pattern_matches(pat, text));
    }
}

/// Decides `matches_prefix` on the suffixes of `pat` and `text` that
/// start at `pi` and `ti`.
fn matches_prefix_at(pat: &Vec<char>, text: &Vec<char>, pi: usize, ti: usize) -> (r: bool)
    requires
        pi <= pat.len(),
        ti <= text.len(),
    ensures
        r == matches_prefix(pat@.skip(pi as int), text@.skip(ti as int)),
    decreases pat.len() - pi, text.len() - ti,
{
    let ghost ps = pat@.skip(pi as int);
    let ghost ts = text@.skip(ti as int);
    if pi == pat.len() {
        true
    } else {
        assert(ps[0] == pat@[pi as int]);
        if pat[pi] == '*' {
            assert(ps.skip(1) =~= pat@.skip(pi as int + 1));
            if matches_prefix_at(pat, text, pi + 1, ti) {
                true
            } else if ti < text.len() {
                assert(ts.skip(1) =~= text@.skip(ti as int + 1));
                matches_prefix_at(pat, text, pi, ti + 1)
            } else {
                false
            }
        } else if ti < text.len() {
            assert(ts[0] == text@[ti as int]);
            if pat[pi] == text[ti] {
                assert(ps.skip(1) =~= pat@.skip(pi as int + 1));
                assert(ts.skip(1) =~= text@.skip(ti as int + 1));
                matches_prefix_at(pat, text, pi + 1, ti + 1)
            } else {
                false
            }
        } else {
            false
        }
    }
}

/// Decides whether `pat` matches anywhere inside `text`, trying every
/// start position in turn.
fn search(pat: &Vec<char>, text: &Vec<char>) -> (r: bool)
    ensures
        r == pattern_matches(pat@, text@),
{
    let n: usize = text.len();
    let mut i: usize = 0;
    while i < n
        invariant
            i <= n,
            n == text.len(),
            forall|j: int| 0 <= j < i ==> !matches_prefix(pat@, text@.skip(j)),
        decreases n - i,
    {
        if matches_prefix_at(pat, text, 0, i) {
            assert(pat@.skip(0) =~= pat@);
            assert(pattern_matches(pat@, text@));
            return true;
        }
        assert(pat@.skip(0) =~= pat@);
        i = i + 1;
    }
    if matches_prefix_at(pat, text, 0, n) {
        assert(pat@.skip(0) =~= pat@);
        assert(pattern_matches(pat@, text@));
        return true;
    }
    assert(pat@.skip(0) =~= pat@);
    false
}

/// The error surfaced when a user-supplied pattern cannot be turned into
/// a matcher. The matching engine accepts every pattern string, so this
/// error is never produced; the type remains so that callers can treat
/// pattern compilation like any other fallible stage.
#[derive(Debug)]
pub struct PatternError {
}

/// The character sequences of a sequence of strings.
pub open spec fn views_of_strings(s: Seq<String>) -> Seq<Seq<char>> {
    s.map_values(|x: String| x@)
}

/// The character sequences of a sequence of character vectors.
pub open spec fn views_of_char_vecs(s: Seq<Vec<char>>) -> Seq<Seq<char>> {
    s.map_values(|x: Vec<char>| x@)
}

/// A compiled set of glob-like patterns. Its view is the sequence of the
/// patterns' character sequences.
pub struct PatternSet {
    pats: Vec<Vec<char>>,
}

impl View for PatternSet {
    type V = Seq<Seq<char>>;

    closed spec fn view(&self) -> Seq<Seq<char>> {
        views_of_char_vecs(self.pats@)
    }
}

impl PatternSet {
    /// Compiles a list of pattern strings into a matcher set. Every
    /// pattern string is accepted, so the result is always `Ok` and
    /// holds exactly the given patterns.
    pub fn compile(patterns: &Vec<String>) -> (r: Result<PatternSet, PatternError>)
        ensures
            r is Ok,
            r matches Ok(ps) ==> ps@ == views_of_strings(patterns@),
    {
        let mut pats: Vec<Vec<char>> = Vec::new();
        let mut i: usize = 0;
        while i < patterns.len()
            invariant
                i <= patterns.len(),
                pats@.len() == i,
                views_of_char_vecs(pats@) =~= views_of_strings(patterns@.take(i as int)),
            decreases patterns.len() - i,
        {
            let cv = str_chars(patterns[i].as_str());
            assert(cv@ == patterns@[i as int]@);
            let ghost old_pats = pats@;
            pats.push(cv);
            i = i + 1;
            proof {
                let ip = i as int;
                assert forall|k: int| 0 <= k < ip implies views_of_char_vecs(pats@)[k]
                    == views_of_strings(patterns@.take(ip))[k] by {
                    assert(views_of_char_vecs(pats@)[k] == pats@[k]@);
                    assert(views_of_strings(patterns@.take(ip))[k] == patterns@.take(ip)[k]@);
                    assert(patterns@.take(ip)[k] == patterns@[k]);
                    if k < ip - 1 {
                        assert(pats@[k] == old_pats[k]);
                        assert(views_of_char_vecs(old_pats)[k] == old_pats[k]@);
                        assert(views_of_strings(patterns@.take(ip - 1))[k] == patterns@.take(
                            ip - 1,
                        )[k]@);
                        assert(patterns@.take(ip - 1)[k] == patterns@[k]);
                    } else {
                        assert(pats@[k]@ == cv@);
                    }
                }
                assert(views_of_char_vecs(pats@) =~= views_of_strings(patterns@.take(ip)));
            }
        }
        assert(patterns@.take(patterns@.len() as int) =~= patterns@);
        Ok(PatternSet { pats })
    }

    /// Tests a path string against the set: true exactly when at least
    /// one pattern matches somewhere inside the path. Matching is pure
    /// and touches no outside state.
    pub fn matches(&self, path: &str) -> (r: bool)
        ensures
            r == any_pattern_matches(self@, path@),
    {
        let tv = str_chars(path);
        let mut k: usize = 0;
        while k < self.pats.len()
            invariant
                k <= self.pats.len(),
                tv@ == path@,
                forall|j: int| 0 <= j < k ==> !pattern_matches(self@[j], path@),
            decreases self.pats.len() - k,
        {
            if search(&self.pats[k], &tv) {
                assert(self@[k as int] == self.pats@[k as int]@);
                assert(any_pattern_matches(self@, path@));
                return true;
            }
            assert(self@[k as int] == self.pats@[k as int]@);
            k = k + 1;
        }
        false
    }

    /// The number of patterns in the set.
    pub fn len(&self) -> (n: usize)
        ensures
            n == self@.len(),
    {
        self.pats.len()
    }
}

} // verus!
