//! Small shared helpers: the text/binary heuristic applied to the first
//! bytes of a file, the translation of glob-like patterns into regular
//! expression source strings, and error-message decoration.

use vstd::prelude::*;

use vstd::utf8::valid_utf8;
use crate::strutil::str_chars;
use crate::patterns::{PatternError, views_of_strings};

verus! {

/// Prefixes an error message with a context description, yielding
/// `"<context>: <message>"`.
pub fn to_io_err_with_context(context: &str, message: &str) -> (r: String)
    ensures
        r@ == context@ + ": "@ + message@,
{
    let mut r = String::from_str(context);
    r.append(": ");
    r.append(message);
    r
}

/// A control character that ordinary text does not contain: a byte below
/// 0x20 other than line feed, carriage return and horizontal tab.
pub open spec fn is_unusual_control(b: u8) -> bool {
    b < 0x20 && b != 0x0a && b != 0x0d && b != 0x09
}

/// How many unusual control characters a byte sequence holds.
pub open spec fn control_count(bytes: Seq<u8>) -> int
    decreases bytes.len(),
{
    if bytes.len() == 0 {
        0
    } else {
        control_count(bytes.drop_last()) + if is_unusual_control(bytes.last()) {
            1int
        } else {
            0int
        }
    }
}

/// True when the sequence holds at least one NUL byte.
pub open spec fn has_nul(bytes: Seq<u8>) -> bool {
    exists|i: int| 0 <= i < bytes.len() && bytes[i] == 0
}

/// The text/binary heuristic: an empty sequence is text; any NUL byte
/// makes it binary; well-formed UTF-8 is text; otherwise it is text
/// exactly when the fraction of unusual control characters is strictly
/// below 0.30.
pub open spec fn is_text_spec(bytes: Seq<u8>) -> bool {
    if bytes.len() == 0 {
        true
    } else if has_nul(bytes) {
        false
    } else if valid_utf8(bytes) {
        true
    } else {
        10 * control_count(bytes) < 3 * bytes.len()
    }
}

/// An empty byte sample is always judged text.
pub proof fn lemma_empty_bytes_are_text(bytes: Seq<u8>)
    requires
        bytes.len() == 0,
    ensures
        is_text_spec(bytes),
{
}

/// A byte sample holding at least one NUL byte is always judged binary.
pub proof fn lemma_nul_byte_means_binary(bytes: Seq<u8>)
    requires
        exists|i: int| 0 <= i < bytes.len() && bytes[i] == 0,
    ensures
        !is_text_spec(bytes),
{
}

/// Relies on `std::str::from_utf8`, which succeeds exactly on
/// well-formed UTF-8 bytes.
#[verifier::external_body]
fn utf8_check(bytes: &[u8]) -> (r: bool)
    ensures
        r == valid_utf8(bytes@),
{
    std::str::from_utf8(bytes).is_ok()
}

/// Decides whether a byte sample looks like text, per the heuristic of
/// `is_text_spec`.
pub fn is_text(bytes: &[u8]) -> (r: bool)
    ensures
        r == is_text_spec(bytes@),
{
    let n: usize = bytes.len();
    if n == 0 {
        return true;
    }
    let mut i: usize = 0;
    while i < n
        invariant
            i <= n,
            n == bytes@.len(),
            forall|j: int| 0 <= j < i ==> bytes@[j] != 0,
        decreases n - i,
    {
        if bytes[i] == 0 {
            return false;
        }
        i = i + 1;
    }
    assert(!has_nul(bytes@));
    if utf8_check(bytes) {
        return true;
    }
    let mut count: usize = 0;
    i = 0;
    while i < n
        invariant
            i <= n,
            n == bytes@.len(),
            count <= i,
            count as int == control_count(bytes@.take(i as int)),
        decreases n - i,
    {
        let b: u8 = bytes[i];
        if b < 0x20 && b != 0x0a && b != 0x0d && b != 0x09 {
            count = count + 1;
        }
        i = i + 1;
        assert(bytes@.take(i as int).drop_last() =~= bytes@.take(i as int - 1));
        assert(bytes@.take(i as int).last() == bytes@[i as int - 1]);
    }
    assert(bytes@.take(n as int) =~= bytes@);
    (count as u128) * 10 < (n as u128) * 3
}

/// What one pattern character contributes to the regular expression:
/// `.` is escaped, `*` becomes `.*`, everything else stands as itself.
pub open spec fn regex_escaped_char(c: char) -> Seq<char> {
    if c == '.' {
        seq!['\\', '.']
    } else if c == '*' {
        seq!['.', '*']
    } else {
        seq![c]
    }
}

/// The escaped-and-substituted body of the regular expression for a
/// pattern.
pub open spec fn regex_escaped(p: Seq<char>) -> Seq<char>
    decreases p.len(),
{
    if p.len() == 0 {
        Seq::<char>::empty()
    } else {
        regex_escaped(p.drop_last()) + regex_escaped_char(p.last())
    }
}

/// The full regular expression for a pattern: an unanchored `.*` prefix
/// followed by the escaped pattern body.
pub open spec fn regex_of_pattern(p: Seq<char>) -> Seq<char> {
    seq!['.', '*'] + regex_escaped(p)
}

/// Relies on std's `FromIterator` impl for `String`: collecting
/// characters yields the string of exactly those characters.
#[verifier::external_body]
fn chars_to_string(v: &Vec<char>) -> (r: String)
    ensures
        r@ == v@,
{
    v.iter().collect()
}

/// Translates one glob-like pattern into the source text of an
/// equivalent regular expression, unanchored on both sides.
pub fn simple_pattern_to_regex(pattern: &str) -> (r: String)
    ensures
        r@ == regex_of_pattern(pattern@),
{
    let pv = str_chars(pattern);
    let n: usize = pv.len();
    let mut out: Vec<char> = Vec::new();
    out.push('.');
    out.push('*');
    assert(out@ =~= seq!['.', '*']);
    let mut i: usize = 0;
    while i < n
        invariant
            i <= n,
            n == pattern@.len(),
            pv@ == pattern@,
            out@ =~= seq!['.', '*'] + regex_escaped(pattern@.take(i as int)),
        decreases n - i,
    {
        let c: char = pv[i];
        if c == '.' {
            out.push('\\');
            out.push('.');
        } else if c == '*' {
            out.push('.');
            out.push('*');
        } else {
            out.push(c);
        }
        i = i + 1;
        assert(pattern@.take(i as int).drop_last() =~= pattern@.take(i as int - 1));
        assert(pattern@.take(i as int).last() == pattern@[i as int - 1]);
        assert(out@ =~= seq!['.', '*'] + regex_escaped(pattern@.take(i as int)));
    }
    assert(pattern@.take(n as int) =~= pattern@);
    chars_to_string(&out)
}

/// The regular expressions for a sequence of patterns.
pub open spec fn regexes_of(pats: Seq<Seq<char>>) -> Seq<Seq<char>> {
    pats.map_values(|p: Seq<char>| regex_of_pattern(p))
}

/// Translates a list of glob-like patterns into regular expression
/// source strings. Every pattern is accepted, so the result is always
/// `Ok` and holds one regular expression per pattern, in order.
pub fn simple_patterns_to_regexps(patterns: &Vec<String>) -> (r: Result<Vec<String>, PatternError>)
    ensures
        r is Ok,
        r matches Ok(regexps) ==> views_of_strings(regexps@) == regexes_of(
            views_of_strings(patterns@),
        ),
{
    let n: usize = patterns.len();
    let mut out: Vec<String> = Vec::new();
    let mut i: usize = 0;
    while i < n
        invariant
            i <= n,
            n == patterns@.len(),
            out@.len() == i,
            views_of_strings(out@) =~= regexes_of(views_of_strings(patterns@.take(i as int))),
        decreases n - i,
    {
        let re = simple_pattern_to_regex(patterns[i].as_str());
        let ghost old_out = out@;
        out.push(re);
        i = i + 1;
        proof {
            let ip = i as int;
            assert forall|k: int| 0 <= k < ip implies views_of_strings(out@)[k] == regexes_of(
                views_of_strings(patterns@.take(ip)),
            )[k] by {
                assert(views_of_strings(out@)[k] == out@[k]@);
                assert(views_of_strings(patterns@.take(ip))[k] == patterns@.take(ip)[k]@);
                assert(patterns@.take(ip)[k] == patterns@[k]);
                assert(regexes_of(views_of_strings(patterns@.take(ip)))[k] == regex_of_pattern(
                    patterns@[k]@,
                ));
                if k < ip - 1 {
                    assert(out@[k] == old_out[k]);
                    assert(views_of_strings(old_out)[k] == old_out[k]@);
                    assert(views_of_strings(patterns@.take(ip - 1))[k] == patterns@.take(
                        ip - 1,
                    )[k]@);
                    assert(patterns@.take(ip - 1)[k] == patterns@[k]);
                    assert(regexes_of(views_of_strings(patterns@.take(ip - 1)))[k]
                        == regex_of_pattern(patterns@[k]@));
                } else {
                    assert(out@[k]@ == re@);
                }
            }
            assert(views_of_strings(out@) =~= regexes_of(views_of_strings(patterns@.take(ip))));
        }
    }
    assert(patterns@.take(n as int) =~= patterns@);
    Ok(out)
}

} // verus!
