//! Character-level helpers shared by the pattern matcher, the record
//! sorter and the archiver: extraction of a string's characters,
//! lexicographic order on character sequences, and base-name extraction
//! from a path string.

use vstd::prelude::*;

verus! {

/// The characters of `s`, as an indexable vector.
pub fn str_chars(s: &str) -> (r: Vec<char>)
    ensures
        r@ == s@,
{
    let n: usize = s.unicode_len();
    let mut r: Vec<char> = Vec::new();
    let mut i: usize = 0;
    while i < n
        invariant
            i <= n,
            n == s@.len(),
            r@ == s@.take(i as int),
        decreases n - i,
    {
        r.push(s.get_char(i));
        i = i + 1;
        assert(r@ =~= s@.take(i as int));
    }
    assert(r@ =~= s@);
    r
}

/// Lexicographic "less than or equal" on character sequences, ordering
/// characters by their Unicode scalar values.
pub open spec fn lex_le(a: Seq<char>, b: Seq<char>) -> bool
    decreases a.len(),
{
    if a.len() == 0 {
        true
    } else if b.len() == 0 {
        false
    } else if (a[0] as u32) != (b[0] as u32) {
        (a[0] as u32) < (b[0] as u32)
    } else {
        lex_le(a.skip(1), b.skip(1))
    }
}

/// `lex_le` is total: any two character sequences are comparable.
pub proof fn lemma_lex_le_total(a: Seq<char>, b: Seq<char>)
    ensures
        lex_le(a, b) || lex_le(b, a),
    decreases a.len(),
{
    if a.len() == 0 {
    } else if b.len() == 0 {
    } else if a[0] as u32 == b[0] as u32 {
        lemma_lex_le_total(a.skip(1), b.skip(1));
    }
}

/// `lex_le` is transitive.
pub proof fn lemma_lex_le_trans(a: Seq<char>, b: Seq<char>, c: Seq<char>)
    requires
        lex_le(a, b),
        lex_le(b, c),
    ensures
        lex_le(a, c),
    decreases a.len(),
{
    if a.len() == 0 {
    } else {
        if a[0] as u32 == b[0] as u32 && b[0] as u32 == c[0] as u32 {
            lemma_lex_le_trans(a.skip(1), b.skip(1), c.skip(1));
        }
    }
}

/// Decides `lex_le` on the suffixes of `a` and `b` that start at `i`.
fn lex_le_from(a: &Vec<char>, b: &Vec<char>, i: usize) -> (r: bool)
    requires
        i <= a.len(),
        i <= b.len(),
    ensures
        r == lex_le(a@.skip(i as int), b@.skip(i as int)),
    decreases a.len() - i,
{
    if i == a.len() {
        true
    } else if i == b.len() {
        false
    } else {
        let ca: char = a[i];
        let cb: char = b[i];
        assert(a@.skip(i as int)[0] == a@[i as int]);
        assert(b@.skip(i as int)[0] == b@[i as int]);
        if (ca as u32) != (cb as u32) {
            (ca as u32) < (cb as u32)
        } else {
            let r = lex_le_from(a, b, i + 1);
            assert(a@.skip(i as int).skip(1) =~= a@.skip(i as int + 1));
            assert(b@.skip(i as int).skip(1) =~= b@.skip(i as int + 1));
            r
        }
    }
}

/// Decides the lexicographic order on two strings, by characters.
pub fn str_le(a: &str, b: &str) -> (r: bool)
    ensures
        r == lex_le(a@, b@),
{
    let av = str_chars(a);
    let bv = str_chars(b);
    let r = lex_le_from(&av, &bv, 0);
    assert(av@.skip(0) =~= a@);
    assert(bv@.skip(0) =~= b@);
    r
}

/// The base name of a path: the longest suffix that contains no `/`.
pub open spec fn basename(p: Seq<char>) -> Seq<char>
    decreases p.len(),
{
    if p.len() == 0 {
        p
    } else if p.last() == '/' {
        Seq::<char>::empty()
    } else {
        basename(p.drop_last()) + seq![p.last()]
    }
}

/// Extracts the base name of a path string: everything after the last
/// `/`, or the whole string when it has none.
pub fn file_base_name(path: &str) -> (r: String)
    ensures
        r@ == basename(path@),
{
    let v = str_chars(path);
    let n: usize = v.len();
    let mut start: usize = 0;
    let mut i: usize = 0;
    while i < n
        invariant
            start <= i,
            i <= n,
            n == path@.len(),
            v@ == path@,
            basename(path@.take(i as int)) =~= path@.subrange(start as int, i as int),
        decreases n - i,
    {
        let c: char = v[i];
        i = i + 1;
        assert(path@.take(i as int).drop_last() =~= path@.take(i as int - 1));
        assert(path@.take(i as int).last() == path@[i as int - 1]);
        if c == '/' {
            start = i;
        }
        assert(basename(path@.take(i as int)) =~= path@.subrange(start as int, i as int));
    }
    assert(path@.take(n as int) =~= path@);
    let base = path.substring_char(start, n);
    String::from_str(base)
}

} // verus!
