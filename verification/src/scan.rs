//! Character classes and the low-level scanners the lexer is built from.
//!
//! Every scanner exists twice: as a recursive specification over the text,
//! and as an executable loop proved to compute exactly that specification.

use vstd::prelude::*;

verus! {

/// Whitespace that is skipped between tokens.
pub open spec fn is_ws(c: char) -> bool {
    c == ' ' || c == '\t' || c == '\n' || c == '\r'
}

/// A decimal digit.
pub open spec fn is_digit(c: char) -> bool {
    48 <= c as u32 <= 57
}

/// An ASCII letter.
pub open spec fn is_letter(c: char) -> bool {
    (97 <= c as u32 <= 122) || (65 <= c as u32 <= 90)
}

/// An ASCII letter or decimal digit.
pub open spec fn is_alnum(c: char) -> bool {
    is_letter(c) || is_digit(c)
}

/// A codepoint that may start an identifier.
pub open spec fn is_ident_start(c: char) -> bool {
    is_letter(c) || c == '_'
}

/// A codepoint that may continue an identifier.
pub open spec fn is_ident_cont(c: char) -> bool {
    is_alnum(c) || c == '_' || c == '\''
}

/// A codepoint allowed inside a path segment.
pub open spec fn is_path_char(c: char) -> bool {
    is_alnum(c) || c == '.' || c == '_' || c == '-' || c == '+'
}

/// A codepoint allowed in the body of a URI literal.
pub open spec fn is_uri_char(c: char) -> bool {
    is_alnum(c) || c == '%' || c == '/' || c == '?' || c == ':' || c == '@' || c == '&' || c == '='
        || c == '+' || c == '$' || c == ',' || c == '-' || c == '_' || c == '.' || c == '!' || c
        == '~' || c == '*' || c == '\''
}

/// The character classes the run scanners work over.
#[derive(Clone, Copy, Debug, PartialEq, Eq, Structural)]
pub enum Cls {
    Ws,
    Digit,
    IdentCont,
    Alnum,
    PathChar,
    UriChar,
    NotNewline,
    SPathChar,
}

/// Membership of a codepoint in a character class. `SPathChar` covers the
/// inside of an angle-bracket path; `NotNewline` covers the body of a line
/// comment.
pub open spec fn in_cls(cl: Cls, c: char) -> bool {
    match cl {
        Cls::Ws => is_ws(c),
        Cls::Digit => is_digit(c),
        Cls::IdentCont => is_ident_cont(c),
        Cls::Alnum => is_alnum(c),
        Cls::PathChar => is_path_char(c),
        Cls::UriChar => is_uri_char(c),
        Cls::NotNewline => c != '\n',
        Cls::SPathChar => is_path_char(c) || c == '/',
    }
}

/// The end of the run of class `cl` codepoints starting at `i`: the first
/// index at or after `i` whose codepoint is not in the class.
pub open spec fn seek(cl: Cls, t: Seq<char>, i: int) -> int
    decreases t.len() - i,
{
    if 0 <= i < t.len() && in_cls(cl, t[i]) {
        seek(cl, t, i + 1)
    } else {
        i
    }
}

/// A run never leaves the text, covers only class codepoints, and stops at
/// the first codepoint outside the class.
pub proof fn lemma_seek_bounds(cl: Cls, t: Seq<char>, i: int)
    requires
        0 <= i <= t.len(),
    ensures
        i <= seek(cl, t, i) <= t.len(),
        forall|k: int| i <= k < seek(cl, t, i) ==> in_cls(cl, t[k]),
        seek(cl, t, i) < t.len() ==> !in_cls(cl, t[seek(cl, t, i)]),
    decreases t.len() - i,
{
    if i < t.len() && in_cls(cl, t[i]) {
        lemma_seek_bounds(cl, t, i + 1);
    }
}

/// Membership test for a character class.
pub fn cls_char(cl: Cls, c: char) -> (b: bool)
    ensures
        b == in_cls(cl, c),
{
    let u = c as u32;
    match cl {
        Cls::Ws => c == ' ' || c == '\t' || c == '\n' || c == '\r',
        Cls::Digit => 48 <= u && u <= 57,
        Cls::IdentCont => (97 <= u && u <= 122) || (65 <= u && u <= 90) || (48 <= u && u <= 57)
            || c == '_' || c == '\'',
        Cls::Alnum => (97 <= u && u <= 122) || (65 <= u && u <= 90) || (48 <= u && u <= 57),
        Cls::PathChar => (97 <= u && u <= 122) || (65 <= u && u <= 90) || (48 <= u && u <= 57)
            || c == '.' || c == '_' || c == '-' || c == '+',
        Cls::UriChar => (97 <= u && u <= 122) || (65 <= u && u <= 90) || (48 <= u && u <= 57)
            || c == '%' || c == '/' || c == '?' || c == ':' || c == '@' || c == '&' || c == '='
            || c == '+' || c == '$' || c == ',' || c == '-' || c == '_' || c == '.' || c == '!'
            || c == '~' || c == '*' || c == '\'',
        Cls::NotNewline => c != '\n',
        Cls::SPathChar => (97 <= u && u <= 122) || (65 <= u && u <= 90) || (48 <= u && u <= 57)
            || c == '.' || c == '_' || c == '-' || c == '+' || c == '/',
    }
}

/// Scan the run of class `cl` codepoints starting at `i`.
pub fn scan_while(t: &Vec<char>, i: usize, cl: Cls) -> (j: usize)
    requires
        i <= t@.len(),
    ensures
        j == seek(cl, t@, i as int),
        i <= j <= t@.len(),
{
    proof {
        lemma_seek_bounds(cl, t@, i as int);
    }
    let mut j = i;
    while j < t.len()
        invariant
            i <= j <= t@.len(),
            seek(cl, t@, i as int) == seek(cl, t@, j as int),
        decreases t@.len() - j,
    {
        if !cls_char(cl, t[j]) {
            return j;
        }
        j = j + 1;
    }
    j
}

/// The end of a path lexeme starting at `i`: path codepoints, and `/`
/// separators each followed by another path codepoint.
pub open spec fn path_end(t: Seq<char>, i: int) -> int
    decreases t.len() - i,
{
    if 0 <= i < t.len() && is_path_char(t[i]) {
        path_end(t, i + 1)
    } else if 0 <= i && i + 1 < t.len() && t[i] == '/' && is_path_char(t[i + 1]) {
        path_end(t, i + 1)
    } else {
        i
    }
}

/// A path lexeme never leaves the text.
pub proof fn lemma_path_end_bounds(t: Seq<char>, i: int)
    requires
        0 <= i <= t.len(),
    ensures
        i <= path_end(t, i) <= t.len(),
    decreases t.len() - i,
{
    if i < t.len() && is_path_char(t[i]) {
        lemma_path_end_bounds(t, i + 1);
    } else if i + 1 < t.len() && t[i] == '/' && is_path_char(t[i + 1]) {
        lemma_path_end_bounds(t, i + 1);
    }
}

/// Scan a path lexeme starting at `i`.
pub fn scan_path_end(t: &Vec<char>, i: usize) -> (j: usize)
    requires
        i <= t@.len(),
    ensures
        j == path_end(t@, i as int),
        i <= j <= t@.len(),
{
    proof {
        lemma_path_end_bounds(t@, i as int);
    }
    let mut j = i;
    while j < t.len()
        invariant
            i <= j <= t@.len(),
            path_end(t@, i as int) == path_end(t@, j as int),
        decreases t@.len() - j,
    {
        if cls_char(Cls::PathChar, t[j]) {
            j = j + 1;
        } else if t[j] == '/' && j + 1 < t.len() && cls_char(Cls::PathChar, t[j + 1]) {
            j = j + 1;
        } else {
            return j;
        }
    }
    j
}

/// The index just past the first `*/` at or after `i`, if the comment is
/// closed before the end of the text.
pub open spec fn block_close(t: Seq<char>, i: int) -> Option<int>
    decreases t.len() - i,
{
    if 0 <= i && i + 1 < t.len() && t[i] == '*' && t[i + 1] == '/' {
        Some(i + 2)
    } else if 0 <= i < t.len() {
        block_close(t, i + 1)
    } else {
        None
    }
}

/// A closed block comment ends inside the text, past its opening.
pub proof fn lemma_block_close_bounds(t: Seq<char>, i: int)
    requires
        0 <= i <= t.len(),
    ensures
        block_close(t, i) matches Some(j) ==> i + 2 <= j <= t.len(),
    decreases t.len() - i,
{
    if i + 1 < t.len() && t[i] == '*' && t[i + 1] == '/' {
    } else if i < t.len() {
        lemma_block_close_bounds(t, i + 1);
    }
}

/// Scan for the first `*/` at or after `i`.
pub fn scan_block_close(t: &Vec<char>, i: usize) -> (r: Option<usize>)
    requires
        i <= t@.len(),
    ensures
        match r {
            Some(j) => block_close(t@, i as int) == Some(j as int) && i + 2 <= j <= t@.len(),
            None => block_close(t@, i as int) is None,
        },
{
    proof {
        lemma_block_close_bounds(t@, i as int);
    }
    let mut j = i;
    while j < t.len()
        invariant
            i <= j <= t@.len(),
            block_close(t@, i as int) == block_close(t@, j as int),
        decreases t@.len() - j,
    {
        if j + 1 < t.len() && t[j] == '*' && t[j + 1] == '/' {
            return Some(j + 2);
        }
        j = j + 1;
    }
    None
}

/// A boundary that ends a literal run inside a string: the closing delimiter
/// of the current string kind (`"`, or `''` for indented strings), or the
/// `${` that opens an interpolation.
pub open spec fn str_boundary(t: Seq<char>, i: int, ind: bool) -> bool {
    0 <= i < t.len() && ((!ind && t[i] == '"') || (ind && t[i] == '\'' && i + 1 < t.len() && t[i
        + 1] == '\'') || (t[i] == '$' && i + 1 < t.len() && t[i + 1] == '{'))
}

/// The codepoint denoted by a backslash escape: `\n`, `\t` and `\r` name the
/// usual control codepoints, and a backslash before any other codepoint
/// yields that codepoint itself (so `\"`, `\'`, `\$` and `\\` are literal).
pub open spec fn esc_char(c: char) -> char {
    if c == 'n' {
        '\n'
    } else if c == 't' {
        '\t'
    } else if c == 'r' {
        '\r'
    } else {
        c
    }
}

/// The end of the literal run starting at `i` inside a string: the first
/// boundary or the end of the text, where a backslash always consumes the
/// codepoint after it.
pub open spec fn str_end(t: Seq<char>, i: int, ind: bool) -> int
    decreases t.len() - i,
{
    if !(0 <= i < t.len()) || str_boundary(t, i, ind) {
        i
    } else if t[i] == '\\' && i + 1 < t.len() {
        str_end(t, i + 2, ind)
    } else {
        str_end(t, i + 1, ind)
    }
}

/// The text denoted by the literal run starting at `i`, with escapes applied.
pub open spec fn str_val(t: Seq<char>, i: int, ind: bool) -> Seq<char>
    decreases t.len() - i,
{
    if !(0 <= i < t.len()) || str_boundary(t, i, ind) {
        seq![]
    } else if t[i] == '\\' && i + 1 < t.len() {
        seq![esc_char(t[i + 1])] + str_val(t, i + 2, ind)
    } else {
        seq![t[i]] + str_val(t, i + 1, ind)
    }
}

/// A literal run never leaves the text and stops only at a boundary or at
/// the end of the text.
pub proof fn lemma_str_end_bounds(t: Seq<char>, i: int, ind: bool)
    requires
        0 <= i <= t.len(),
    ensures
        i <= str_end(t, i, ind) <= t.len(),
        str_end(t, i, ind) == i && i < t.len() ==> str_boundary(t, i, ind),
    decreases t.len() - i,
{
    if !(0 <= i < t.len()) || str_boundary(t, i, ind) {
    } else if t[i] == '\\' && i + 1 < t.len() {
        lemma_str_end_bounds(t, i + 2, ind);
    } else {
        lemma_str_end_bounds(t, i + 1, ind);
    }
}

/// Test for a literal-run boundary at `i`.
pub fn str_boundary_at(t: &Vec<char>, i: usize, ind: bool) -> (b: bool)
    requires
        i <= t@.len(),
    ensures
        b == str_boundary(t@, i as int, ind),
{
    if i >= t.len() {
        return false;
    }
    let c = t[i];
    if !ind && c == '"' {
        true
    } else if ind && c == '\'' && i + 1 < t.len() && t[i + 1] == '\'' {
        true
    } else if c == '$' && i + 1 < t.len() && t[i + 1] == '{' {
        true
    } else {
        false
    }
}

/// Scan the literal run starting at `i` inside a string, returning where it
/// ends and the text it denotes.
pub fn scan_str_run(t: &Vec<char>, i: usize, ind: bool) -> (r: (usize, Vec<char>))
    requires
        i <= t@.len(),
    ensures
        r.0 == str_end(t@, i as int, ind),
        i <= r.0 <= t@.len(),
        r.1@ == str_val(t@, i as int, ind),
{
    proof {
        lemma_str_end_bounds(t@, i as int, ind);
    }
    let mut j = i;
    let mut val: Vec<char> = Vec::new();
    while j < t.len()
        invariant
            i <= j <= t@.len(),
            str_end(t@, i as int, ind) == str_end(t@, j as int, ind),
            str_val(t@, i as int, ind) == val@ + str_val(t@, j as int, ind),
        decreases t@.len() - j,
    {
        if str_boundary_at(t, j, ind) {
            proof {
                assert(str_val(t@, i as int, ind) =~= val@);
            }
            return (j, val);
        }
        let c = t[j];
        if c == '\\' && j + 1 < t.len() {
            let e = t[j + 1];
            let ec: char = if e == 'n' {
                '\n'
            } else if e == 't' {
                '\t'
            } else if e == 'r' {
                '\r'
            } else {
                e
            };
            proof {
                assert((val@ + seq![esc_char(t@[j as int + 1])]) + str_val(t@, j + 2, ind) =~= val@
                    + (seq![esc_char(t@[j as int + 1])] + str_val(t@, j + 2, ind)));
            }
            val.push(ec);
            j = j + 2;
        } else {
            proof {
                assert((val@ + seq![t@[j as int]]) + str_val(t@, j + 1, ind) =~= val@ + (seq![
                    t@[j as int],
                ] + str_val(t@, j + 1, ind)));
            }
            val.push(c);
            j = j + 1;
        }
    }
    proof {
        assert(str_val(t@, i as int, ind) =~= val@);
    }
    (j, val)
}

/// The numeric value of a run of decimal digit codepoints.
pub open spec fn digits_val(s: Seq<char>) -> int
    decreases s.len(),
{
    if s.len() == 0 {
        0
    } else {
        digits_val(s.drop_last()) * 10 + (s.last() as u32 - 48)
    }
}

/// The value of a digit run is never negative.
pub proof fn lemma_digits_val_nonneg(s: Seq<char>)
    requires
        forall|k: int| 0 <= k < s.len() ==> is_digit(s[k]),
    ensures
        digits_val(s) >= 0,
    decreases s.len(),
{
    if s.len() > 0 {
        lemma_digits_val_nonneg(s.drop_last());
    }
}

/// Extending a digit run never decreases its value.
pub proof fn lemma_digits_val_mono(s: Seq<char>, k: int)
    requires
        0 <= k <= s.len(),
        forall|m: int| 0 <= m < s.len() ==> is_digit(s[m]),
    ensures
        digits_val(s.take(k)) <= digits_val(s),
    decreases s.len() - k,
{
    if k < s.len() {
        lemma_digits_val_mono(s, k + 1);
        let p = s.take(k + 1);
        assert(p.drop_last() =~= s.take(k));
        assert(forall|m: int| 0 <= m < p.len() ==> is_digit(p[m]));
        lemma_digits_val_nonneg(s.take(k));
        assert(digits_val(p) == digits_val(s.take(k)) * 10 + (p.last() as u32 - 48));
    } else {
        assert(s.take(k) =~= s);
    }
}

/// Parse the digit run `t[i..j]` as a 64-bit signed integer, reporting an
/// overflow as `None`.
pub fn parse_digits(t: &Vec<char>, i: usize, j: usize) -> (r: Option<i64>)
    requires
        i <= j <= t@.len(),
        forall|k: int| i <= k < j ==> is_digit(t@[k]),
    ensures
        match r {
            Some(v) => v as int == digits_val(t@.subrange(i as int, j as int)) && v >= 0,
            None => digits_val(t@.subrange(i as int, j as int)) > i64::MAX as int,
        },
{
    let mut acc: u64 = 0;
    let mut k = i;
    proof {
        assert(t@.subrange(i as int, i as int) =~= Seq::<char>::empty());
    }
    while k < j
        invariant
            i <= k <= j <= t@.len(),
            forall|m: int| i <= m < j ==> is_digit(t@[m]),
            acc as int == digits_val(t@.subrange(i as int, k as int)),
            acc <= i64::MAX as u64,
        decreases j - k,
    {
        let ghost pre = t@.subrange(i as int, k as int);
        let ghost post = t@.subrange(i as int, k + 1);
        proof {
            assert(post.drop_last() =~= pre);
            assert(post.last() == t@[k as int]);
        }
        let d: u64 = (t[k] as u32 - 48) as u64;
        if acc > (i64::MAX as u64 - d) / 10 {
            proof {
                assert(digits_val(post) == acc * 10 + d);
                assert(digits_val(post) > i64::MAX as int);
                let full = t@.subrange(i as int, j as int);
                assert(full.take(k + 1 - i) =~= post);
                assert(forall|m: int| 0 <= m < full.len() ==> is_digit(full[m]));
                lemma_digits_val_mono(full, k + 1 - i);
            }
            return None;
        }
        acc = acc * 10 + d;
        k = k + 1;
    }
    Some(acc as i64)
}

} // verus!
