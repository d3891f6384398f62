//! The specification of the lexer: a step machine over the input text.
//!
//! A machine state is an index into the text, the position reached so far,
//! and a stack of open frames (string literals, braces, interpolations).
//! `step_spec` says what one step of the lexer does; `trace` strings the
//! steps together until the text and the frame stack are exhausted. The
//! executable lexer is proved to follow this machine step by step.

use crate::pos::PosS;
use crate::pos::pos_origin;
use crate::pos::pos_walk;
use crate::scan::Cls;
use crate::scan::block_close;
use crate::scan::digits_val;
use crate::scan::is_digit;
use crate::scan::is_ident_start;
use crate::scan::is_letter;
use crate::scan::is_path_char;
use crate::scan::is_uri_char;
use crate::scan::is_ws;
use crate::scan::path_end;
use crate::scan::seek;
use crate::scan::str_boundary;
use crate::scan::str_end;
use crate::scan::str_val;
use crate::token::ErrKind;
use crate::token::ErrS;
use crate::token::TokK;
use crate::token::TokS;
use vstd::prelude::*;

verus! {

/// An open construct the lexer is inside of: a string literal (with its
/// kind and the position of its opening delimiter), a plain `{`, or a
/// `${` interpolation.
pub enum FrameK {
    Str { indented: bool, open: PosS },
    Brace,
    Interp,
}

/// A state of the lexer: the index of the next codepoint, the position it
/// is at, and the stack of open frames.
pub struct StK {
    pub i: int,
    pub pos: PosS,
    pub frames: Seq<FrameK>,
}

/// The outcome of one step: the next state, at most one emitted token, and
/// at most one reported diagnostic.
pub struct StepRes {
    pub st: StK,
    pub tok: Option<TokS>,
    pub err: Option<ErrS>,
}

/// The state a fresh lexer starts in.
pub open spec fn init_st() -> StK {
    StK { i: 0, pos: pos_origin(), frames: seq![] }
}

/// The state is inside the text.
pub open spec fn wf_st(t: Seq<char>, st: StK) -> bool {
    0 <= st.i <= t.len()
}

/// The lexer is finished: all input consumed and no open frame left.
pub open spec fn st_done(t: Seq<char>, st: StK) -> bool {
    st.i == t.len() && st.frames.len() == 0
}

/// The lexer is in string mode: the innermost open frame is a string.
pub open spec fn in_string(st: StK) -> bool {
    st.frames.len() > 0 && st.frames.last() is Str
}

/// The state after consuming up to index `j`, with the frames unchanged.
pub open spec fn adv_st(t: Seq<char>, st: StK, j: int) -> StK {
    StK { i: j, pos: pos_walk(st.pos, t, st.i, j), frames: st.frames }
}

/// A step that consumes up to `j` and emits nothing.
pub open spec fn skip_to(t: Seq<char>, st: StK, j: int) -> StepRes {
    StepRes { st: adv_st(t, st, j), tok: None, err: None }
}

/// A step that consumes up to `j` and emits one token of kind `k` spanning
/// the consumed codepoints.
pub open spec fn emit(t: Seq<char>, st: StK, j: int, k: TokK) -> StepRes {
    StepRes {
        st: adv_st(t, st, j),
        tok: Some(TokS { kind: k, start: st.pos, end: pos_walk(st.pos, t, st.i, j) }),
        err: None,
    }
}

/// A two-codepoint operator begins at these codepoints.
pub open spec fn is_op2(a: char, b: char) -> bool {
    (a == '-' && b == '>') || (a == '>' && b == '=') || (a == '=' && b == '=') || (a == '!' && b
        == '=') || (a == '&' && b == '&') || (a == '|' && b == '|') || (a == '/' && b == '/') || (a
        == '+' && b == '+')
}

/// The kind of the two-codepoint operator starting with `a`.
pub open spec fn op2k(a: char) -> TokK {
    if a == '-' {
        TokK::Implies
    } else if a == '>' {
        TokK::GreaterEq
    } else if a == '=' {
        TokK::Equals
    } else if a == '!' {
        TokK::NotEquals
    } else if a == '&' {
        TokK::And
    } else if a == '|' {
        TokK::Or
    } else if a == '/' {
        TokK::Update
    } else {
        TokK::Concat
    }
}

/// A single-codepoint operator or punctuation mark (`<`, `.`, `{` and `}`
/// are dispatched separately).
pub open spec fn is_op1(c: char) -> bool {
    c == '*' || c == '-' || c == '+' || c == '/' || c == '>' || c == '=' || c == '!' || c == '@'
        || c == ',' || c == '?' || c == ':' || c == ';' || c == '(' || c == ')' || c == '[' || c
        == ']'
}

/// The kind of the single-codepoint operator `c`.
pub open spec fn op1k(c: char) -> TokK {
    if c == '*' {
        TokK::Mult
    } else if c == '-' {
        TokK::Minus
    } else if c == '+' {
        TokK::Plus
    } else if c == '/' {
        TokK::Divide
    } else if c == '>' {
        TokK::Greater
    } else if c == '=' {
        TokK::Assign
    } else if c == '!' {
        TokK::Not
    } else if c == '@' {
        TokK::At
    } else if c == ',' {
        TokK::Comma
    } else if c == '?' {
        TokK::Question
    } else if c == ':' {
        TokK::Colon
    } else if c == ';' {
        TokK::Semicolon
    } else if c == '(' {
        TokK::ParenL
    } else if c == ')' {
        TokK::ParenR
    } else if c == '[' {
        TokK::BracketL
    } else {
        TokK::BracketR
    }
}

/// A path lexeme begins at `i`: either `~/` followed by a path codepoint, or
/// a run of path codepoints followed by a `/` that is itself followed by a
/// path codepoint (so `//`, the update operator, never starts a path).
pub open spec fn is_path_at(t: Seq<char>, i: int) -> bool {
    (t[i] == '~' && i + 1 < t.len() && t[i + 1] == '/' && i + 2 < t.len() && is_path_char(
        t[i + 2],
    )) || ({
        let j = seek(Cls::PathChar, t, i);
        j < t.len() && t[j] == '/' && j + 1 < t.len() && is_path_char(t[j + 1])
    })
}

/// Where the path lexeme beginning at `i` ends.
pub open spec fn path_stop(t: Seq<char>, i: int) -> int {
    if t[i] == '~' {
        path_end(t, i + 1)
    } else {
        path_end(t, i)
    }
}

/// A URI literal begins at `i`: a scheme (alphanumeric run starting with a
/// letter) followed directly by `:` and at least one URI codepoint.
pub open spec fn is_uri_at(t: Seq<char>, i: int) -> bool {
    is_letter(t[i]) && ({
        let k = seek(Cls::Alnum, t, i);
        k < t.len() && t[k] == ':' && k + 1 < t.len() && is_uri_char(t[k + 1])
    })
}

/// Where the URI literal beginning at `i` ends.
pub open spec fn uri_stop(t: Seq<char>, i: int) -> int {
    seek(Cls::UriChar, t, seek(Cls::Alnum, t, i) + 1)
}

/// An angle-bracket path begins at `i` (which holds `<`): a nonempty run of
/// path codepoints and slashes containing at least one `/`, closed by `>`.
pub open spec fn spath_ok(t: Seq<char>, i: int) -> bool {
    let m = seek(Cls::SPathChar, t, i + 1);
    m > i + 1 && m < t.len() && t[m] == '>' && (exists|k: int| i + 1 <= k < m && t[k] == '/')
}

/// Where the angle-bracket path beginning at `i` ends (just past the `>`).
pub open spec fn spath_stop(t: Seq<char>, i: int) -> int {
    seek(Cls::SPathChar, t, i + 1) + 1
}

/// A fractional part begins at `j`: a dot followed by a digit.
pub open spec fn frac_at(t: Seq<char>, j: int) -> bool {
    j + 1 < t.len() && t[j] == '.' && is_digit(t[j + 1])
}

/// An exponent part begins at `p`: `e` or `E`, an optional sign, and at
/// least one digit.
pub open spec fn exp_at(t: Seq<char>, p: int) -> bool {
    0 <= p < t.len() && (t[p] == 'e' || t[p] == 'E') && ((p + 1 < t.len() && is_digit(t[p + 1]))
        || (p + 2 < t.len() && (t[p + 1] == '+' || t[p + 1] == '-') && is_digit(t[p + 2])))
}

/// Where the exponent part beginning at `p` ends.
pub open spec fn exp_stop(t: Seq<char>, p: int) -> int {
    if p + 1 < t.len() && is_digit(t[p + 1]) {
        seek(Cls::Digit, t, p + 1)
    } else {
        seek(Cls::Digit, t, p + 2)
    }
}

/// Where the number beginning at `i` ends: the digit run, a fractional part
/// if one follows, and an exponent part if one follows.
pub open spec fn num_stop(t: Seq<char>, i: int) -> int {
    let j = seek(Cls::Digit, t, i);
    if frac_at(t, j) {
        let k = seek(Cls::Digit, t, j + 1);
        if exp_at(t, k) {
            exp_stop(t, k)
        } else {
            k
        }
    } else if exp_at(t, j) {
        exp_stop(t, j)
    } else {
        j
    }
}

/// The number beginning at `i` is a float: its digit run is followed by a
/// fractional or an exponent part.
pub open spec fn is_float_at(t: Seq<char>, i: int) -> bool {
    frac_at(t, seek(Cls::Digit, t, i)) || exp_at(t, seek(Cls::Digit, t, i))
}

/// One step of the lexer in normal (expression) mode.
pub open spec fn step_normal(t: Seq<char>, st: StK) -> StepRes {
    if st.i == t.len() {
        // End of input with an open brace or interpolation: drop the frame.
        // Unbalanced braces are the parser's concern, not a lexical error.
        StepRes {
            st: StK { i: st.i, pos: st.pos, frames: st.frames.drop_last() },
            tok: None,
            err: None,
        }
    } else {
        let i = st.i;
        let c = t[i];
        if is_ws(c) {
            skip_to(t, st, seek(Cls::Ws, t, i))
        } else if c == '#' {
            skip_to(t, st, seek(Cls::NotNewline, t, i))
        } else if c == '/' && i + 1 < t.len() && t[i + 1] == '*' {
            match block_close(t, i + 2) {
                Some(j) => skip_to(t, st, j),
                None => StepRes {
                    st: adv_st(t, st, t.len() as int),
                    tok: None,
                    err: Some(ErrS { kind: ErrKind::UnterminatedBlockComment, pos: st.pos }),
                },
            }
        } else if is_path_at(t, i) {
            emit(t, st, path_stop(t, i), TokK::Path(t.subrange(i, path_stop(t, i))))
        } else if is_digit(c) {
            if is_float_at(t, i) {
                emit(t, st, num_stop(t, i), TokK::Float(t.subrange(i, num_stop(t, i))))
            } else {
                let j = seek(Cls::Digit, t, i);
                if digits_val(t.subrange(i, j)) <= i64::MAX as int {
                    emit(t, st, j, TokK::Int(digits_val(t.subrange(i, j))))
                } else {
                    StepRes {
                        st: adv_st(t, st, j),
                        tok: Some(
                            TokS {
                                kind: TokK::Unknown,
                                start: st.pos,
                                end: pos_walk(st.pos, t, i, j),
                            },
                        ),
                        err: Some(ErrS { kind: ErrKind::IntegerOverflow, pos: st.pos }),
                    }
                }
            }
        } else if c == '<' {
            if spath_ok(t, i) {
                emit(t, st, spath_stop(t, i), TokK::Path(t.subrange(i, spath_stop(t, i))))
            } else if i + 1 < t.len() && t[i + 1] == '=' {
                emit(t, st, i + 2, TokK::LessEq)
            } else {
                emit(t, st, i + 1, TokK::Less)
            }
        } else if is_ident_start(c) {
            if is_uri_at(t, i) {
                emit(t, st, uri_stop(t, i), TokK::Uri(t.subrange(i, uri_stop(t, i))))
            } else {
                emit(
                    t,
                    st,
                    seek(Cls::IdentCont, t, i),
                    TokK::Id(t.subrange(i, seek(Cls::IdentCont, t, i))),
                )
            }
        } else if c == '"' {
            StepRes {
                st: StK {
                    i: i + 1,
                    pos: pos_walk(st.pos, t, i, i + 1),
                    frames: st.frames.push(FrameK::Str { indented: false, open: st.pos }),
                },
                tok: Some(
                    TokS { kind: TokK::Quote, start: st.pos, end: pos_walk(st.pos, t, i, i + 1) },
                ),
                err: None,
            }
        } else if c == '\'' && i + 1 < t.len() && t[i + 1] == '\'' {
            StepRes {
                st: StK {
                    i: i + 2,
                    pos: pos_walk(st.pos, t, i, i + 2),
                    frames: st.frames.push(FrameK::Str { indented: true, open: st.pos }),
                },
                tok: Some(
                    TokS {
                        kind: TokK::IndentQuote,
                        start: st.pos,
                        end: pos_walk(st.pos, t, i, i + 2),
                    },
                ),
                err: None,
            }
        } else if c == '{' {
            StepRes {
                st: StK {
                    i: i + 1,
                    pos: pos_walk(st.pos, t, i, i + 1),
                    frames: st.frames.push(FrameK::Brace),
                },
                tok: Some(
                    TokS { kind: TokK::BraceL, start: st.pos, end: pos_walk(st.pos, t, i, i + 1) },
                ),
                err: None,
            }
        } else if c == '}' {
            // Close the innermost brace or interpolation frame, if any: when
            // the frame below is a string, string mode resumes.
            StepRes {
                st: StK {
                    i: i + 1,
                    pos: pos_walk(st.pos, t, i, i + 1),
                    frames: if st.frames.len() > 0 {
                        st.frames.drop_last()
                    } else {
                        st.frames
                    },
                },
                tok: Some(
                    TokS { kind: TokK::BraceR, start: st.pos, end: pos_walk(st.pos, t, i, i + 1) },
                ),
                err: None,
            }
        } else if c == '.' {
            if i + 2 < t.len() && t[i + 1] == '.' && t[i + 2] == '.' {
                emit(t, st, i + 3, TokK::Ellipsis)
            } else {
                emit(t, st, i + 1, TokK::Dot)
            }
        } else if i + 1 < t.len() && is_op2(c, t[i + 1]) {
            emit(t, st, i + 2, op2k(c))
        } else if is_op1(c) {
            emit(t, st, i + 1, op1k(c))
        } else {
            emit(t, st, i + 1, TokK::Unknown)
        }
    }
}

/// One step of the lexer in string mode, for a string of kind `ind` whose
/// opening delimiter was at `open`.
pub open spec fn step_string(t: Seq<char>, st: StK, ind: bool, open: PosS) -> StepRes {
    if st.i == t.len() {
        // End of input inside a string: report it against the opening
        // delimiter and drop the frame.
        StepRes {
            st: StK { i: st.i, pos: st.pos, frames: st.frames.drop_last() },
            tok: None,
            err: Some(ErrS { kind: ErrKind::UnterminatedString, pos: open }),
        }
    } else {
        let i = st.i;
        let j = str_end(t, i, ind);
        if j > i {
            emit(
                t,
                st,
                j,
                if ind {
                    TokK::IndentStrPart(str_val(t, i, ind))
                } else {
                    TokK::StrPart(str_val(t, i, ind))
                },
            )
        } else if t[i] == '$' {
            // `${`: open an interpolation and return to normal mode.
            StepRes {
                st: StK {
                    i: i + 2,
                    pos: pos_walk(st.pos, t, i, i + 2),
                    frames: st.frames.push(FrameK::Interp),
                },
                tok: Some(
                    TokS {
                        kind: TokK::DollarBrace,
                        start: st.pos,
                        end: pos_walk(st.pos, t, i, i + 2),
                    },
                ),
                err: None,
            }
        } else if !ind {
            // The closing `"`.
            StepRes {
                st: StK {
                    i: i + 1,
                    pos: pos_walk(st.pos, t, i, i + 1),
                    frames: st.frames.drop_last(),
                },
                tok: Some(
                    TokS { kind: TokK::Quote, start: st.pos, end: pos_walk(st.pos, t, i, i + 1) },
                ),
                err: None,
            }
        } else {
            // The closing `''`.
            StepRes {
                st: StK {
                    i: i + 2,
                    pos: pos_walk(st.pos, t, i, i + 2),
                    frames: st.frames.drop_last(),
                },
                tok: Some(
                    TokS {
                        kind: TokK::IndentQuote,
                        start: st.pos,
                        end: pos_walk(st.pos, t, i, i + 2),
                    },
                ),
                err: None,
            }
        }
    }
}

/// One step of the lexer: string mode when the innermost frame is a string,
/// normal mode otherwise.
pub open spec fn step_spec(t: Seq<char>, st: StK) -> StepRes {
    if in_string(st) {
        match st.frames.last() {
            FrameK::Str { indented, open } => step_string(t, st, indented, open),
            _ => skip_to(t, st, st.i),
        }
    } else {
        step_normal(t, st)
    }
}

/// A step makes progress: it stays inside the text and either consumes at
/// least one codepoint or, at the end of the input, closes a frame.
pub open spec fn progress(t: Seq<char>, st: StK, s: StepRes) -> bool {
    wf_st(t, s.st) && (s.st.i > st.i || (s.st.i == st.i && s.st.frames.len() < st.frames.len()))
}

/// A number lexeme starts right after its leading digit and ends inside the
/// text.
pub proof fn lemma_num_stop_bounds(t: Seq<char>, i: int)
    requires
        0 <= i < t.len(),
        is_digit(t[i]),
    ensures
        i + 1 <= num_stop(t, i) <= t.len(),
{
    crate::scan::lemma_seek_bounds(Cls::Digit, t, i + 1);
    assert(seek(Cls::Digit, t, i) == seek(Cls::Digit, t, i + 1));
    let j = seek(Cls::Digit, t, i);
    if frac_at(t, j) {
        crate::scan::lemma_seek_bounds(Cls::Digit, t, j + 1);
        let k = seek(Cls::Digit, t, j + 1);
        if exp_at(t, k) {
            lemma_exp_stop_bounds(t, k);
        }
    } else if exp_at(t, j) {
        lemma_exp_stop_bounds(t, j);
    }
}

/// An exponent part ends after its marker and inside the text.
pub proof fn lemma_exp_stop_bounds(t: Seq<char>, p: int)
    requires
        exp_at(t, p),
    ensures
        p + 1 <= exp_stop(t, p) <= t.len(),
{
    if p + 1 < t.len() && is_digit(t[p + 1]) {
        crate::scan::lemma_seek_bounds(Cls::Digit, t, p + 1);
    } else {
        crate::scan::lemma_seek_bounds(Cls::Digit, t, p + 2);
    }
}

/// Every step of the lexer makes progress, walks the position exactly over
/// the codepoints it consumes, and stamps any emitted token with the
/// positions at the range's two ends.
pub proof fn lemma_step_sound(t: Seq<char>, st: StK)
    requires
        wf_st(t, st),
        !st_done(t, st),
    ensures
        ({
            let s = step_spec(t, st);
            progress(t, st, s) && s.st.pos == pos_walk(st.pos, t, st.i, s.st.i) && (match s.tok {
                Some(tk) => tk.start == st.pos && tk.end == s.st.pos,
                None => true,
            })
        }),
{
    let s = step_spec(t, st);
    let i = st.i;
    if in_string(st) {
        match st.frames.last() {
            FrameK::Str { indented: ind, open } => {
                if i == t.len() {
                } else {
                    crate::scan::lemma_str_end_bounds(t, i, ind);
                    let j = str_end(t, i, ind);
                    if j > i {
                    } else {
                        assert(str_boundary(t, i, ind));
                    }
                }
            },
            _ => {},
        }
    } else {
        if i == t.len() {
        } else {
            let c = t[i];
            if is_ws(c) {
                crate::scan::lemma_seek_bounds(Cls::Ws, t, i + 1);
                assert(seek(Cls::Ws, t, i) == seek(Cls::Ws, t, i + 1));
            } else if c == '#' {
                crate::scan::lemma_seek_bounds(Cls::NotNewline, t, i + 1);
                assert(seek(Cls::NotNewline, t, i) == seek(Cls::NotNewline, t, i + 1));
            } else if c == '/' && i + 1 < t.len() && t[i + 1] == '*' {
                crate::scan::lemma_block_close_bounds(t, i + 2);
            } else if is_path_at(t, i) {
                if t[i] == '~' {
                    crate::scan::lemma_path_end_bounds(t, i + 1);
                    assert(path_end(t, i + 1) >= i + 1);
                } else {
                    crate::scan::lemma_path_end_bounds(t, i + 1);
                    if is_path_char(t[i]) {
                        assert(path_end(t, i) == path_end(t, i + 1));
                    } else {
                        crate::scan::lemma_seek_bounds(Cls::PathChar, t, i);
                        assert(seek(Cls::PathChar, t, i) == i);
                        assert(t[i] == '/' && i + 1 < t.len() && is_path_char(t[i + 1]));
                        assert(path_end(t, i) == path_end(t, i + 1));
                    }
                }
            } else if is_digit(c) {
                if is_float_at(t, i) {
                    lemma_num_stop_bounds(t, i);
                } else {
                    crate::scan::lemma_seek_bounds(Cls::Digit, t, i + 1);
                    assert(seek(Cls::Digit, t, i) == seek(Cls::Digit, t, i + 1));
                }
            } else if c == '<' {
            } else if is_ident_start(c) {
                if is_uri_at(t, i) {
                    crate::scan::lemma_seek_bounds(Cls::Alnum, t, i);
                    let k = seek(Cls::Alnum, t, i);
                    crate::scan::lemma_seek_bounds(Cls::UriChar, t, k + 1);
                } else {
                    crate::scan::lemma_seek_bounds(Cls::IdentCont, t, i + 1);
                    assert(seek(Cls::IdentCont, t, i) == seek(Cls::IdentCont, t, i + 1));
                }
            } else {
            }
        }
    }
}

/// The record of one step in a lexing trace: the index range and position
/// range it covered, and what it emitted.
pub struct StepRec {
    pub lo: int,
    pub hi: int,
    pub pos_lo: PosS,
    pub pos_hi: PosS,
    pub tok: Option<TokS>,
    pub err: Option<ErrS>,
}

/// The record of taking step `s` from state `st`.
pub open spec fn mk_rec(st: StK, s: StepRes) -> StepRec {
    StepRec { lo: st.i, hi: s.st.i, pos_lo: st.pos, pos_hi: s.st.pos, tok: s.tok, err: s.err }
}

/// The full trace of the lexer from state `st`: one record per step, until
/// the text and the frame stack are exhausted.
pub open spec fn trace(t: Seq<char>, st: StK) -> Seq<StepRec>
    decreases t.len() - st.i, st.frames.len(),
{
    if !wf_st(t, st) || st_done(t, st) {
        seq![]
    } else {
        let s = step_spec(t, st);
        if progress(t, st, s) {
            seq![mk_rec(st, s)] + trace(t, s.st)
        } else {
            seq![mk_rec(st, s)]
        }
    }
}

/// The tokens a trace emits, in order.
pub open spec fn toks_of(tr: Seq<StepRec>) -> Seq<TokS>
    decreases tr.len(),
{
    if tr.len() == 0 {
        seq![]
    } else {
        (match tr[0].tok {
            Some(tk) => seq![tk],
            None => seq![],
        }) + toks_of(tr.drop_first())
    }
}

/// The diagnostics a trace reports, in order.
pub open spec fn errs_of(tr: Seq<StepRec>) -> Seq<ErrS>
    decreases tr.len(),
{
    if tr.len() == 0 {
        seq![]
    } else {
        (match tr[0].err {
            Some(e) => seq![e],
            None => seq![],
        }) + errs_of(tr.drop_first())
    }
}

/// The tokens lexing a whole text emits.
pub open spec fn lex_toks(t: Seq<char>) -> Seq<TokS> {
    toks_of(trace(t, init_st()))
}

/// The diagnostics lexing a whole text reports.
pub open spec fn lex_errs(t: Seq<char>) -> Seq<ErrS> {
    errs_of(trace(t, init_st()))
}

/// The records of a trace cover contiguous, abutting ranges that together
/// cover exactly `[lo, hi)`.
pub open spec fn tiles(tr: Seq<StepRec>, lo: int, hi: int) -> bool
    decreases tr.len(),
{
    if tr.len() == 0 {
        lo == hi
    } else {
        tr[0].lo == lo && lo <= tr[0].hi && tiles(tr.drop_first(), tr[0].hi, hi)
    }
}

/// A lexing trace tiles the rest of the text: the steps' ranges abut and
/// together cover everything from the current index to the end, so no
/// codepoint is skipped twice or lost. Each step's end position is reached
/// from its start position by walking exactly the codepoints in its range,
/// consecutive steps hand the position over exactly, and every emitted
/// token is stamped with the positions at its range's two ends.
pub proof fn lemma_trace_sound(t: Seq<char>, st: StK)
    requires
        wf_st(t, st),
    ensures
        tiles(trace(t, st), st.i, t.len() as int),
        forall|k: int|
            0 <= k < trace(t, st).len() ==> {
                let r = #[trigger] trace(t, st)[k];
                &&& r.lo <= r.hi <= t.len()
                &&& r.pos_hi == pos_walk(r.pos_lo, t, r.lo, r.hi)
                &&& (match r.tok {
                    Some(tk) => tk.start == r.pos_lo && tk.end == r.pos_hi,
                    None => true,
                })
            },
        forall|k: int|
            0 <= k && k + 1 < trace(t, st).len() ==> (#[trigger] trace(t, st)[k]).pos_hi == trace(
                t,
                st,
            )[k + 1].pos_lo,
        trace(t, st).len() > 0 ==> trace(t, st)[0].pos_lo == st.pos && trace(t, st)[0].lo == st.i,
    decreases t.len() - st.i, st.frames.len(),
{
    let tr = trace(t, st);
    if st_done(t, st) {
    } else {
        lemma_step_sound(t, st);
        let s = step_spec(t, st);
        let rest = trace(t, s.st);
        lemma_trace_sound(t, s.st);
        assert(tr == seq![mk_rec(st, s)] + rest);
        assert(tr.drop_first() =~= rest);
        assert(tr[0] == mk_rec(st, s));
        assert forall|k: int| 0 <= k < tr.len() implies {
            let r = #[trigger] tr[k];
            &&& r.lo <= r.hi <= t.len()
            &&& r.pos_hi == pos_walk(r.pos_lo, t, r.lo, r.hi)
            &&& (match r.tok {
                Some(tk) => tk.start == r.pos_lo && tk.end == r.pos_hi,
                None => true,
            })
        } by {
            if k > 0 {
                assert(tr[k] == rest[k - 1]);
            }
        }
        assert forall|k: int| 0 <= k && k + 1 < tr.len() implies (#[trigger] tr[k]).pos_hi
            == tr[k + 1].pos_lo by {
            if k == 0 {
                assert(rest.len() > 0);
                assert(tr[1] == rest[0]);
            } else {
                assert(tr[k] == rest[k - 1]);
                assert(tr[k + 1] == rest[k]);
            }
        }
    }
}

} // verus!
