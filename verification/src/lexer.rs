//! The executable lexer, proved to follow the specification machine.

use crate::machine::FrameK;
use crate::machine::StK;
use crate::machine::exp_at;
use crate::machine::exp_stop;
use crate::machine::in_string;
use crate::machine::init_st;
use crate::machine::is_op1;
use crate::machine::is_op2;
use crate::machine::is_path_at;
use crate::machine::is_uri_at;
use crate::machine::lex_errs;
use crate::machine::lex_toks;
use crate::machine::num_stop;
use crate::machine::op1k;
use crate::machine::op2k;
use crate::machine::path_stop;
use crate::machine::progress;
use crate::machine::spath_ok;
use crate::machine::st_done;
use crate::machine::step_spec;
use crate::machine::toks_of;
use crate::machine::errs_of;
use crate::machine::trace;
use crate::machine::uri_stop;
use crate::pos::CharsPos;
use crate::pos::Pos;
use crate::pos::pos_ge1;
use crate::pos::pos_le;
use crate::scan::Cls;
use crate::scan::cls_char;
use crate::scan::is_ident_start;
use crate::scan::is_letter;
use crate::scan::scan_block_close;
use crate::scan::scan_path_end;
use crate::scan::scan_str_run;
use crate::scan::scan_while;
use crate::scan::parse_digits;
use crate::token::ErrKind;
use crate::token::ErrS;
use crate::token::LexError;
use crate::token::Span;
use crate::token::Spanned;
use crate::token::Symbol;
use crate::token::TokS;
use crate::token::Token;
use crate::token::TokenKind;
use crate::token::chars_to_string;
use crate::token::errs_view;
use crate::token::tok_view;
use crate::token::toks_view;
use vstd::prelude::*;
use vstd::string::StrSliceExecFns;

verus! {

/// Collect the codepoints of a string slice into a buffer.
fn str_to_chars(s: &str) -> (v: Vec<char>)
    ensures
        v@ == s@,
{
    let n = s.unicode_len();
    let mut v: Vec<char> = Vec::new();
    let mut k: usize = 0;
    while k < n
        invariant
            k <= n,
            n == s@.len(),
            v@ == s@.take(k as int),
        decreases n - k,
    {
        v.push(s.get_char(k));
        proof {
            assert(s@.take(k + 1) =~= s@.take(k as int).push(s@[k as int]));
        }
        k = k + 1;
    }
    proof {
        assert(s@.take(n as int) =~= s@);
    }
    v
}

/// Test for an ASCII letter.
fn letter_char(c: char) -> (b: bool)
    ensures
        b == is_letter(c),
{
    let u = c as u32;
    (97 <= u && u <= 122) || (65 <= u && u <= 90)
}

/// Test for a codepoint that may start an identifier.
fn ident_start_char(c: char) -> (b: bool)
    ensures
        b == is_ident_start(c),
{
    letter_char(c) || c == '_'
}

/// Test for an exponent part at `p`.
fn exp_at_x(t: &Vec<char>, p: usize) -> (b: bool)
    requires
        p <= t@.len(),
    ensures
        b == exp_at(t@, p as int),
{
    if p >= t.len() {
        return false;
    }
    let c = t[p];
    if c != 'e' && c != 'E' {
        return false;
    }
    if p + 1 < t.len() && cls_char(Cls::Digit, t[p + 1]) {
        return true;
    }
    p + 1 < t.len() && (t[p + 1] == '+' || t[p + 1] == '-') && p + 2 < t.len() && cls_char(
        Cls::Digit,
        t[p + 2],
    )
}

/// Scan to the end of the exponent part at `p`.
fn exp_stop_x(t: &Vec<char>, p: usize) -> (j: usize)
    requires
        exp_at(t@, p as int),
    ensures
        j == exp_stop(t@, p as int),
        p < j <= t@.len(),
{
    let n = t.len();
    proof {
        assert(p < t@.len());
    }
    if p + 1 < n && cls_char(Cls::Digit, t[p + 1]) {
        scan_while(t, p + 1, Cls::Digit)
    } else {
        proof {
            assert(p + 2 < t@.len());
        }
        scan_while(t, p + 2, Cls::Digit)
    }
}

/// Scan to the end of the number beginning at `i`.
fn num_stop_x(t: &Vec<char>, i: usize) -> (j: usize)
    requires
        i <= t@.len(),
    ensures
        j == num_stop(t@, i as int),
        i <= j <= t@.len(),
{
    proof {
        crate::scan::lemma_seek_bounds(Cls::Digit, t@, i as int);
    }
    let j = scan_while(t, i, Cls::Digit);
    if j < t.len() && t[j] == '.' && j + 1 < t.len() && cls_char(Cls::Digit, t[j + 1]) {
        let k = scan_while(t, j + 1, Cls::Digit);
        if exp_at_x(t, k) {
            exp_stop_x(t, k)
        } else {
            k
        }
    } else {
        if exp_at_x(t, j) {
            exp_stop_x(t, j)
        } else {
            j
        }
    }
}

/// Test whether `t[lo..hi]` holds a `/`.
fn has_slash(t: &Vec<char>, lo: usize, hi: usize) -> (b: bool)
    requires
        lo <= hi <= t@.len(),
    ensures
        b == exists|k: int| lo <= k < hi && t@[k] == '/',
{
    let mut m = lo;
    while m < hi
        invariant
            lo <= m <= hi <= t@.len(),
            forall|k: int| lo <= k < m ==> t@[k] != '/',
        decreases hi - m,
    {
        if t[m] == '/' {
            assert(t@[m as int] == '/');
            return true;
        }
        m = m + 1;
    }
    false
}

/// Match a two-codepoint operator.
fn op2_x(a: char, b: char) -> (r: Option<TokenKind>)
    ensures
        match r {
            Some(k) => is_op2(a, b) && k@ == op2k(a),
            None => !is_op2(a, b),
        },
{
    if a == '-' && b == '>' {
        Some(TokenKind::Implies)
    } else if a == '>' && b == '=' {
        Some(TokenKind::GreaterEq)
    } else if a == '=' && b == '=' {
        Some(TokenKind::Equals)
    } else if a == '!' && b == '=' {
        Some(TokenKind::NotEquals)
    } else if a == '&' && b == '&' {
        Some(TokenKind::And)
    } else if a == '|' && b == '|' {
        Some(TokenKind::Or)
    } else if a == '/' && b == '/' {
        Some(TokenKind::Update)
    } else if a == '+' && b == '+' {
        Some(TokenKind::Concat)
    } else {
        None
    }
}

/// Match a single-codepoint operator or punctuation mark.
fn op1_x(c: char) -> (r: Option<TokenKind>)
    ensures
        match r {
            Some(k) => is_op1(c) && k@ == op1k(c),
            None => !is_op1(c),
        },
{
    if c == '*' {
        Some(TokenKind::Mult)
    } else if c == '-' {
        Some(TokenKind::Minus)
    } else if c == '+' {
        Some(TokenKind::Plus)
    } else if c == '/' {
        Some(TokenKind::Divide)
    } else if c == '>' {
        Some(TokenKind::Greater)
    } else if c == '=' {
        Some(TokenKind::Assign)
    } else if c == '!' {
        Some(TokenKind::Not)
    } else if c == '@' {
        Some(TokenKind::At)
    } else if c == ',' {
        Some(TokenKind::Comma)
    } else if c == '?' {
        Some(TokenKind::Question)
    } else if c == ':' {
        Some(TokenKind::Colon)
    } else if c == ';' {
        Some(TokenKind::Semicolon)
    } else if c == '(' {
        Some(TokenKind::ParenL)
    } else if c == ')' {
        Some(TokenKind::ParenR)
    } else if c == '[' {
        Some(TokenKind::BracketL)
    } else if c == ']' {
        Some(TokenKind::BracketR)
    } else {
        None
    }
}

/// An open construct the lexer is inside of.
#[derive(Clone, Copy, Debug)]
enum Frame {
    Str { indented: bool, open: Pos },
    Brace,
    Interp,
}

impl View for Frame {
    type V = FrameK;

    closed spec fn view(&self) -> FrameK {
        match self {
            Frame::Str { indented, open } => FrameK::Str { indented: *indented, open: open@ },
            Frame::Brace => FrameK::Brace,
            Frame::Interp => FrameK::Interp,
        }
    }
}

/// The lexer: a cursor over the text, the stack of open frames, and the
/// diagnostics reported so far. Tokens are produced on demand by [`Lexer::next`];
/// [`lex`] drives a lexer over a whole text.
pub struct Lexer {
    filename: Symbol,
    chars: CharsPos,
    frames: Vec<Frame>,
    errors: Vec<LexError>,
}

impl Lexer {
    /// The text being lexed.
    pub closed spec fn text(&self) -> Seq<char> {
        self.chars.text@
    }

    /// The machine state the lexer is at.
    pub closed spec fn stk(&self) -> StK {
        StK {
            i: self.chars.i as int,
            pos: self.chars.pos@,
            frames: self.frames@.map_values(|f: Frame| f@),
        }
    }

    /// The file label stamped on emitted spans.
    pub closed spec fn file(&self) -> Seq<char> {
        self.filename@
    }

    /// The diagnostics reported so far.
    pub closed spec fn errs(&self) -> Seq<ErrS> {
        errs_view(self.errors@)
    }

    /// The lexer is in a consistent state.
    pub closed spec fn wf(&self) -> bool {
        self.chars.wf()
    }

    /// All input is consumed and no frame is open.
    pub closed spec fn done(&self) -> bool {
        st_done(self.text(), self.stk())
    }

    /// A fresh lexer over `source`, labelling spans with `filename`.
    pub fn new(filename: &str, source: &str) -> (r: Lexer)
        ensures
            r.wf(),
            r.stk() == init_st(),
            r.text() == source@,
            r.file() == filename@,
            r.errs() == Seq::<ErrS>::empty(),
    {
        let text = str_to_chars(source);
        let r = Lexer {
            filename: Symbol::intern(filename.to_owned()),
            chars: CharsPos::new(text),
            frames: Vec::new(),
            errors: Vec::new(),
        };
        proof {
            assert(r.stk().frames =~= init_st().frames);
            assert(r.stk() == init_st());
            assert(errs_view(r.errors@) =~= Seq::<ErrS>::empty());
        }
        r
    }

    /// Build a token spanning `start` to `end`.
    fn spanned(&self, start: Pos, end: Pos, val: TokenKind) -> (tk: Token)
        ensures
            tok_view(tk) == (TokS { kind: val@, start: start@, end: end@ }),
            tk.span.filename@ == self.file(),
    {
        let filename = Symbol { text: self.filename.text.clone() };
        Spanned { val, span: Span { filename, start, end } }
    }
}

/// The executable lexer took exactly the step the machine prescribes: same
/// next state, the same token (stamped with the lexer's file label), and the
/// same diagnostic appended, with the text and file label untouched.
pub closed spec fn step_ok(pre: Lexer, post: Lexer, r: Option<Token>) -> bool {
    let s = step_spec(pre.text(), pre.stk());
    &&& post.wf()
    &&& post.text() == pre.text()
    &&& post.filename == pre.filename
    &&& post.stk() == s.st
    &&& (match (r, s.tok) {
        (Some(tk), Some(ts)) => tok_view(tk) == ts && tk.span.filename@ == pre.file(),
        (None, None) => true,
        _ => false,
    })
    &&& (match s.err {
        Some(e) => errs_view(post.errors@) == errs_view(pre.errors@).push(e),
        None => post.errors == pre.errors,
    })
}

impl Lexer {
    /// One step in string mode.
    fn step_str(&mut self, indented: bool, open: Pos) -> (r: Option<Token>)
        requires
            old(self).wf(),
            !old(self).done(),
            old(self).stk().frames.len() > 0,
            old(self).stk().frames.last() == (FrameK::Str { indented, open: open@ }),
        ensures
            step_ok(*old(self), *final(self), r),
    {
        let ghost t = self.chars.text@;
        let ghost st0 = self.stk();
        let ghost s = step_spec(t, st0);
        let n = self.chars.text.len();
        let i = self.chars.i;
        let start = self.chars.pos;
        if i == n {
            self.errors.push(LexError { kind: ErrKind::UnterminatedString, pos: open });
            let _ = self.frames.pop();
            proof {
                assert(self.frames@.map_values(|x: Frame| x@) =~= st0.frames.drop_last());
                assert(errs_view(self.errors@) =~= errs_view(old(self).errors@).push(
                    ErrS { kind: ErrKind::UnterminatedString, pos: open@ },
                ));
            }
            None
        } else {
            let (j, val) = scan_str_run(&self.chars.text, i, indented);
            if j > i {
                let _raw = self.chars.consume_to(j);
                let text = chars_to_string(val);
                let end = self.chars.pos;
                let kind = if indented {
                    TokenKind::IndentStrPart(text)
                } else {
                    TokenKind::StrPart(text)
                };
                let tk = self.spanned(start, end, kind);
                Some(tk)
            } else {
                proof {
                    crate::scan::lemma_str_end_bounds(t, i as int, indented);
                    assert(crate::scan::str_boundary(t, i as int, indented));
                }
                let c = self.chars.text[i];
                if c == '$' {
                    let _raw = self.chars.consume_to(i + 2);
                    self.frames.push(Frame::Interp);
                    let end = self.chars.pos;
                    let tk = self.spanned(start, end, TokenKind::DollarBrace);
                    proof {
                        assert(self.frames@.map_values(|x: Frame| x@) =~= st0.frames.push(
                            FrameK::Interp,
                        ));
                    }
                    Some(tk)
                } else if !indented {
                    let _raw = self.chars.consume_to(i + 1);
                    let _ = self.frames.pop();
                    let end = self.chars.pos;
                    let tk = self.spanned(start, end, TokenKind::Quote);
                    proof {
                        assert(self.frames@.map_values(|x: Frame| x@) =~= st0.frames.drop_last());
                    }
                    Some(tk)
                } else {
                    let _raw = self.chars.consume_to(i + 2);
                    let _ = self.frames.pop();
                    let end = self.chars.pos;
                    let tk = self.spanned(start, end, TokenKind::IndentQuote);
                    proof {
                        assert(self.frames@.map_values(|x: Frame| x@) =~= st0.frames.drop_last());
                    }
                    Some(tk)
                }
            }
        }
    }

    /// One step in normal (expression) mode.
    #[verifier::rlimit(100)]
    fn step_norm(&mut self) -> (r: Option<Token>)
        requires
            old(self).wf(),
            !old(self).done(),
            !in_string(old(self).stk()),
        ensures
            step_ok(*old(self), *final(self), r),
    {
        let ghost t = self.chars.text@;
        let ghost st0 = self.stk();
        let ghost s = step_spec(t, st0);
        let n = self.chars.text.len();
        let i = self.chars.i;
        let start = self.chars.pos;
        if i == n {
            // Open brace or interpolation at the end of the input: close it.
            let _ = self.frames.pop();
            proof {
                assert(st0.frames.len() > 0);
                assert(self.frames@.map_values(|x: Frame| x@) =~= st0.frames.drop_last());
            }
            return None;
        }
        let c = self.chars.text[i];
        if cls_char(Cls::Ws, c) {
            let j = scan_while(&self.chars.text, i, Cls::Ws);
            let _raw = self.chars.consume_to(j);
            return None;
        }
        if c == '#' {
            let j = scan_while(&self.chars.text, i, Cls::NotNewline);
            let _raw = self.chars.consume_to(j);
            return None;
        }
        if c == '/' && i + 1 < n && self.chars.text[i + 1] == '*' {
            match scan_block_close(&self.chars.text, i + 2) {
                Some(j) => {
                    let _raw = self.chars.consume_to(j);
                    return None;
                },
                None => {
                    self.errors.push(
                        LexError { kind: ErrKind::UnterminatedBlockComment, pos: start },
                    );
                    let _raw = self.chars.consume_to(n);
                    proof {
                        assert(errs_view(self.errors@) =~= errs_view(old(self).errors@).push(
                            ErrS { kind: ErrKind::UnterminatedBlockComment, pos: start@ },
                        ));
                    }
                    return None;
                },
            }
        }
        let pathq: bool = if c == '~' {
            i + 1 < n && self.chars.text[i + 1] == '/' && i + 2 < n && cls_char(
                Cls::PathChar,
                self.chars.text[i + 2],
            )
        } else {
            let j0 = scan_while(&self.chars.text, i, Cls::PathChar);
            j0 < n && self.chars.text[j0] == '/' && j0 + 1 < n && cls_char(
                Cls::PathChar,
                self.chars.text[j0 + 1],
            )
        };
        proof {
            assert(pathq == is_path_at(t, i as int));
        }
        if pathq {
            let j = if c == '~' {
                scan_path_end(&self.chars.text, i + 1)
            } else {
                scan_path_end(&self.chars.text, i)
            };
            proof {
                assert(j == path_stop(t, i as int));
            }
            let lexeme = self.chars.consume_to(j);
            let end = self.chars.pos;
            let tk = self.spanned(
                start,
                end,
                TokenKind::Path(Symbol::intern(chars_to_string(lexeme))),
            );
            return Some(tk);
        }
        if cls_char(Cls::Digit, c) {
            let floatq: bool = {
                let j0 = scan_while(&self.chars.text, i, Cls::Digit);
                (j0 < n && self.chars.text[j0] == '.' && j0 + 1 < n && cls_char(
                    Cls::Digit,
                    self.chars.text[j0 + 1],
                )) || exp_at_x(&self.chars.text, j0)
            };
            proof {
                assert(floatq == crate::machine::is_float_at(t, i as int));
            }
            if floatq {
                let j = num_stop_x(&self.chars.text, i);
                let lexeme = self.chars.consume_to(j);
                let end = self.chars.pos;
                let tk = self.spanned(start, end, TokenKind::Float(chars_to_string(lexeme)));
                return Some(tk);
            } else {
                let j = scan_while(&self.chars.text, i, Cls::Digit);
                proof {
                    crate::scan::lemma_seek_bounds(Cls::Digit, t, i as int);
                }
                let parsed = parse_digits(&self.chars.text, i, j);
                let _raw = self.chars.consume_to(j);
                let end = self.chars.pos;
                match parsed {
                    Some(v) => {
                        let tk = self.spanned(start, end, TokenKind::Int(v));
                        return Some(tk);
                    },
                    None => {
                        self.errors.push(
                            LexError { kind: ErrKind::IntegerOverflow, pos: start },
                        );
                        let tk = self.spanned(start, end, TokenKind::Unknown);
                        proof {
                            assert(errs_view(self.errors@) =~= errs_view(old(self).errors@).push(
                                ErrS { kind: ErrKind::IntegerOverflow, pos: start@ },
                            ));
                        }
                        return Some(tk);
                    },
                }
            }
        }
        if c == '<' {
            let m = scan_while(&self.chars.text, i + 1, Cls::SPathChar);
            let spq = m > i + 1 && m < n && self.chars.text[m] == '>' && has_slash(
                &self.chars.text,
                i + 1,
                m,
            );
            proof {
                assert(spq == spath_ok(t, i as int));
            }
            if spq {
                let lexeme = self.chars.consume_to(m + 1);
                let end = self.chars.pos;
                let tk = self.spanned(
                    start,
                    end,
                    TokenKind::Path(Symbol::intern(chars_to_string(lexeme))),
                );
                return Some(tk);
            } else if i + 1 < n && self.chars.text[i + 1] == '=' {
                let _raw = self.chars.consume_to(i + 2);
                let end = self.chars.pos;
                let tk = self.spanned(start, end, TokenKind::LessEq);
                return Some(tk);
            } else {
                let _raw = self.chars.consume_to(i + 1);
                let end = self.chars.pos;
                let tk = self.spanned(start, end, TokenKind::Less);
                return Some(tk);
            }
        }
        if ident_start_char(c) {
            let uriq: bool = if letter_char(c) {
                let k = scan_while(&self.chars.text, i, Cls::Alnum);
                k < n && self.chars.text[k] == ':' && k + 1 < n && cls_char(
                    Cls::UriChar,
                    self.chars.text[k + 1],
                )
            } else {
                false
            };
            proof {
                assert(uriq == is_uri_at(t, i as int));
            }
            if uriq {
                let k = scan_while(&self.chars.text, i, Cls::Alnum);
                let j = scan_while(&self.chars.text, k + 1, Cls::UriChar);
                proof {
                    assert(j == uri_stop(t, i as int));
                }
                let lexeme = self.chars.consume_to(j);
                let end = self.chars.pos;
                let tk = self.spanned(start, end, TokenKind::Uri(chars_to_string(lexeme)));
                return Some(tk);
            } else {
                let j = scan_while(&self.chars.text, i, Cls::IdentCont);
                let lexeme = self.chars.consume_to(j);
                let end = self.chars.pos;
                let tk = self.spanned(
                    start,
                    end,
                    TokenKind::Id(Symbol::intern(chars_to_string(lexeme))),
                );
                return Some(tk);
            }
        }
        if c == '"' {
            let _raw = self.chars.consume_to(i + 1);
            self.frames.push(Frame::Str { indented: false, open: start });
            let end = self.chars.pos;
            let tk = self.spanned(start, end, TokenKind::Quote);
            proof {
                assert(self.frames@.map_values(|x: Frame| x@) =~= st0.frames.push(
                    FrameK::Str { indented: false, open: start@ },
                ));
            }
            return Some(tk);
        }
        if c == '\'' && i + 1 < n && self.chars.text[i + 1] == '\'' {
            let _raw = self.chars.consume_to(i + 2);
            self.frames.push(Frame::Str { indented: true, open: start });
            let end = self.chars.pos;
            let tk = self.spanned(start, end, TokenKind::IndentQuote);
            proof {
                assert(self.frames@.map_values(|x: Frame| x@) =~= st0.frames.push(
                    FrameK::Str { indented: true, open: start@ },
                ));
            }
            return Some(tk);
        }
        if c == '{' {
            let _raw = self.chars.consume_to(i + 1);
            self.frames.push(Frame::Brace);
            let end = self.chars.pos;
            let tk = self.spanned(start, end, TokenKind::BraceL);
            proof {
                assert(self.frames@.map_values(|x: Frame| x@) =~= st0.frames.push(FrameK::Brace));
            }
            return Some(tk);
        }
        if c == '}' {
            let _raw = self.chars.consume_to(i + 1);
            if self.frames.len() > 0 {
                let _ = self.frames.pop();
                proof {
                    assert(self.frames@.map_values(|x: Frame| x@) =~= st0.frames.drop_last());
                }
            }
            let end = self.chars.pos;
            let tk = self.spanned(start, end, TokenKind::BraceR);
            return Some(tk);
        }
        if c == '.' {
            if i + 1 < n && self.chars.text[i + 1] == '.' && i + 2 < n && self.chars.text[i + 2]
                == '.' {
                let _raw = self.chars.consume_to(i + 3);
                let end = self.chars.pos;
                let tk = self.spanned(start, end, TokenKind::Ellipsis);
                return Some(tk);
            } else {
                let _raw = self.chars.consume_to(i + 1);
                let end = self.chars.pos;
                let tk = self.spanned(start, end, TokenKind::Dot);
                return Some(tk);
            }
        }
        if i + 1 < n {
            match op2_x(c, self.chars.text[i + 1]) {
                Some(k) => {
                    let _raw = self.chars.consume_to(i + 2);
                    let end = self.chars.pos;
                    let tk = self.spanned(start, end, k);
                    return Some(tk);
                },
                None => {},
            }
        }
        match op1_x(c) {
            Some(k) => {
                let _raw = self.chars.consume_to(i + 1);
                let end = self.chars.pos;
                let tk = self.spanned(start, end, k);
                return Some(tk);
            },
            None => {},
        }
        let _raw = self.chars.consume_to(i + 1);
        let end = self.chars.pos;
        let tk = self.spanned(start, end, TokenKind::Unknown);
        Some(tk)
    }

    /// One step of the lexer: skip or consume one lexeme, emitting at most
    /// one token and at most one diagnostic, exactly as the machine says.
    fn step(&mut self) -> (r: Option<Token>)
        requires
            old(self).wf(),
            !old(self).done(),
        ensures
            step_ok(*old(self), *final(self), r),
    {
        let flen = self.frames.len();
        if flen > 0 {
            let top = self.frames[flen - 1];
            proof {
                assert(self.stk().frames.len() == flen);
                assert(self.stk().frames.last() == self.frames@[flen - 1]@);
            }
            match top {
                Frame::Str { indented, open } => self.step_str(indented, open),
                Frame::Brace => {
                    proof {
                        assert(!in_string(self.stk()));
                    }
                    self.step_norm()
                },
                Frame::Interp => {
                    proof {
                        assert(!in_string(self.stk()));
                    }
                    self.step_norm()
                },
            }
        } else {
            proof {
                assert(!in_string(self.stk()));
            }
            self.step_norm()
        }
    }

    /// The next token, or `None` once the input is exhausted.
    ///
    /// The tokens handed out, in order, are exactly the tokens of the
    /// machine's trace, and the diagnostics accumulated are exactly the
    /// trace's diagnostics. Every token's span starts at or after the
    /// position the lexer was at and ends at or before the position it
    /// moves to, so spans never move backwards.
    pub fn next(&mut self) -> (r: Option<Token>)
        requires
            old(self).wf(),
        ensures
            final(self).wf(),
            final(self).text() == old(self).text(),
            final(self).file() == old(self).file(),
            old(self).errs().len() <= final(self).errs().len(),
            final(self).errs().take(old(self).errs().len() as int) == old(self).errs(),
            match r {
                Some(tk) => {
                    &&& toks_of(trace(old(self).text(), old(self).stk())) == seq![tok_view(tk)]
                        + toks_of(trace(old(self).text(), final(self).stk()))
                    &&& errs_of(trace(old(self).text(), old(self).stk()))
                        == final(self).errs().skip(old(self).errs().len() as int)
                        + errs_of(trace(old(self).text(), final(self).stk()))
                    &&& tk.span.filename@ == old(self).file()
                    &&& pos_le(old(self).stk().pos, tok_view(tk).start)
                    &&& pos_le(tok_view(tk).start, tok_view(tk).end)
                    &&& pos_le(tok_view(tk).end, final(self).stk().pos)
                    &&& (pos_ge1(old(self).stk().pos) ==> pos_ge1(tok_view(tk).start) && pos_ge1(
                        tok_view(tk).end,
                    ) && pos_ge1(final(self).stk().pos))
                    &&& (final(self).stk().i > old(self).stk().i
                        || (final(self).stk().i == old(self).stk().i
                            && final(self).stk().frames.len() < old(self).stk().frames.len()))
                },
                None => {
                    &&& final(self).done()
                    &&& toks_of(trace(old(self).text(), old(self).stk())) == Seq::<TokS>::empty()
                    &&& errs_of(trace(old(self).text(), old(self).stk()))
                        == final(self).errs().skip(old(self).errs().len() as int)
                },
            },
    {
        let ghost t = self.chars.text@;
        let ghost st0 = self.stk();
        let ghost e0 = self.errs();
        let ghost mut stepped: bool = false;
        loop
            invariant
                t == old(self).text(),
                st0 == old(self).stk(),
                e0 == old(self).errs(),
                self.wf(),
                self.text() == t,
                self.file() == old(self).file(),
                self.filename == old(self).filename,
                toks_of(trace(t, st0)) == toks_of(trace(t, self.stk())),
                errs_of(trace(t, st0)) == self.errs().skip(e0.len() as int) + errs_of(
                    trace(t, self.stk()),
                ),
                self.errs().len() >= e0.len(),
                self.errs().take(e0.len() as int) == e0,
                pos_le(st0.pos, self.stk().pos),
                pos_ge1(st0.pos) ==> pos_ge1(self.stk().pos),
                stepped ==> (self.stk().i > st0.i || (self.stk().i == st0.i
                    && self.stk().frames.len() < st0.frames.len())),
                !stepped ==> self.stk() == st0,
            decreases t.len() - self.stk().i, self.stk().frames.len(),
        {
            if self.chars.i == self.chars.text.len() && self.frames.len() == 0 {
                proof {
                    assert(self.stk().frames.len() == 0);
                    assert(self.done());
                    assert(trace(t, self.stk()) =~= Seq::<crate::machine::StepRec>::empty());
                    assert(toks_of(trace(t, self.stk())) =~= Seq::<TokS>::empty());
                    assert(errs_of(trace(t, self.stk())) =~= Seq::<ErrS>::empty());
                    assert(errs_of(trace(t, st0)) =~= self.errs().skip(e0.len() as int));
                }
                return None;
            }
            proof {
                assert(self.stk().frames.len() == self.frames@.len());
                assert(!self.done());
                crate::machine::lemma_step_sound(t, self.stk());
            }
            let ghost pre = *self;
            let tok = self.step();
            proof {
                stepped = true;
                let sres = step_spec(t, pre.stk());
                assert(progress(t, pre.stk(), sres));
                let tr = trace(t, pre.stk());
                let rest = trace(t, self.stk());
                assert(tr == seq![crate::machine::mk_rec(pre.stk(), sres)] + rest);
                assert(tr.drop_first() =~= rest);
                assert(tr[0] == crate::machine::mk_rec(pre.stk(), sres));
                crate::pos::lemma_pos_walk_le(pre.stk().pos, t, pre.stk().i, self.stk().i);
                match sres.err {
                    Some(e) => {
                        assert(self.errs() =~= pre.errs().push(e));
                        assert(self.errs().skip(e0.len() as int) =~= pre.errs().skip(
                            e0.len() as int,
                        ).push(e));
                        assert(self.errs().take(e0.len() as int) =~= pre.errs().take(
                            e0.len() as int,
                        ));
                        assert(pre.errs().skip(e0.len() as int) + (seq![e] + errs_of(rest)) =~= (
                        pre.errs().skip(e0.len() as int).push(e)) + errs_of(rest));
                        assert(errs_of(tr) == seq![e] + errs_of(rest));
                    },
                    None => {
                        assert(errs_of(tr) == seq![] + errs_of(rest)) by {
                            assert(tr[0].err is None);
                        }
                        assert(seq![] + errs_of(rest) =~= errs_of(rest));
                    },
                }
            }
            match tok {
                Some(tk) => {
                    proof {
                        let sres = step_spec(t, pre.stk());
                        let tr = trace(t, pre.stk());
                        let rest = trace(t, self.stk());
                        assert(toks_of(tr) == seq![tok_view(tk)] + toks_of(rest));
                    }
                    return Some(tk);
                },
                None => {
                    proof {
                        let sres = step_spec(t, pre.stk());
                        let tr = trace(t, pre.stk());
                        let rest = trace(t, self.stk());
                        assert(toks_of(tr) == seq![] + toks_of(rest)) by {
                            assert(tr[0].tok is None);
                        }
                        assert(seq![] + toks_of(rest) =~= toks_of(rest));
                    }
                },
            }
        }
    }

    /// The diagnostics reported so far, surrendering the lexer.
    pub fn into_errors(self) -> (r: Vec<LexError>)
        ensures
            errs_view(r@) == self.errs(),
    {
        self.errors
    }
}

/// Lex a whole text: the tokens and diagnostics of the machine's trace over
/// `source`, with every span labelled `filename`. Every emitted position has
/// line and column at least 1, every span runs forwards, and consecutive
/// tokens' spans never overlap: each token ends at or before the next one
/// starts.
#[verifier::rlimit(100)]
pub fn lex(filename: &str, source: &str) -> (r: (Vec<Token>, Vec<LexError>))
    ensures
        toks_view(r.0@) == lex_toks(source@),
        errs_view(r.1@) == lex_errs(source@),
        forall|k: int| 0 <= k < r.0@.len() ==> (#[trigger] r.0@[k]).span.filename@ == filename@,
        forall|k: int|
            0 <= k < r.0@.len() ==> pos_ge1(tok_view(#[trigger] r.0@[k]).start) && pos_ge1(
                tok_view(r.0@[k]).end,
            ) && pos_le(tok_view(r.0@[k]).start, tok_view(r.0@[k]).end),
        forall|k: int|
            0 <= k && k + 1 < r.0@.len() ==> pos_le(
                tok_view(#[trigger] r.0@[k]).end,
                tok_view(r.0@[k + 1]).start,
            ),
{
    let ghost t = source@;
    let mut lx = Lexer::new(filename, source);
    let mut toks: Vec<Token> = Vec::new();
    proof {
        assert(toks_view(toks@) =~= Seq::<TokS>::empty());
        assert(toks_view(toks@) + toks_of(trace(t, lx.stk())) =~= toks_of(trace(t, lx.stk())));
        assert(lx.errs() + errs_of(trace(t, lx.stk())) =~= errs_of(trace(t, lx.stk())));
    }
    loop
        invariant
            t == source@,
            lx.wf(),
            lx.text() == t,
            lx.file() == filename@,
            lex_toks(t) == toks_view(toks@) + toks_of(trace(t, lx.stk())),
            lex_errs(t) == lx.errs() + errs_of(trace(t, lx.stk())),
            forall|k: int|
                0 <= k < toks@.len() ==> (#[trigger] toks@[k]).span.filename@ == filename@,
            forall|k: int|
                0 <= k < toks@.len() ==> pos_ge1(tok_view(#[trigger] toks@[k]).start) && pos_ge1(
                    tok_view(toks@[k]).end,
                ) && pos_le(tok_view(toks@[k]).start, tok_view(toks@[k]).end),
            forall|k: int|
                0 <= k && k + 1 < toks@.len() ==> pos_le(
                    tok_view(#[trigger] toks@[k]).end,
                    tok_view(toks@[k + 1]).start,
                ),
            toks@.len() > 0 ==> pos_le(tok_view(toks@[toks@.len() - 1]).end, lx.stk().pos),
            pos_ge1(lx.stk().pos),
        decreases t.len() - lx.stk().i, lx.stk().frames.len(),
    {
        let ghost epre = lx.errs();
        let ghost stpre = lx.stk();
        let tok = lx.next();
        match tok {
            Some(tk) => {
                proof {
                    let rest = toks_of(trace(t, lx.stk()));
                    assert(toks_view(toks@.push(tk)) =~= toks_view(toks@).push(tok_view(tk)));
                    assert(toks_view(toks@) + (seq![tok_view(tk)] + rest) =~= toks_view(
                        toks@,
                    ).push(tok_view(tk)) + rest);
                    assert(lx.errs() =~= lx.errs().take(epre.len() as int) + lx.errs().skip(
                        epre.len() as int,
                    ));
                    assert(epre + (lx.errs().skip(epre.len() as int) + errs_of(trace(t, lx.stk())))
                        =~= (epre + lx.errs().skip(epre.len() as int)) + errs_of(
                        trace(t, lx.stk()),
                    ));
                }
                let ghost oldtoks = toks@;
                toks.push(tk);
                proof {
                    assert forall|k: int|
                        0 <= k < toks@.len() implies (#[trigger] toks@[k]).span.filename@
                        == filename@ by {
                        if k < oldtoks.len() {
                            assert(toks@[k] == oldtoks[k]);
                        }
                    }
                    assert forall|k: int|
                        0 <= k < toks@.len() implies pos_ge1(tok_view(#[trigger] toks@[k]).start)
                        && pos_ge1(tok_view(toks@[k]).end) && pos_le(
                        tok_view(toks@[k]).start,
                        tok_view(toks@[k]).end,
                    ) by {
                        if k < oldtoks.len() {
                            assert(toks@[k] == oldtoks[k]);
                        }
                    }
                    assert forall|k: int|
                        0 <= k && k + 1 < toks@.len() implies pos_le(
                        tok_view(#[trigger] toks@[k]).end,
                        tok_view(toks@[k + 1]).start,
                    ) by {
                        if k + 1 < oldtoks.len() {
                            assert(toks@[k] == oldtoks[k]);
                            assert(toks@[k + 1] == oldtoks[k + 1]);
                        } else {
                            if oldtoks.len() > 0 {
                                assert(toks@[k] == oldtoks[oldtoks.len() - 1]);
                            }
                        }
                    }
                }
            },
            None => {
                proof {
                    assert(toks_of(trace(t, stpre)) =~= Seq::<TokS>::empty());
                    assert(toks_view(toks@) + Seq::<TokS>::empty() =~= toks_view(toks@));
                    assert(lx.errs() =~= lx.errs().take(epre.len() as int) + lx.errs().skip(
                        epre.len() as int,
                    ));
                    assert(lex_errs(t) == lx.errs());
                }
                let errors = lx.into_errors();
                return (toks, errors);
            },
        }
    }
}

} // verus!
