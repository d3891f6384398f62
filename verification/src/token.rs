//! Tokens, spans, lexical diagnostics, and their mathematical models.

use crate::pos::Pos;
use crate::pos::PosS;
use vstd::prelude::*;

verus! {

/// A stable handle for an interned string: two handles compare equal exactly
/// when their texts are equal, so the same text always yields the same handle.
#[derive(Clone, Debug, PartialEq, Eq)]
pub struct Symbol {
    pub text: String,
}

impl View for Symbol {
    type V = Seq<char>;

    open spec fn view(&self) -> Seq<char> {
        self.text@
    }
}

impl Symbol {
    /// Intern a string as a handle.
    pub fn intern(text: String) -> (r: Symbol)
        ensures
            r@ == text@,
    {
        Symbol { text }
    }
}

/// A source range: a file label with a start (inclusive) and end (exclusive)
/// position, ordered `start <= end` for every span the lexer emits.
#[derive(Clone, Debug, PartialEq)]
pub struct Span {
    pub filename: Symbol,
    pub start: Pos,
    pub end: Pos,
}

/// A payload tagged with the source range it came from.
#[derive(Clone, Debug, PartialEq)]
pub struct Spanned<T> {
    pub val: T,
    pub span: Span,
}

/// A token: a token kind with its provenance.
pub type Token = Spanned<TokenKind>;

/// The closed set of token kinds.
///
/// `Float` carries the literal's text rather than a numeric value: the lexer
/// classifies and delimits the literal, and numeric evaluation is left to the
/// consumer. `StrPart` and `IndentStrPart` carry literal string text with
/// backslash escapes applied; indented string parts are not stripped of
/// leading whitespace — reindentation, like string reassembly, is left to the
/// consumer. `Unknown` marks a single unrecognized codepoint; the lexer emits
/// it and continues rather than aborting.
#[derive(Clone, Debug, PartialEq)]
pub enum TokenKind {
    Unknown,
    // Basic
    Id(Symbol),
    Int(i64),
    Float(String),
    Path(Symbol),
    // String-related
    Uri(String),
    StrPart(String),
    IndentStrPart(String),
    Quote,  // "
    IndentQuote,  // ''
    DollarBrace,  // ${
    // Operators
    Mult,  // *
    Minus,  // -
    Plus,  // +
    Divide,  // /
    Less,  // <
    Greater,  // >
    LessEq,  // <=
    GreaterEq,  // >=
    Assign,  // =
    Equals,  // ==
    NotEquals,  // !=
    And,  // &&
    Or,  // ||
    Implies,  // ->
    Not,  // !
    Update,  // //
    Concat,  // ++
    // Other syntax
    At,  // @
    Comma,  // ,
    Dot,  // .
    Ellipsis,  // ...
    Question,  // ?
    Colon,  // :
    Semicolon,  // ;
    // Delimiters
    ParenL,  // (
    ParenR,  // )
    BracketL,  // [
    BracketR,  // ]
    BraceL,  // {
    BraceR,  // }
}

/// Mathematical model of a `TokenKind`: text payloads become codepoint
/// sequences and the integer payload becomes unbounded.
pub enum TokK {
    Unknown,
    Id(Seq<char>),
    Int(int),
    Float(Seq<char>),
    Path(Seq<char>),
    Uri(Seq<char>),
    StrPart(Seq<char>),
    IndentStrPart(Seq<char>),
    Quote,
    IndentQuote,
    DollarBrace,
    Mult,
    Minus,
    Plus,
    Divide,
    Less,
    Greater,
    LessEq,
    GreaterEq,
    Assign,
    Equals,
    NotEquals,
    And,
    Or,
    Implies,
    Not,
    Update,
    Concat,
    At,
    Comma,
    Dot,
    Ellipsis,
    Question,
    Colon,
    Semicolon,
    ParenL,
    ParenR,
    BracketL,
    BracketR,
    BraceL,
    BraceR,
}

impl View for TokenKind {
    type V = TokK;

    open spec fn view(&self) -> TokK {
        match self {
            TokenKind::Unknown => TokK::Unknown,
            TokenKind::Id(s) => TokK::Id(s@),
            TokenKind::Int(n) => TokK::Int(*n as int),
            TokenKind::Float(s) => TokK::Float(s@),
            TokenKind::Path(s) => TokK::Path(s@),
            TokenKind::Uri(s) => TokK::Uri(s@),
            TokenKind::StrPart(s) => TokK::StrPart(s@),
            TokenKind::IndentStrPart(s) => TokK::IndentStrPart(s@),
            TokenKind::Quote => TokK::Quote,
            TokenKind::IndentQuote => TokK::IndentQuote,
            TokenKind::DollarBrace => TokK::DollarBrace,
            TokenKind::Mult => TokK::Mult,
            TokenKind::Minus => TokK::Minus,
            TokenKind::Plus => TokK::Plus,
            TokenKind::Divide => TokK::Divide,
            TokenKind::Less => TokK::Less,
            TokenKind::Greater => TokK::Greater,
            TokenKind::LessEq => TokK::LessEq,
            TokenKind::GreaterEq => TokK::GreaterEq,
            TokenKind::Assign => TokK::Assign,
            TokenKind::Equals => TokK::Equals,
            TokenKind::NotEquals => TokK::NotEquals,
            TokenKind::And => TokK::And,
            TokenKind::Or => TokK::Or,
            TokenKind::Implies => TokK::Implies,
            TokenKind::Not => TokK::Not,
            TokenKind::Update => TokK::Update,
            TokenKind::Concat => TokK::Concat,
            TokenKind::At => TokK::At,
            TokenKind::Comma => TokK::Comma,
            TokenKind::Dot => TokK::Dot,
            TokenKind::Ellipsis => TokK::Ellipsis,
            TokenKind::Question => TokK::Question,
            TokenKind::Colon => TokK::Colon,
            TokenKind::Semicolon => TokK::Semicolon,
            TokenKind::ParenL => TokK::ParenL,
            TokenKind::ParenR => TokK::ParenR,
            TokenKind::BracketL => TokK::BracketL,
            TokenKind::BracketR => TokK::BracketR,
            TokenKind::BraceL => TokK::BraceL,
            TokenKind::BraceR => TokK::BraceR,
        }
    }
}

/// Mathematical model of a token: its kind together with the start and end
/// position of the codepoints it covers.
pub struct TokS {
    pub kind: TokK,
    pub start: PosS,
    pub end: PosS,
}

/// The model of an emitted token, leaving the file label aside.
pub open spec fn tok_view(t: Token) -> TokS {
    TokS { kind: t.val@, start: t.span.start@, end: t.span.end@ }
}

/// The models of a sequence of emitted tokens.
pub open spec fn toks_view(ts: Seq<Token>) -> Seq<TokS> {
    ts.map_values(|t: Token| tok_view(t))
}

/// The kinds of lexical error the lexer reports as diagnostics. Unrecognized
/// codepoints are not diagnosed here: they surface as `Unknown` tokens.
#[derive(Clone, Copy, Debug, PartialEq, Eq, Structural)]
pub enum ErrKind {
    /// An integer literal whose magnitude exceeds the 64-bit signed range.
    IntegerOverflow,
    /// End of input was reached inside a string literal.
    UnterminatedString,
    /// End of input was reached inside a `/*` ... `*/` comment.
    UnterminatedBlockComment,
}

/// A lexical diagnostic: an error kind with the position it refers to.
/// For an unterminated string this is the position of the opening quote;
/// for the other kinds, the position where the offending lexeme starts.
#[derive(Clone, Copy, Debug, PartialEq, Eq, Structural)]
pub struct LexError {
    pub kind: ErrKind,
    pub pos: Pos,
}

/// Mathematical model of a lexical diagnostic.
pub struct ErrS {
    pub kind: ErrKind,
    pub pos: PosS,
}

impl View for LexError {
    type V = ErrS;

    open spec fn view(&self) -> ErrS {
        ErrS { kind: self.kind, pos: self.pos@ }
    }
}

/// The models of a sequence of diagnostics.
pub open spec fn errs_view(es: Seq<LexError>) -> Seq<ErrS> {
    es.map_values(|e: LexError| e@)
}

/// Relies on `String`'s `FromIterator<char>` implementation: collecting a
/// sequence of codepoints yields the string of exactly those codepoints in
/// order.
#[verifier::external_body]
pub(crate) fn chars_to_string(v: Vec<char>) -> (r: String)
    ensures
        r@ == v@,
{
    String::from_iter(v)
}

} // verus!
