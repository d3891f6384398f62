use toklex::ErrKind;
use toklex::Symbol;
use toklex::TokenKind;
use toklex::lex;

fn kinds(src: &str) -> Vec<TokenKind> {
    lex("<test>", src).0.into_iter().map(|t| t.val).collect()
}

fn errors(src: &str) -> Vec<(ErrKind, usize, usize)> {
    lex("<test>", src).1.into_iter().map(|e| (e.kind, e.pos.line, e.pos.column)).collect()
}

fn id(s: &str) -> TokenKind {
    TokenKind::Id(Symbol { text: String::from(s) })
}

fn path(s: &str) -> TokenKind {
    TokenKind::Path(Symbol { text: String::from(s) })
}

#[test]
fn test_lex() {
    let (toks, errs) = lex("<test>", "");
    assert!(toks.is_empty());
    assert!(errs.is_empty());
    let (toks, errs) = lex("<test>", "0");
    assert!(errs.is_empty());
    assert_eq!(toks.len(), 1);
    assert_eq!(toks[0].val, TokenKind::Int(0));
    let span = format!(
        "{}:{}-{}:{}",
        toks[0].span.start.line,
        toks[0].span.start.column,
        toks[0].span.end.line,
        toks[0].span.end.column
    );
    assert_eq!(span, "1:1-1:2");
}

#[test]
fn empty_input_lexes_to_nothing() {
    assert_eq!(kinds(""), vec![]);
    assert_eq!(errors(""), vec![]);
}

#[test]
fn float_literal() {
    assert_eq!(kinds("3.14"), vec![TokenKind::Float(String::from("3.14"))]);
    assert_eq!(errors("3.14"), vec![]);
}

#[test]
fn float_with_exponent() {
    assert_eq!(kinds("1e5"), vec![TokenKind::Float(String::from("1e5"))]);
    assert_eq!(kinds("2.5e-3"), vec![TokenKind::Float(String::from("2.5e-3"))]);
    assert_eq!(kinds("7E+2"), vec![TokenKind::Float(String::from("7E+2"))]);
}

#[test]
fn dot_after_int_is_not_a_float() {
    assert_eq!(kinds("3."), vec![TokenKind::Int(3), TokenKind::Dot]);
    assert_eq!(kinds("3e"), vec![TokenKind::Int(3), id("e")]);
}

#[test]
fn comment_fully_elided() {
    assert_eq!(kinds("1/*c*/+2"), vec![TokenKind::Int(1), TokenKind::Plus, TokenKind::Int(2)]);
    assert_eq!(errors("1/*c*/+2"), vec![]);
}

#[test]
fn line_comment_skipped() {
    assert_eq!(kinds("# note\n42"), vec![TokenKind::Int(42)]);
}

#[test]
fn interpolation_nesting() {
    assert_eq!(
        kinds("\"a${ { b = 1; } }\""),
        vec![
            TokenKind::Quote,
            TokenKind::StrPart(String::from("a")),
            TokenKind::DollarBrace,
            TokenKind::BraceL,
            id("b"),
            TokenKind::Assign,
            TokenKind::Int(1),
            TokenKind::Semicolon,
            TokenKind::BraceR,
            TokenKind::BraceR,
            TokenKind::Quote,
        ]
    );
}

#[test]
fn nested_string_in_interpolation() {
    assert_eq!(
        kinds("\"a${\"b\"}c\""),
        vec![
            TokenKind::Quote,
            TokenKind::StrPart(String::from("a")),
            TokenKind::DollarBrace,
            TokenKind::Quote,
            TokenKind::StrPart(String::from("b")),
            TokenKind::Quote,
            TokenKind::BraceR,
            TokenKind::StrPart(String::from("c")),
            TokenKind::Quote,
        ]
    );
}

#[test]
fn maximal_munch_two_char_operators() {
    assert_eq!(kinds("->"), vec![TokenKind::Implies]);
    assert_eq!(kinds("<="), vec![TokenKind::LessEq]);
    assert_eq!(kinds("//"), vec![TokenKind::Update]);
    assert_eq!(kinds(">="), vec![TokenKind::GreaterEq]);
    assert_eq!(kinds("=="), vec![TokenKind::Equals]);
    assert_eq!(kinds("!="), vec![TokenKind::NotEquals]);
    assert_eq!(kinds("&&"), vec![TokenKind::And]);
    assert_eq!(kinds("||"), vec![TokenKind::Or]);
    assert_eq!(kinds("++"), vec![TokenKind::Concat]);
    assert_eq!(kinds("..."), vec![TokenKind::Ellipsis]);
}

#[test]
fn single_char_operators_and_delimiters() {
    assert_eq!(
        kinds("* - + / < > = ! @ , . ? : ; ( ) [ ] { }"),
        vec![
            TokenKind::Mult,
            TokenKind::Minus,
            TokenKind::Plus,
            TokenKind::Divide,
            TokenKind::Less,
            TokenKind::Greater,
            TokenKind::Assign,
            TokenKind::Not,
            TokenKind::At,
            TokenKind::Comma,
            TokenKind::Dot,
            TokenKind::Question,
            TokenKind::Colon,
            TokenKind::Semicolon,
            TokenKind::ParenL,
            TokenKind::ParenR,
            TokenKind::BracketL,
            TokenKind::BracketR,
            TokenKind::BraceL,
            TokenKind::BraceR,
        ]
    );
}

#[test]
fn identifiers() {
    assert_eq!(kinds("foo_bar'"), vec![id("foo_bar'")]);
    assert_eq!(kinds("_x1 y"), vec![id("_x1"), id("y")]);
}

#[test]
fn uris() {
    assert_eq!(kinds("http://example.org/a"), vec![TokenKind::Uri(String::from(
        "http://example.org/a"
    ))]);
    assert_eq!(kinds("x:y"), vec![TokenKind::Uri(String::from("x:y"))]);
}

#[test]
fn paths() {
    assert_eq!(kinds("./a/b"), vec![path("./a/b")]);
    assert_eq!(kinds("/x"), vec![path("/x")]);
    assert_eq!(kinds("~/conf"), vec![path("~/conf")]);
    assert_eq!(kinds("<pkgs/lib>"), vec![path("<pkgs/lib>")]);
    assert_eq!(kinds("a/b"), vec![path("a/b")]);
}

#[test]
fn update_operator_is_not_a_path() {
    assert_eq!(kinds("a//b"), vec![id("a"), TokenKind::Update, id("b")]);
}

#[test]
fn string_escapes() {
    assert_eq!(kinds("\"a\\nb\""), vec![
        TokenKind::Quote,
        TokenKind::StrPart(String::from("a\nb")),
        TokenKind::Quote,
    ]);
    assert_eq!(kinds("\"a\\\"b\""), vec![
        TokenKind::Quote,
        TokenKind::StrPart(String::from("a\"b")),
        TokenKind::Quote,
    ]);
    assert_eq!(kinds("\"a$b\""), vec![
        TokenKind::Quote,
        TokenKind::StrPart(String::from("a$b")),
        TokenKind::Quote,
    ]);
}

#[test]
fn indented_strings() {
    assert_eq!(kinds("''ab''"), vec![
        TokenKind::IndentQuote,
        TokenKind::IndentStrPart(String::from("ab")),
        TokenKind::IndentQuote,
    ]);
    assert_eq!(kinds("''a'b''"), vec![
        TokenKind::IndentQuote,
        TokenKind::IndentStrPart(String::from("a'b")),
        TokenKind::IndentQuote,
    ]);
}

#[test]
fn unknown_codepoint_does_not_stop_the_stream() {
    assert_eq!(kinds("1 ^ 2"), vec![TokenKind::Int(1), TokenKind::Unknown, TokenKind::Int(2)]);
    assert_eq!(errors("1 ^ 2"), vec![]);
}

#[test]
fn integer_at_the_signed_bound() {
    assert_eq!(kinds("9223372036854775807"), vec![TokenKind::Int(9223372036854775807)]);
}

#[test]
fn lexing_is_deterministic() {
    let src = "x = ./a/b // { y = \"s${z}\"; } # tail";
    assert_eq!(lex("<test>", src), lex("<test>", src));
}
