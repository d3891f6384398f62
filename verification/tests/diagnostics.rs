use toklex::CharsPos;
use toklex::ErrKind;
use toklex::Lexer;
use toklex::TokenKind;
use toklex::lex;

#[test]
fn unterminated_string_reports_the_opening_quote() {
    let (toks, errs) = lex("<test>", "\"abc");
    assert_eq!(toks.len(), 2);
    assert_eq!(toks[0].val, TokenKind::Quote);
    assert_eq!(toks[1].val, TokenKind::StrPart(String::from("abc")));
    assert_eq!(errs.len(), 1);
    assert_eq!(errs[0].kind, ErrKind::UnterminatedString);
    assert_eq!(errs[0].pos.line, 1);
    assert_eq!(errs[0].pos.column, 1);
}

#[test]
fn unterminated_string_inside_interpolation() {
    let (_, errs) = lex("<test>", "\"a${x");
    assert_eq!(errs.len(), 1);
    assert_eq!(errs[0].kind, ErrKind::UnterminatedString);
    assert_eq!((errs[0].pos.line, errs[0].pos.column), (1, 1));
}

#[test]
fn unterminated_block_comment() {
    let (toks, errs) = lex("<test>", "1 /* tail");
    assert_eq!(toks.len(), 1);
    assert_eq!(toks[0].val, TokenKind::Int(1));
    assert_eq!(errs.len(), 1);
    assert_eq!(errs[0].kind, ErrKind::UnterminatedBlockComment);
    assert_eq!((errs[0].pos.line, errs[0].pos.column), (1, 3));
}

#[test]
fn integer_overflow_is_reported_and_lexing_goes_on() {
    let (toks, errs) = lex("<test>", "9223372036854775808 7");
    assert_eq!(toks.len(), 2);
    assert_eq!(toks[0].val, TokenKind::Unknown);
    assert_eq!(toks[1].val, TokenKind::Int(7));
    assert_eq!(errs.len(), 1);
    assert_eq!(errs[0].kind, ErrKind::IntegerOverflow);
    assert_eq!((errs[0].pos.line, errs[0].pos.column), (1, 1));
}

#[test]
fn positions_cross_newlines() {
    let (toks, _) = lex("<test>", "a\nbc");
    assert_eq!(toks.len(), 2);
    assert_eq!((toks[0].span.start.line, toks[0].span.start.column), (1, 1));
    assert_eq!((toks[0].span.end.line, toks[0].span.end.column), (1, 2));
    assert_eq!((toks[1].span.start.line, toks[1].span.start.column), (2, 1));
    assert_eq!((toks[1].span.end.line, toks[1].span.end.column), (2, 3));
}

#[test]
fn spans_carry_the_filename() {
    let (toks, _) = lex("file.cfg", "x");
    assert_eq!(toks[0].span.filename.text, "file.cfg");
}

#[test]
fn lexer_hands_out_tokens_one_by_one() {
    let mut lx = Lexer::new("<test>", "1+2");
    let a = lx.next().expect("first token");
    assert_eq!(a.val, TokenKind::Int(1));
    let b = lx.next().expect("second token");
    assert_eq!(b.val, TokenKind::Plus);
    let c = lx.next().expect("third token");
    assert_eq!(c.val, TokenKind::Int(2));
    assert!(lx.next().is_none());
    assert!(lx.into_errors().is_empty());
}

#[test]
fn chars_pos_tracks_lines_and_columns() {
    let mut cp = CharsPos::new(vec!['a', '\n', 'b']);
    assert_eq!(cp.peek(), Some('a'));
    assert_eq!((cp.pos().line, cp.pos().column), (1, 1));
    assert_eq!(cp.next(), Some('a'));
    assert_eq!((cp.pos().line, cp.pos().column), (1, 2));
    assert_eq!(cp.next(), Some('\n'));
    assert_eq!((cp.pos().line, cp.pos().column), (2, 1));
    assert_eq!(cp.as_str(), vec!['b']);
    assert_eq!(cp.next(), Some('b'));
    assert_eq!(cp.next(), None);
    assert_eq!(cp.as_str(), Vec::<char>::new());
}

#[test]
fn token_spans_tile_the_input() {
    // Coverage on a concrete input: spans plus skipped trivia hand the
    // position over without gaps going backwards.
    let (toks, _) = lex("<test>", "ab /*c*/ 12.5 ->\n\"s${x}\"");
    for w in toks.windows(2) {
        let a = &w[0].span.end;
        let b = &w[1].span.start;
        assert!(a.line < b.line || (a.line == b.line && a.column <= b.column));
    }
    for t in &toks {
        assert!(t.span.start.line >= 1 && t.span.start.column >= 1);
    }
}
