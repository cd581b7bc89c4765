use rj::error::{JErrorKind, Span};
use rj::token::{tokenize, Token, TokenKind};

fn kinds(src: &str) -> Vec<TokenKind> {
    tokenize(src, 0).unwrap().into_iter().map(|t: Token| t.kind).collect()
}

fn error_of(src: &str) -> (JErrorKind, String, Option<Span>) {
    let e = tokenize(src, 0).err().unwrap();
    (e.kind, e.message, e.span)
}

#[test]
fn numbers_and_spans() {
    let ts = tokenize("1 22 _3", 0).unwrap();
    assert_eq!(ts.len(), 3);
    assert_eq!(ts[0].kind, TokenKind::Number(1));
    assert_eq!(ts[0].span, Span::new(0, 1, 1, 1));
    assert_eq!(ts[1].kind, TokenKind::Number(22));
    assert_eq!(ts[1].span, Span::new(2, 4, 1, 3));
    assert_eq!(ts[2].kind, TokenKind::Number(-3));
    assert_eq!(ts[2].span, Span::new(5, 7, 1, 6));
}

#[test]
fn lines_and_columns() {
    let ts = tokenize("a\n  b", 0).unwrap();
    assert_eq!(ts[1].kind, TokenKind::Name(String::from("b")));
    assert_eq!(ts[1].span, Span::new(4, 5, 2, 3));
    // columns count bytes
    let ts = tokenize("'é' x", 0).unwrap();
    assert_eq!(ts[0].kind, TokenKind::Str(String::from("é")));
    assert_eq!(ts[1].span, Span::new(5, 6, 1, 6));
}

#[test]
fn float_and_complex_numerals() {
    assert_eq!(kinds("3.14"), vec![TokenKind::Float(String::from("3.14"))]);
    assert_eq!(kinds("_2.5"), vec![TokenKind::Float(String::from("-2.5"))]);
    assert_eq!(kinds("3j4"), vec![TokenKind::Complex(String::from("3"), String::from("4"))]);
    assert_eq!(kinds("3j_4"), vec![TokenKind::Complex(String::from("3"), String::from("-4"))]);
    assert_eq!(kinds("3j"), vec![TokenKind::Complex(String::from("3"), String::new())]);
    assert_eq!(kinds("_3j1.2.3"), vec![TokenKind::Complex(String::from("-3"), String::new())]);
    assert_eq!(kinds("_"), vec![TokenKind::Float(String::from("inf"))]);
}

#[test]
fn names_and_primitives() {
    assert_eq!(
        kinds("_x abc_1 i. t. <: >: ~: ~ ="),
        vec![
            TokenKind::Name(String::from("_x")),
            TokenKind::Name(String::from("abc_1")),
            TokenKind::Verb(String::from("i.")),
            TokenKind::Conjunction(String::from("t.")),
            TokenKind::Verb(String::from("<:")),
            TokenKind::Verb(String::from(">:")),
            TokenKind::Verb(String::from("~:")),
            TokenKind::Verb(String::from("~")),
            TokenKind::Verb(String::from("=")),
        ]
    );
    assert_eq!(
        kinds("x =: +/ . (1)"),
        vec![
            TokenKind::Name(String::from("x")),
            TokenKind::Assign,
            TokenKind::Verb(String::from("+")),
            TokenKind::Adverb(String::from("/")),
            TokenKind::Conjunction(String::from(".")),
            TokenKind::LParen,
            TokenKind::Number(1),
            TokenKind::RParen,
        ]
    );
}

#[test]
fn strings() {
    assert_eq!(kinds("'it''s'"), vec![TokenKind::Str(String::from("it's"))]);
    assert_eq!(kinds("''"), vec![TokenKind::Str(String::new())]);
}

#[test]
fn comments_are_skipped() {
    assert_eq!(kinds("1 NB. one\n2"), vec![TokenKind::Number(1), TokenKind::Number(2)]);
    assert_eq!(kinds("NB. all of it"), vec![]);
}

#[test]
fn foreign_words_merge() {
    let ts = tokenize("236!:32 ''", 0).unwrap();
    assert_eq!(ts.len(), 2);
    assert_eq!(ts[0].kind, TokenKind::Foreign(236, 32));
    assert_eq!(ts[0].span, Span::new(0, 7, 1, 1));
    assert_eq!(ts[1].kind, TokenKind::Str(String::new()));
    // `!:` between non-numbers stays a verb
    assert_eq!(kinds("a !: 1"), vec![
        TokenKind::Name(String::from("a")),
        TokenKind::Verb(String::from("!:")),
        TokenKind::Number(1),
    ]);
}

#[test]
fn lexical_errors() {
    assert_eq!(
        error_of("1 'abc"),
        (JErrorKind::Syntax, String::from("unterminated string"), Some(Span::new(2, 6, 1, 3)))
    );
    assert_eq!(
        error_of("!x"),
        (JErrorKind::Syntax, String::from("expected ':' after '!'"), Some(Span::new(0, 1, 1, 1)))
    );
    assert_eq!(
        error_of("1 @"),
        (JErrorKind::Syntax, String::from("unexpected character: '@'"), Some(Span::new(2, 3, 1, 3)))
    );
    assert_eq!(
        error_of("99999999999999999999"),
        (JErrorKind::Syntax, String::from("invalid integer: 99999999999999999999"), Some(Span::new(0, 20, 1, 1)))
    );
    assert_eq!(
        error_of("3j1.2.3"),
        (JErrorKind::Syntax, String::from("invalid imaginary part"), Some(Span::new(0, 7, 1, 1)))
    );
}

#[test]
fn integer_limits() {
    assert_eq!(kinds("9223372036854775807"), vec![TokenKind::Number(i64::MAX)]);
    assert_eq!(kinds("_9223372036854775808"), vec![TokenKind::Number(i64::MIN)]);
    assert_eq!(
        error_of("_9223372036854775809").1,
        String::from("invalid integer: -9223372036854775809")
    );
}
