//! Line-break injection: synthetic newlines where a line fills up, real
//! newlines passing through, dangling Optional tokens dropped.

use ttf_word_wrap::{
    with_grapheme_width, LineBreakIterator, TableMeasure, Token, TokenKind, WhiteSpaceIterator,
};

fn fixture_measure() -> TableMeasure {
    TableMeasure::new(vec![
        ('0', 1150),
        ('1', 1150),
        ('2', 1150),
        ('3', 1150),
        ('4', 1150),
        ('5', 1150),
        ('6', 1150),
        ('7', 1150),
        ('8', 1150),
        ('9', 1150),
        ('t', 675),
        ('h', 1126),
        ('i', 506),
        ('s', 1057),
        ('a', 1114),
        ('e', 1072),
        (' ', 505),
        ('T', 1222),
        ('E', 1296),
        ('S', 1214),
    ])
}

fn breaker<'a>(
    text: &'a str,
    max_width: u32,
    measure: &'a TableMeasure,
) -> LineBreakIterator<'a, TableMeasure> {
    WhiteSpaceIterator::new(with_grapheme_width(text, measure))
        .with_partial_tokens(max_width, text, measure)
        .add_newlines_at(max_width)
}

#[test]
fn terminates() {
    let measure = fixture_measure();

    let text = "";
    let mut tokens = breaker(text, 5000, &measure);

    assert!(tokens.next().is_none());
}

#[test]
fn line_break_consecutive_newlines() {
    let measure = fixture_measure();

    let text = "\n\n\r\n";
    let mut tokens = breaker(text, 5000, &measure);

    assert!(matches!(tokens.next(), Some(TokenKind::Newline(Some(_)))));
    assert!(matches!(tokens.next(), Some(TokenKind::Newline(Some(_)))));
    assert!(matches!(tokens.next(), Some(TokenKind::Newline(Some(_)))));
    assert!(tokens.next().is_none());
}

#[test]
fn starting_newline() {
    let measure = fixture_measure();

    let text = "\n1234";
    let mut tokens = breaker(text, 5000, &measure);

    // not a synthetic newline
    assert!(matches!(tokens.next(), Some(TokenKind::Newline(Some(_)))));

    let token = tokens.next().unwrap().into_token().unwrap();
    assert_eq!(token.as_str(text), "1234");

    assert!(tokens.next().is_none());
}

#[test]
fn synthetic_newlines() {
    let measure = fixture_measure();

    let text = "1234567890";
    let mut tokens = breaker(text, 6000, &measure);

    let token = tokens.next().unwrap().into_token().unwrap();
    assert_eq!(token.as_str(text), "12345");

    // Synthetic Newline
    assert!(matches!(tokens.next(), Some(TokenKind::Newline(None))));

    let token = tokens.next().unwrap().into_token().unwrap();
    assert_eq!(token.as_str(text), "67890");

    assert!(tokens.next().is_none());
}

#[test]
fn line_break_with_newlines() {
    let measure = fixture_measure();

    let text = "123\n456\r\n7890";
    let mut tokens = breaker(text, 5000, &measure);

    let token = tokens.next().unwrap().into_token().unwrap();
    assert_eq!(token.as_str(text), "123");

    assert!(matches!(tokens.next(), Some(TokenKind::Newline(Some(_)))));

    let token = tokens.next().unwrap().into_token().unwrap();
    assert_eq!(token.as_str(text), "456");

    assert!(matches!(tokens.next(), Some(TokenKind::Newline(Some(_)))));

    let token = tokens.next().unwrap().into_token().unwrap();
    assert_eq!(token.as_str(text), "7890");

    assert!(tokens.next().is_none());
}

#[test]
fn optional_tokens() {
    let measure = fixture_measure();

    let text = "this is a test";
    let mut tokens = breaker(text, 20_000, &measure);

    // Optional space tokens should be returned
    for expected in ["this", " ", "is", " ", "a", " ", "test"] {
        let token = tokens.next().unwrap().into_token().unwrap();
        let text = token.as_str(text);
        assert_eq!(text, expected);
    }

    assert!(tokens.next().is_none());
}

#[test]
fn line_break_no_width() {
    let measure = fixture_measure();

    let text = "TEST";
    let mut tokens = breaker(text, 0, &measure);

    let token = tokens.next().unwrap();
    assert!(matches!(
        token,
        TokenKind::Required(Token {
            start: 0,
            end: 1,
            ..
        })
    ));

    let token = tokens.next().unwrap();
    assert!(matches!(token, TokenKind::Newline(None)));

    let token = tokens.next().unwrap();
    assert!(matches!(
        token,
        TokenKind::Required(Token {
            start: 1,
            end: 2,
            ..
        })
    ));

    let token = tokens.next().unwrap();
    assert!(matches!(token, TokenKind::Newline(None)));

    let token = tokens.next().unwrap();
    assert!(matches!(
        token,
        TokenKind::Required(Token {
            start: 2,
            end: 3,
            ..
        })
    ));
    let token = tokens.next().unwrap();
    assert!(matches!(token, TokenKind::Newline(None)));

    let token = tokens.next().unwrap();
    assert!(matches!(
        token,
        TokenKind::Required(Token {
            start: 3,
            end: 4,
            ..
        })
    ));

    assert!(tokens.next().is_none());
}
