//! Tokenizer behaviour: classified runs, with every line terminator its
//! own token.

use ttf_word_wrap::{with_grapheme_width, TableMeasure, TokenKind, WhiteSpaceIterator};

fn fixture_measure() -> TableMeasure {
    TableMeasure::new(vec![
        ('a', 1114),
        ('o', 1168),
        ('e', 1072),
        ('u', 1142),
        ('w', 1539),
        ('r', 693),
        ('d', 1155),
        ('y', 977),
        (' ', 505),
        ('t', 675),
        ('n', 1125),
        ('l', 538),
        ('i', 506),
        ('s', 1057),
        ('m', 1734),
        ('h', 1126),
        ('g', 1119),
    ])
}

fn tokenizer<'a>(text: &'a str, measure: &TableMeasure) -> WhiteSpaceIterator<'a> {
    WhiteSpaceIterator::new(with_grapheme_width(text, measure))
}

fn token_strs<'a>(text: &'a str, measure: &TableMeasure) -> Vec<&'a str> {
    let mut iter = tokenizer(text, measure);
    let mut words = Vec::new();
    while let Some(t) = iter.next() {
        words.push(t.into_token().unwrap().as_str(text));
    }
    words
}

#[test]
fn whitespace_one_word() {
    let measure = fixture_measure();

    let text = "word";
    let mut iter = tokenizer(text, &measure);

    let words = token_strs(text, &measure);
    assert_eq!(words, vec!["word"]);

    assert!(matches!(iter.next(), Some(TokenKind::Required(_))));
    assert!(iter.next().is_none());
}

#[test]
fn sequential_newlines() {
    let measure = fixture_measure();

    let text = "\r\n\n\r\n\n";
    let mut iter = tokenizer(text, &measure);

    let words = token_strs(text, &measure);
    assert_eq!(words, vec!["\r\n", "\n", "\r\n", "\n"]);

    assert!(matches!(iter.next(), Some(TokenKind::Newline(_))));
    assert!(matches!(iter.next(), Some(TokenKind::Newline(_))));
    assert!(matches!(iter.next(), Some(TokenKind::Newline(_))));
    assert!(matches!(iter.next(), Some(TokenKind::Newline(_))));
    assert!(iter.next().is_none());
}

#[test]
fn whitespace_begin_rn() {
    let measure = fixture_measure();

    let text = "\r\na\n";
    let mut iter = tokenizer(text, &measure);

    let words = token_strs(text, &measure);
    assert_eq!(words, vec!["\r\n", "a", "\n"]);

    assert!(matches!(iter.next(), Some(TokenKind::Newline(_))));
    assert!(matches!(iter.next(), Some(TokenKind::Required(_))));
    assert!(matches!(iter.next(), Some(TokenKind::Newline(_))));
    assert!(iter.next().is_none());
}

#[test]
fn whitespace_newline_breaks_ws() {
    let measure = fixture_measure();

    let text = "  \n  ";
    let mut iter = tokenizer(text, &measure);

    let words = token_strs(text, &measure);
    assert_eq!(words, vec!["  ", "\n", "  "]);

    assert!(matches!(iter.next(), Some(TokenKind::Optional(_))));
    assert!(matches!(iter.next(), Some(TokenKind::Newline(_))));
    assert!(matches!(iter.next(), Some(TokenKind::Optional(_))));
    assert!(iter.next().is_none());
}

#[test]
fn whitespace_mixed() {
    let measure = fixture_measure();

    let text = "at newline\n  some thing";
    let mut iter = tokenizer(text, &measure);

    let words = token_strs(text, &measure);
    assert_eq!(
        words,
        vec!["at", " ", "newline", "\n", "  ", "some", " ", "thing"]
    );

    assert!(matches!(iter.next(), Some(TokenKind::Required(_))));
    assert!(matches!(iter.next(), Some(TokenKind::Optional(_))));
    assert!(matches!(iter.next(), Some(TokenKind::Required(_))));
    assert!(matches!(iter.next(), Some(TokenKind::Newline(_))));
    assert!(matches!(iter.next(), Some(TokenKind::Optional(_))));
    assert!(matches!(iter.next(), Some(TokenKind::Required(_))));
    assert!(matches!(iter.next(), Some(TokenKind::Optional(_))));
    assert!(matches!(iter.next(), Some(TokenKind::Required(_))));
    assert!(iter.next().is_none());
}

#[test]
fn whitespace_test_y() {
    let measure = fixture_measure();

    let text = "y\u{306}";
    let mut iter = tokenizer(text, &measure);

    let words = token_strs(text, &measure);
    assert_eq!(words, vec!["y\u{306}"]);

    let token = iter.next();
    assert!(matches!(token, Some(TokenKind::Required(_))));
    assert!(iter.next().is_none());
}
