//! Splitter behaviour: width-bounded fragments, pending remainders, and
//! non-consuming peeks.

use ttf_word_wrap::{
    with_grapheme_width, PartialToken, PartialTokensIterator, TableMeasure, TokenKind,
    WhiteSpaceIterator,
};

fn fixture_measure() -> TableMeasure {
    TableMeasure::new(vec![
        ('a', 1114),
        ('o', 1168),
        ('e', 1072),
        ('u', 1142),
        ('T', 1222),
    ])
}

fn splitter<'a>(
    text: &'a str,
    max_width: u32,
    measure: &'a TableMeasure,
) -> PartialTokensIterator<'a, TableMeasure> {
    WhiteSpaceIterator::new(with_grapheme_width(text, measure)).with_partial_tokens(
        max_width, text, measure,
    )
}

#[test]
fn partials() {
    let measure = fixture_measure();

    let text = "aoeuaoeuaoeuaoeaoeu";
    let mut partials = splitter(text, 10000, &measure);

    // get a few tokens
    let token = partials.next(3000).unwrap().into_token().unwrap();
    assert_eq!("ao", token.as_str(text));

    // a full line width
    let token = partials.next(10000).unwrap().into_token().unwrap();
    assert_eq!("euaoeuao", token.as_str(text));

    // not enough room for a character
    let token = partials.next(500).unwrap();
    assert!(matches!(token, PartialToken::EndOfLine));

    let token = partials.next(10000).unwrap().into_token().unwrap();
    assert_eq!("euaoeaoe", token.as_str(text));

    let token = partials.next(10000).unwrap().into_token().unwrap();
    assert_eq!("u", token.as_str(text));

    let token = partials.next(500);
    assert!(token.is_none());
}

#[test]
fn partial_newline() {
    let measure = fixture_measure();

    let text = "aoeu\naoeu";
    let mut partials = splitter(text, 20000, &measure);

    let token = partials.next(10000).unwrap().into_token().unwrap();
    assert_eq!("aoeu", token.as_str(text));

    // the newline passes through
    let token_kind = partials.next(10000).unwrap().into_tokenkind().unwrap();
    assert!(token_kind.is_newline());

    // a full line width
    let token = partials.next(10000).unwrap().into_token().unwrap();
    assert_eq!("aoeu", token.as_str(text));
}

#[test]
fn peek_next() {
    let measure = fixture_measure();

    let text = "\naoeu";
    let mut partials = splitter(text, 20000, &measure);

    let token = partials.peek(3000).unwrap().into_tokenkind().unwrap();
    assert!(token.is_newline());

    let token = partials.next(20000).unwrap().into_tokenkind().unwrap();
    assert!(token.is_newline());

    let token = partials.peek(20000).unwrap().into_token().unwrap();
    assert_eq!("aoeu", token.as_str(text));

    let token = partials.next(20000).unwrap().into_token().unwrap();
    assert_eq!("aoeu", token.as_str(text));

    let token = partials.peek(15000);
    assert!(token.is_none());

    let token = partials.next(15000);
    assert!(token.is_none());
}

#[test]
fn peek_peek() {
    let measure = fixture_measure();

    let text = "\naoeu";
    let mut partials = splitter(text, 20000, &measure);

    let token = partials.peek(3000).unwrap().into_tokenkind().unwrap();
    assert!(token.is_newline());

    let token = partials.peek(3000).unwrap().into_tokenkind().unwrap();
    assert!(token.is_newline());

    let token = partials.peek(3000).unwrap().into_tokenkind().unwrap();
    assert!(token.is_newline());

    let token = partials.peek(3000).unwrap().into_tokenkind().unwrap();
    assert!(token.is_newline());
}

#[test]
fn peek_twice_same_item() {
    let measure = fixture_measure();

    let text = "aoeu aoeu";
    let mut partials = splitter(text, 3000, &measure);

    // two peeks with the same width and no intervening next agree exactly
    let first = partials.peek(2500);
    let second = partials.peek(2500);
    assert_eq!(first, second);

    let _ = partials.next(2500);
    let first = partials.peek(1000);
    let second = partials.peek(1000);
    assert_eq!(first, second);
}

#[test]
fn partial_tokens_no_width() {
    let measure = fixture_measure();

    let text = "T";
    let mut partials = splitter(text, 0, &measure);

    let token = partials.next(0).unwrap().into_token().unwrap();
    assert_eq!("T", token.as_str(text));

    let token = partials.next(0);
    assert!(token.is_none());
}

#[test]
fn splitter_kind_preserved() {
    let measure = fixture_measure();

    // an over-wide run of spaces splits into Optional fragments
    let text = "aoeu                aoeu";
    let mut partials = splitter(text, 2000, &measure);

    let token = partials.next(2000).unwrap();
    assert!(matches!(token, PartialToken::Token(TokenKind::Required(_))));
}
