//! Token splitting behaviour at width and grapheme granularity.

use ttf_word_wrap::{wrap, TableMeasure, Token, WhiteSpaceWordWrap};

fn fixture_measure() -> TableMeasure {
    TableMeasure::new(vec![
        ('a', 1114),
        ('o', 1168),
        ('e', 1072),
        ('u', 1142),
        ('w', 1539),
        ('r', 693),
        ('d', 1155),
        ('!', 527),
        ('[', 543),
        ('0', 1150),
        ('1', 1150),
        ('2', 1150),
        ('3', 1150),
        ('4', 1150),
        ('5', 1150),
        ('6', 1150),
        ('7', 1150),
        ('8', 1150),
        ('9', 1150),
    ])
}

#[test]
fn full_width() {
    let measure = fixture_measure();

    let text = "1234567890";
    let token = Token::measure(text, &measure);

    let (head, tail) = token.split_at_width(1_000_000, text, &measure);
    assert_eq!("1234567890", head.unwrap().as_str(text));
    assert!(tail.is_none());
}

#[test]
fn token_too_narrow() {
    let measure = fixture_measure();

    let text = "1234567890";
    let token = Token::measure(text, &measure);

    // the number 1 is much larger than the display width of 100
    let (head, tail) = token.split_at_width(100, text, &measure);
    assert!(head.is_none());
    assert_eq!("1234567890", tail.unwrap().as_str(text));
}

#[test]
fn split_even() {
    let measure = fixture_measure();

    let text = "1234567890";
    let token = Token::measure(text, &measure);

    let (head, tail) = token.split_at_width(6000, text, &measure);
    assert_eq!("12345", head.unwrap().as_str(text));
    assert_eq!("67890", tail.unwrap().as_str(text));
}

#[test]
fn fuzz_wrap_1() {
    let measure = fixture_measure();

    let text = "\r\n[wwwwwwwwwwwww";
    let token = Token::new(2, 16, 20550);

    let (head, tail) = token.split_at_width(20000, text, &measure);
    assert_eq!("[wwwwwwwwwwww", head.unwrap().as_str(text));
    assert_eq!("w", tail.unwrap().as_str(text));
}

#[test]
fn hello() {
    let measure = fixture_measure();

    let text = "今日は!";

    let token = Token::measure(text, &measure);

    let (head, tail) = token.split_at_grapheme(1, text, &measure);
    assert_eq!("今", head.unwrap().as_str(text));
    let (head, tail) = tail.unwrap().split_at_grapheme(1, text, &measure);
    assert_eq!("日", head.unwrap().as_str(text));
    let (head, tail) = tail.unwrap().split_at_grapheme(1, text, &measure);
    assert_eq!("は", head.unwrap().as_str(text));
    let (head, tail) = tail.unwrap().split_at_grapheme(1, text, &measure);
    assert_eq!("!", head.unwrap().as_str(text));

    assert!(tail.is_none());
}

#[test]
fn split_never_cuts_inside_a_cluster() {
    // y plus combining breve is one grapheme cluster of two measured chars
    let measure = TableMeasure::new(vec![('y', 977), ('\u{306}', 300)]);
    let text = "y\u{306}y";
    let token = Token::measure(text, &measure);
    assert_eq!(token.display_width, 2254);

    // the first char alone would fit in 1000, but its cluster does not:
    // nothing is taken rather than cutting the cluster apart
    let (head, tail) = token.split_at_width(1000, text, &measure);
    assert!(head.is_none());
    assert_eq!(tail.unwrap().as_str(text), "y\u{306}y");

    // at 1300 the whole first cluster fits and the split lands after it
    let (head, tail) = token.split_at_width(1300, text, &measure);
    assert_eq!(head.unwrap().as_str(text), "y\u{306}");
    assert_eq!(tail.unwrap().as_str(text), "y");

    // wrapped, the over-wide cluster takes a line of its own
    let wsww = WhiteSpaceWordWrap::new(1000, &measure);
    assert_eq!(wrap(text, &wsww), vec!["y\u{306}", "y"]);
}

#[test]
fn width() {
    let measure = fixture_measure();

    let text = "今日は!";

    let token = Token::measure(text, &measure);
    assert_eq!(527, token.display_width);

    // the measure does not have these Japanese glyphs.
    let (head, tail) = token.split_at_grapheme(1, text, &measure);
    assert_eq!(0, head.unwrap().display_width);
    let (head, tail) = tail.unwrap().split_at_grapheme(1, text, &measure);
    assert_eq!(0, head.unwrap().display_width);
    let (head, tail) = tail.unwrap().split_at_grapheme(1, text, &measure);
    assert_eq!(0, head.unwrap().display_width);
    let (head, tail) = tail.unwrap().split_at_grapheme(1, text, &measure);
    assert_eq!(527, head.unwrap().display_width);

    assert!(tail.is_none());
}
