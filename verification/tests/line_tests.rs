//! Line assembly: the emitted line slices of the original text.

use ttf_word_wrap::{
    with_grapheme_width, wrap, LineIterator, TableMeasure, WhiteSpaceIterator, WhiteSpaceWordWrap,
    Wrap,
};

fn fixture_measure() -> TableMeasure {
    TableMeasure::new(vec![
        ('0', 1150),
        ('1', 1150),
        ('2', 1150),
        ('3', 1150),
        ('4', 1150),
        ('5', 1150),
        ('6', 1150),
        ('7', 1150),
        ('8', 1150),
        ('9', 1150),
        ('a', 1114),
        ('c', 1073),
        ('e', 1072),
        ('f', 755),
        ('h', 1126),
        ('n', 1125),
        ('o', 1168),
        ('r', 693),
        ('s', 1057),
        ('t', 675),
        ('v', 993),
        (' ', 505),
    ])
}

fn lines_of<'a>(
    text: &'a str,
    max_width: u32,
    measure: &'a TableMeasure,
) -> LineIterator<'a, TableMeasure> {
    WhiteSpaceIterator::new(with_grapheme_width(text, measure))
        .with_partial_tokens(max_width, text, measure)
        .add_newlines_at(max_width)
        .lines(text)
}

#[test]
fn line_too_narrow() {
    let measure = fixture_measure();

    let text = "1234567890";
    let mut lines = lines_of(text, 5000, &measure);

    let token = lines.next().unwrap();
    assert_eq!("1234", token);

    let token = lines.next().unwrap();
    assert_eq!("5678", token);

    let token = lines.next().unwrap();
    assert_eq!("90", token);

    assert!(lines.next().is_none());
}

#[test]
fn line_with_newlines() {
    let measure = fixture_measure();

    let text = "123\n456\r\n7890";
    let mut lines = lines_of(text, 5000, &measure);

    let token = lines.next().unwrap();
    assert_eq!("123", token);

    let token = lines.next().unwrap();
    assert_eq!("456", token);

    let token = lines.next().unwrap();
    assert_eq!("7890", token);

    assert!(lines.next().is_none());
}

#[test]
fn line_consecutive_newlines() {
    let measure = fixture_measure();

    let text = "123\n\r\n456";
    let mut lines = lines_of(text, 5000, &measure);

    // The first newline ends the first line
    let token = lines.next().unwrap();
    assert_eq!("123", token);

    // The second newline adds a line
    let token = lines.next().unwrap();
    assert_eq!("", token);

    let token = lines.next().unwrap();
    assert_eq!("456", token);

    assert!(lines.next().is_none());
}

#[test]
fn starting_newlines() {
    let measure = fixture_measure();

    let text = "\n1234";
    let mut lines = lines_of(text, 5000, &measure);

    let token = lines.next().unwrap();
    assert_eq!("", token);

    let token = lines.next().unwrap();
    assert_eq!("1234", token);

    assert!(lines.next().is_none());
}

#[test]
fn word_wrap_small_words() {
    let measure = fixture_measure();

    let text = "caverns are not for the";
    let mut lines = lines_of(text, 20_000, &measure);

    let token = lines.next().unwrap();
    assert_eq!("caverns are not for", token);

    let token = lines.next().unwrap();
    assert_eq!("the", token);

    assert!(lines.next().is_none());
}

#[test]
fn trailing_space_before_newline_excluded() {
    let measure = fixture_measure();

    // a trailing Optional token before a real newline is excluded from the
    // line's end
    let text = "ca \nef";
    let mut lines = lines_of(text, 20_000, &measure);

    assert_eq!(lines.next(), Some("ca"));
    assert_eq!(lines.next(), Some("ef"));
    assert!(lines.next().is_none());
}

#[test]
fn wrap_trait_on_str() {
    let measure = fixture_measure();
    let wsww = WhiteSpaceWordWrap::new(5000, &measure);

    let mut lines = "123\n456\r\n7890".wrap(&wsww);
    assert_eq!(lines.next(), Some("123"));
    assert_eq!(lines.next(), Some("456"));
    assert_eq!(lines.next(), Some("7890"));
    assert_eq!(lines.next(), None);
}

#[test]
fn wrap_collects_all_lines() {
    let measure = fixture_measure();
    let wsww = WhiteSpaceWordWrap::new(5000, &measure);

    let lines = wrap("1234567890", &wsww);
    assert_eq!(lines, vec!["1234", "5678", "90"]);

    let lines = wrap("", &wsww);
    assert!(lines.is_empty());
}
