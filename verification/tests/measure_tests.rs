//! Table-backed measuring: per-character lookup and string sums.

use ttf_word_wrap::{Measure, TableMeasure};

fn fixture_measure() -> TableMeasure {
    TableMeasure::new(vec![
        ('a', 1114),
        ('c', 1073),
        ('e', 1072),
        ('f', 755),
        ('h', 1126),
        ('n', 1125),
        ('o', 1168),
        ('r', 693),
        ('s', 1057),
        ('t', 675),
        ('u', 1142),
        ('v', 993),
        (' ', 505),
    ])
}

#[test]
fn measure_test_str() {
    let dw = fixture_measure();

    let text = "aoeu";
    let width = dw.str(text);
    assert_eq!(width, 4496);
}

#[test]
fn measure_test_char() {
    let dw = fixture_measure();

    let text = "a";
    let width = dw.char(text.chars().next().unwrap()).unwrap();
    assert_eq!(width, 1114);
}

#[test]
fn caverns() {
    let dw = fixture_measure();

    let text = "caverns are not for the";
    let width = dw.str(text);
    assert_eq!(width, 20483);
}

#[test]
fn unknown_chars_measure_zero() {
    let dw = fixture_measure();

    // absent characters have no width: the lookup reports None and the
    // string sum treats them as zero wide
    assert_eq!(dw.char('Q'), None);
    assert_eq!(dw.str("Q"), 0);
    assert_eq!(dw.str("Qa"), 1114);
}

#[test]
fn first_match_wins() {
    let dw = TableMeasure::new(vec![('x', 100), ('x', 200)]);
    assert_eq!(dw.char('x'), Some(100));
    assert_eq!(dw.str("xx"), 200);
}
