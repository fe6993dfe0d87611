//! Per-character positions: line counters, horizontal offsets, and
//! unknown-width tagging.

use ttf_word_wrap::{
    wrap_with_position, CharPosition, Position, TableMeasure, WhiteSpaceWordWrap,
    WrapWithPosition,
};

fn fixture_measure() -> TableMeasure {
    TableMeasure::new(vec![
        ('a', 1114),
        ('y', 977),
        ('A', 1336),
        ('B', 1337),
        ('C', 1333),
        ('D', 1340),
        ('w', 1539),
        ('o', 1168),
        ('r', 693),
        ('d', 1155),
    ])
}

#[test]
fn no_glyphs() {
    let measure = fixture_measure();
    let wsww = WhiteSpaceWordWrap::new(20_000, &measure);

    let text = "";
    let mut positions = text.wrap_with_position(&wsww);

    assert!(positions.next().is_none());
}

#[test]
fn one_glyph() {
    let measure = fixture_measure();
    let wsww = WhiteSpaceWordWrap::new(20_000, &measure);

    let text = "a";
    let mut positions = text.wrap_with_position(&wsww);

    let token = positions.next().unwrap();
    assert!(matches!(
        token,
        CharPosition::Known(Position {
            ch: 'a',
            line: 0,
            offset: 0
        })
    ));

    assert!(positions.next().is_none());
}

#[test]
fn newlines() {
    let measure = fixture_measure();
    let wsww = WhiteSpaceWordWrap::new(20_000, &measure);

    let text = "AB\nCD";
    let mut positions = text.wrap_with_position(&wsww);

    let token = positions.next().unwrap();
    assert!(matches!(
        token,
        CharPosition::Known(Position {
            ch: 'A',
            line: 0,
            offset: 0
        })
    ));

    let token = positions.next().unwrap();
    assert!(matches!(
        token,
        CharPosition::Known(Position {
            ch: 'B',
            line: 0,
            offset: 1336
        })
    ));

    let token = positions.next().unwrap();
    assert!(matches!(
        token,
        CharPosition::Known(Position {
            ch: 'C',
            line: 1,
            offset: 0
        })
    ));

    let token = positions.next().unwrap();
    assert!(matches!(
        token,
        CharPosition::Known(Position {
            ch: 'D',
            line: 1,
            offset: 1333
        })
    ));

    assert!(positions.next().is_none());
}

#[test]
fn position_test_y() {
    let measure = fixture_measure();
    let wsww = WhiteSpaceWordWrap::new(20_000, &measure);

    let text = "y\u{306}";

    let mut positions = text.wrap_with_position(&wsww);

    let token = positions.next().unwrap();
    assert!(matches!(
        token,
        CharPosition::Known(Position {
            ch: 'y',
            line: 0,
            offset: 0
        })
    ));

    let token = positions.next().unwrap();
    assert!(matches!(token, CharPosition::Unknown('\u{306}')));
}

#[test]
fn lib_no_width() {
    let measure = fixture_measure();

    let wsww = WhiteSpaceWordWrap::new(0, &measure);

    let mut positions = "word".wrap_with_position(&wsww);

    let token = positions.next();
    assert!(matches!(
        token,
        Some(CharPosition::Known(Position {
            ch: 'w',
            line: 0,
            offset: 0
        }))
    ));
    let token = positions.next();
    assert!(matches!(
        token,
        Some(CharPosition::Known(Position {
            ch: 'o',
            line: 1,
            offset: 0
        }))
    ));
    let token = positions.next();
    assert!(matches!(
        token,
        Some(CharPosition::Known(Position {
            ch: 'r',
            line: 2,
            offset: 0
        }))
    ));
    let token = positions.next();
    assert!(matches!(
        token,
        Some(CharPosition::Known(Position {
            ch: 'd',
            line: 3,
            offset: 0
        }))
    ));
    assert!(positions.next().is_none());
}

#[test]
fn wrap_with_position_collects_all() {
    let measure = fixture_measure();
    let wsww = WhiteSpaceWordWrap::new(20_000, &measure);

    let positions = wrap_with_position("AB\nCD", &wsww);
    assert_eq!(positions.len(), 4);
    assert!(matches!(
        positions[3],
        CharPosition::Known(Position {
            ch: 'D',
            line: 1,
            offset: 1333
        })
    ));
}
