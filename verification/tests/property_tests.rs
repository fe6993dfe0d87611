//! Whole-pipeline checks on concrete inputs: lines reassemble the text in
//! order with only white space elided, and lines stay within the width
//! bound.

use ttf_word_wrap::{wrap, Measure, TableMeasure, WhiteSpaceWordWrap};

fn fixture_measure() -> TableMeasure {
    TableMeasure::new(vec![
        ('a', 1114),
        ('b', 1155),
        ('c', 1073),
        ('d', 1155),
        ('e', 1072),
        ('f', 755),
        ('g', 1119),
        ('h', 1126),
        ('i', 506),
        ('l', 538),
        ('m', 1734),
        ('n', 1125),
        ('o', 1168),
        ('r', 693),
        ('s', 1057),
        ('t', 675),
        ('u', 1142),
        ('v', 993),
        ('w', 1539),
        ('y', 977),
        (' ', 505),
        ('.', 533),
        (',', 416),
    ])
}

/// Every emitted line occurs in the text, in order, and every character
/// between or around the lines is white space.
fn assert_round_trip(text: &str, lines: &[&str]) {
    let mut rest = text;
    for line in lines {
        let at = rest.find(line).unwrap_or_else(|| panic!("line {:?} not found in order", line));
        assert!(
            rest[..at].chars().all(char::is_whitespace),
            "dropped non-whitespace before {:?}",
            line
        );
        rest = &rest[at + line.len()..];
    }
    assert!(
        rest.chars().all(char::is_whitespace),
        "dropped non-whitespace at the end: {:?}",
        rest
    );
}

/// Every emitted line measures within the maximum width, unless all of
/// its width sits in one trailing over-wide character (zero-width
/// characters may share such a line).
fn assert_width_bound(measure: &TableMeasure, max_width: u32, lines: &[&str]) {
    for line in lines {
        let w = measure.str(line);
        let without_last: String = {
            let mut cs: Vec<char> = line.chars().collect();
            cs.pop();
            cs.into_iter().collect()
        };
        assert!(
            w <= max_width || measure.str(&without_last) == 0,
            "line {:?} measures {} over {}",
            line,
            w,
            max_width
        );
    }
}

#[test]
fn round_trip_and_width_bound() {
    let measure = fixture_measure();
    let texts = [
        "the very worm that gnaws, and the dull scavengers of earth.",
        "one\ntwo words\r\nthree  spaced   words",
        "  leading and trailing  ",
        "averylongsinglewordthatmustbesplitatcharacterboundaries",
        "\n\n\r\n",
        "",
    ];
    for max_width in [0u32, 700, 2500, 5000, 20000] {
        let wsww = WhiteSpaceWordWrap::new(max_width, &measure);
        for text in texts {
            let lines = wrap(text, &wsww);
            assert_round_trip(text, &lines);
            assert_width_bound(&measure, max_width, &lines);
        }
    }
}

#[test]
fn wrapped_paragraph() {
    let measure = fixture_measure();
    let wsww = WhiteSpaceWordWrap::new(12_000, &measure);

    let text = "the dull scavengers of earth wax crafty to vex it";
    let lines = wrap(text, &wsww);
    assert_round_trip(text, &lines);
    assert_width_bound(&measure, 12_000, &lines);
    // words are kept whole at this width
    for line in &lines {
        for word in line.split(' ') {
            assert!(text.split_whitespace().any(|w| w == word));
        }
    }
}
