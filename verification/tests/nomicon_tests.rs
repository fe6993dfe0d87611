//! End-to-end wrapping of a long paragraph: many break decisions in one
//! run, and position spot-checks across several lines.

use ttf_word_wrap::{CharPosition, Position, TableMeasure, WhiteSpaceWordWrap, Wrap,
    WrapWithPosition};

fn fixture_measure() -> TableMeasure {
    TableMeasure::new(vec![
        (' ', 505),
        ('\'', 351),
        (',', 416),
        ('-', 677),
        ('.', 533),
        (';', 433),
        ('C', 1333),
        ('F', 1132),
        ('G', 1430),
        ('I', 570),
        ('S', 1214),
        ('T', 1222),
        ('W', 1946),
        ('a', 1086),
        ('b', 1155),
        ('c', 1073),
        ('d', 1155),
        ('e', 1072),
        ('f', 755),
        ('g', 1119),
        ('h', 1126),
        ('i', 506),
        ('k', 1020),
        ('l', 538),
        ('m', 1734),
        ('n', 1125),
        ('o', 1168),
        ('p', 1152),
        ('r', 693),
        ('s', 1102),
        ('t', 675),
        ('u', 1142),
        ('v', 993),
        ('w', 1539),
        ('x', 1015),
        ('y', 977),
        ('z', 980),
    ])
}

#[test]
fn nomicon() {
    let measure = fixture_measure();

    let wsww = WhiteSpaceWordWrap::new(20000, &measure);

    let mut lines =
        "The nethermost caverns are not for the fathoming of eyes that see; for their marvels are strange and terrific. Cursed the ground where dead thoughts live new and oddly bodied, and evil the mind that is held by no head. Wisely did Ibn Schacabao say, that happy is the tomb where no wizard hath lain, and happy the town at night whose wizards are all ashes. For it is of old rumour that the soul of the devil-bought hastes not from his charnel clay, but fats and instructs the very worm that gnaws; till out of corruption horrid life springs, and the dull scavengers of earth wax crafty to vex it and swell monstrous to plague it. Great holes are digged where earth's pores ought to suffice, and things have learnt to walk that ought to crawl.".wrap(&wsww);

    let expected = vec![
        "The nethermost",
        "caverns are not for",
        "the fathoming of eyes",
        "that see; for their",
        "marvels are strange",
        "and terrific. Cursed",
        "the ground where",
        "dead thoughts live",
        "new and oddly",
        "bodied, and evil the",
        "mind that is held by",
        "no head. Wisely did",
        "Ibn Schacabao say,",
        "that happy is the",
        "tomb where no",
        "wizard hath lain, and",
        "happy the town at",
        "night whose wizards",
        "are all ashes. For it is",
        "of old rumour that the",
        "soul of the",
        "devil-bought hastes",
        "not from his charnel",
        "clay, but fats and",
        "instructs the very",
        "worm that gnaws; till",
        "out of corruption",
        "horrid life springs,",
        "and the dull",
        "scavengers of earth",
        "wax crafty to vex it",
        "and swell monstrous",
        "to plague it. Great",
        "holes are digged",
        "where earth's pores",
        "ought to suffice, and",
        "things have learnt to",
        "walk that ought to",
        "crawl.",
    ];

    let mut actual: Vec<&str> = Vec::new();
    while let Some(line) = lines.next() {
        actual.push(line);
    }
    assert_eq!(expected, actual);
}

#[test]
fn nomicon_positions() {
    let measure = fixture_measure();

    let wsww = WhiteSpaceWordWrap::new(20000, &measure);

    let mut positions = "The nethermost caverns are not for the fathoming of eyes that see;"
        .wrap_with_position(&wsww);

    let token = positions.next().unwrap();
    assert!(matches!(
        token,
        CharPosition::Known(Position {
            ch: 'T',
            line: 0,
            offset: 0
        })
    ));

    // advance some
    for _ in 0..30 {
        positions.next().unwrap();
    }
    let token = positions.next().unwrap();
    assert!(matches!(
        token,
        CharPosition::Known(Position {
            ch: 'o',
            line: 1,
            offset: 15233
        })
    ));

    // advance some more
    for _ in 0..30 {
        positions.next().unwrap();
    }
    let token = positions.next().unwrap();
    assert!(matches!(
        token,
        CharPosition::Known(Position {
            ch: ';',
            line: 3,
            offset: 7313
        })
    ));
}
