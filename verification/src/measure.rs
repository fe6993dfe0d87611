//! The glyph-measurement capability injected into the wrapping pipeline.

use vstd::prelude::*;

verus! {

/// Addition on `u32` that stops at `u32::MAX` instead of wrapping.
///
/// All widths in this crate accumulate with this operation, so a width is
/// always the saturating sum of the widths of the characters it covers.
pub open spec fn sat_add(a: u32, b: u32) -> u32 {
    if a + b > u32::MAX { u32::MAX } else { (a + b) as u32 }
}

/// Executable saturating addition on `u32`.
pub fn sat_add_u32(a: u32, b: u32) -> (r: u32)
    ensures
        r == sat_add(a, b),
{
    if a > u32::MAX - b {
        u32::MAX
    } else {
        a + b
    }
}

/// Implementing this allows overriding of how glyphs are measured.
///
/// A measure is a pure function from characters to display widths; a width
/// of `None` means the measure has no data for that character.
pub trait Measure: Sized {
    /// The width this measure assigns to `c`, or `None` where it is unknown.
    spec fn char_spec(&self, c: char) -> Option<u16>;

    /// Measures the display width of `c`.
    ///
    /// Returns `None` if the width is not known.
    fn char(&self, c: char) -> (r: Option<u16>)
        ensures
            r == self.char_spec(c);
}

/// The display width of one character under measure `m`: the measured
/// advance where the glyph is known, and zero where it is not.
pub open spec fn char_width<M: Measure>(m: M, c: char) -> u32 {
    match m.char_spec(c) {
        Some(w) => w as u32,
        None => 0,
    }
}

/// The display width of a character sequence under measure `m`: the
/// saturating sum of the widths of its characters.
pub open spec fn width_of<M: Measure>(m: M, s: Seq<char>) -> u32
    decreases s.len(),
{
    if s.len() == 0 {
        0
    } else {
        sat_add(width_of(m, s.drop_last()), char_width(m, s.last()))
    }
}

/// Saturating addition is associative.
pub proof fn lemma_sat_assoc(a: u32, b: u32, c: u32)
    ensures
        sat_add(sat_add(a, b), c) == sat_add(a, sat_add(b, c)),
{
}

/// A width can also be peeled off at the front of the sequence.
pub proof fn lemma_width_of_first<M: Measure>(m: M, s: Seq<char>)
    requires
        s.len() > 0,
    ensures
        width_of(m, s) == sat_add(char_width(m, s.first()), width_of(m, s.drop_first())),
    decreases s.len(),
{
    if s.len() == 1 {
        assert(s.drop_last() =~= Seq::<char>::empty());
        assert(s.drop_first() =~= Seq::<char>::empty());
    } else {
        lemma_width_of_first(m, s.drop_last());
        assert(s.drop_last().drop_first() =~= s.drop_first().drop_last());
        assert(s.drop_first().last() == s.last());
        assert(s.drop_last().first() == s.first());
        lemma_sat_assoc(
            char_width(m, s.first()),
            width_of(m, s.drop_first().drop_last()),
            char_width(m, s.last()),
        );
    }
}

/// The width of a concatenation is the saturating sum of the widths.
pub proof fn lemma_width_of_concat<M: Measure>(m: M, a: Seq<char>, b: Seq<char>)
    ensures
        width_of(m, a + b) == sat_add(width_of(m, a), width_of(m, b)),
    decreases b.len(),
{
    if b.len() == 0 {
        assert(a + b =~= a);
    } else {
        lemma_width_of_concat(m, a, b.drop_last());
        assert((a + b).drop_last() =~= a + b.drop_last());
        assert((a + b).last() == b.last());
        lemma_sat_assoc(width_of(m, a), width_of(m, b.drop_last()), char_width(m, b.last()));
    }
}

/// Measures a string slice against `m` by walking its characters.
pub fn measure_str<M: Measure>(m: &M, text: &str) -> (r: u32)
    ensures
        r == width_of(*m, text@),
{
    let n = text.unicode_len();
    let mut i: usize = 0;
    let mut w: u32 = 0;
    while i < n
        invariant
            i <= n,
            n == text@.len(),
            w == width_of(*m, text@.subrange(0, i as int)),
        decreases n - i,
    {
        let c = text.get_char(i);
        let cw: u32 = match m.char(c) {
            Some(x) => x as u32,
            None => 0,
        };
        proof {
            assert(text@.subrange(0, i + 1).drop_last() =~= text@.subrange(0, i as int));
            assert(text@.subrange(0, i + 1).last() == text@[i as int]);
        }
        w = sat_add_u32(w, cw);
        i = i + 1;
    }
    proof {
        assert(text@.subrange(0, n as int) =~= text@);
    }
    w
}

/// First match for `c` in a table of character-width pairs.
pub open spec fn table_lookup(entries: Seq<(char, u16)>, c: char) -> Option<u16>
    decreases entries.len(),
{
    if entries.len() == 0 {
        None
    } else if entries[0].0 == c {
        Some(entries[0].1)
    } else {
        table_lookup(entries.drop_first(), c)
    }
}

/// A glyph-advance table: measures characters by looking them up in a list
/// of character-width pairs, first match winning.
///
/// This is the measure to hand to the pipeline when the advances come from
/// somewhere other than a live font object, for example a precomputed table.
pub struct TableMeasure {
    entries: Vec<(char, u16)>,
}

impl TableMeasure {
    /// The table this measure answers from.
    pub closed spec fn table(&self) -> Seq<(char, u16)> {
        self.entries@
    }

    /// Creates a measure from a list of character-width pairs.
    pub fn new(entries: Vec<(char, u16)>) -> (r: TableMeasure)
        ensures
            r.table() == entries@,
    {
        TableMeasure { entries }
    }
}

impl Measure for TableMeasure {
    open spec fn char_spec(&self, c: char) -> Option<u16> {
        table_lookup(self.table(), c)
    }

    fn char(&self, c: char) -> (r: Option<u16>)
        ensures
            r == self.char_spec(c),
    {
        let n = self.entries.len();
        let mut i: usize = 0;
        proof {
            assert(self.entries@.skip(0) =~= self.entries@);
        }
        while i < n
            invariant
                i <= n,
                n == self.entries@.len(),
                table_lookup(self.entries@, c) == table_lookup(self.entries@.skip(i as int), c),
            decreases n - i,
        {
            let (ch, w) = self.entries[i];
            proof {
                assert(self.entries@.skip(i as int)[0] == self.entries@[i as int]);
            }
            if ch == c {
                return Some(w);
            }
            proof {
                assert(self.entries@.skip(i as int).drop_first() =~= self.entries@.skip(i + 1));
            }
            i = i + 1;
        }
        None
    }

}

impl TableMeasure {
    /// Measures the display width of `text`: the saturating sum of its
    /// characters' widths, unknown widths counting as zero.
    pub fn str(&self, text: &str) -> (r: u32)
        ensures
            r == width_of(*self, text@),
    {
        measure_str(self, text)
    }
}

} // verus!
