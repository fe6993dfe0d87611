//! The default wrapping strategy: whitespace tokenization over grapheme
//! clusters, wrapped at a fixed maximum display width.

use vstd::prelude::*;

use crate::grapheme_width::{unit_seqs, with_grapheme_width};
use crate::line::LineIterator;
use crate::measure::Measure;
use crate::position::PositionIterator;
use crate::whitespace::WhiteSpaceIterator;

verus! {

/// WordWrap for variable-width text measured by a glyph measure.
pub struct WhiteSpaceWordWrap<'fnt, M: Measure> {
    max_width: u32,
    measure: &'fnt M,
}

impl<'fnt, M: Measure> WhiteSpaceWordWrap<'fnt, M> {
    /// The maximum display width lines are wrapped at.
    pub closed spec fn max_width_spec(self) -> u32 {
        self.max_width
    }

    /// The measure glyphs are measured by.
    pub closed spec fn measure_spec(self) -> M {
        *self.measure
    }

    /// Creates a new `WhiteSpaceWordWrap`
    ///
    /// Will wrap at `max_width` and measure the glyphs using `measure`.
    pub fn new(max_width: u32, measure: &'fnt M) -> (r: Self)
        ensures
            r.max_width_spec() == max_width,
            r.measure_spec() == *measure,
    {
        Self { max_width, measure }
    }

    /// Builds the full pipeline over `text` and returns its line slices
    /// one by one.
    pub fn word_wrap(&self, text: &'fnt str) -> (r: LineIterator<'fnt, M>)
        ensures
            r.wf(),
            r.text_view() == text@,
            r.measure_spec() == self.measure_spec(),
            r.max_width_spec() == self.max_width_spec(),
            r.frontier() == 0,
            r.tokens_spec().prev_spec() is None,
            !r.tokens_spec().force_spec(),
            r.tokens_spec().rank() == 4 * text@.len(),
    {
        let text_chars = text.unicode_len();
        proof {
            assert(text_chars as int == text@.len());
        }
        let units = with_grapheme_width(text, self.measure);
        proof {
            crate::grapheme_width::lemma_pieces_prefix(unit_seqs(units@), units@.len() as int);
        }
        WhiteSpaceIterator::new(units).with_partial_tokens(
            self.max_width,
            text,
            self.measure,
        ).add_newlines_at(self.max_width).lines(text)
    }

    /// Builds the full pipeline over `text` and returns the position of
    /// each of its characters.
    pub fn word_wrap_with_position(&self, text: &'fnt str) -> (r: PositionIterator<'fnt, M>)
        ensures
            r.wf(),
            r.text_view() == text@,
            r.measure_spec() == self.measure_spec(),
            r.chars_spec() is None,
            r.line_spec() == 0,
            r.offset_spec() == 0,
            r.budget() == 0,
            r.tokens_spec().max_width_spec() == self.max_width_spec(),
            r.tokens_spec().rank() <= 4 * text@.len(),
            r.tokens_spec().frontier() == 0,
    {
        let text_chars = text.unicode_len();
        proof {
            assert(text_chars as int == text@.len());
        }
        let units = with_grapheme_width(text, self.measure);
        proof {
            crate::grapheme_width::lemma_pieces_prefix(unit_seqs(units@), units@.len() as int);
        }
        WhiteSpaceIterator::new(units).with_partial_tokens(
            self.max_width,
            text,
            self.measure,
        ).add_newlines_at(self.max_width).positions(text, self.measure)
    }
}

} // verus!
