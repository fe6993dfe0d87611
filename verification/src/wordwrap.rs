//! The wrapping entry points: traits that put `wrap` and
//! `wrap_with_position` on `&str`, and the drivers that run a pipeline to
//! exhaustion with the wrapping laws proved about their output.

use vstd::prelude::*;

use crate::line::{wrap_covers, LineIterator};
use crate::measure::Measure;
use crate::position::{lines_monotone, positions_span, CharPosition, PositionIterator};
use crate::whitespace_wordwrap::WhiteSpaceWordWrap;

verus! {

/// A wrapping strategy: turns a borrowed text into a stream of line
/// slices.
pub trait WordWrap<'a, M: Measure> {
    /// The maximum display width this strategy wraps at.
    spec fn max_width_of(&self) -> u32;

    /// The measure this strategy measures glyphs by.
    spec fn measure_of(&self) -> M;

    /// Wraps `text` and returns its line slices as an iterator, standing
    /// at the start of the text with the whole width free.
    fn word_wrap(&self, text: &'a str) -> (r: LineIterator<'a, M>)
        ensures
            r.wf(),
            r.text_view() == text@,
            r.measure_spec() == self.measure_of(),
            r.max_width_spec() == self.max_width_of(),
            r.frontier() == 0,
            r.tokens_spec().prev_spec() is None,
            !r.tokens_spec().force_spec(),
            r.tokens_spec().rank() <= 4 * text@.len(),
    ;
}

impl<'a, M: Measure> WordWrap<'a, M> for WhiteSpaceWordWrap<'a, M> {
    open spec fn max_width_of(&self) -> u32 {
        self.max_width_spec()
    }

    open spec fn measure_of(&self) -> M {
        self.measure_spec()
    }

    fn word_wrap(&self, text: &'a str) -> (r: LineIterator<'a, M>)
        ensures
            r.wf(),
            r.text_view() == text@,
            r.measure_spec() == self.measure_of(),
            r.max_width_spec() == self.max_width_of(),
            r.frontier() == 0,
            r.tokens_spec().prev_spec() is None,
            !r.tokens_spec().force_spec(),
            r.tokens_spec().rank() <= 4 * text@.len(),
    {
        WhiteSpaceWordWrap::word_wrap(self, text)
    }
}

/// Provides `.wrap()` on `&str`s
///
/// The behavior of the wrapping can change depending on the `WordWrap`
/// type passed in.
pub trait Wrap<'a, M: Measure, T: WordWrap<'a, M>>: View<V = Seq<char>> {
    /// Based on the `word_wrap` provided, provides an iterator of split
    /// lines over this text.
    fn wrap(&'a self, word_wrap: &T) -> (r: LineIterator<'a, M>)
        ensures
            r.wf(),
            r.text_view() == self@,
            r.measure_spec() == word_wrap.measure_of(),
            r.max_width_spec() == word_wrap.max_width_of(),
            r.frontier() == 0,
            r.tokens_spec().prev_spec() is None,
            !r.tokens_spec().force_spec(),
            r.tokens_spec().rank() <= 4 * self@.len(),
    ;
}

impl<'a, M: Measure, T: WordWrap<'a, M>> Wrap<'a, M, T> for str {
    fn wrap(&'a self, word_wrap: &T) -> (r: LineIterator<'a, M>)
        ensures
            r.wf(),
            r.text_view() == self@,
            r.measure_spec() == word_wrap.measure_of(),
            r.max_width_spec() == word_wrap.max_width_of(),
            r.frontier() == 0,
            r.tokens_spec().prev_spec() is None,
            !r.tokens_spec().force_spec(),
            r.tokens_spec().rank() <= 4 * self@.len(),
    {
        word_wrap.word_wrap(self)
    }
}

/// A wrapping strategy that reports per-character positions instead of
/// line slices.
pub trait WordWrapWithPosition<'a, M: Measure> {
    /// The maximum display width this strategy wraps at.
    spec fn pos_max_width_of(&self) -> u32;

    /// The measure this strategy measures glyphs by.
    spec fn pos_measure_of(&self) -> M;

    /// Wraps `text` and returns the position of each character, standing
    /// at the start of the text on line zero.
    fn word_wrap_with_position(&self, text: &'a str) -> (r: PositionIterator<'a, M>)
        ensures
            r.wf(),
            r.text_view() == text@,
            r.measure_spec() == self.pos_measure_of(),
            r.chars_spec() is None,
            r.line_spec() == 0,
            r.offset_spec() == 0,
            r.budget() == 0,
            r.mark() == 0,
            r.tokens_spec().max_width_spec() == self.pos_max_width_of(),
            r.tokens_spec().rank() <= 4 * text@.len(),
    ;
}

impl<'a, M: Measure> WordWrapWithPosition<'a, M> for WhiteSpaceWordWrap<'a, M> {
    open spec fn pos_max_width_of(&self) -> u32 {
        self.max_width_spec()
    }

    open spec fn pos_measure_of(&self) -> M {
        self.measure_spec()
    }

    fn word_wrap_with_position(&self, text: &'a str) -> (r: PositionIterator<'a, M>)
        ensures
            r.wf(),
            r.text_view() == text@,
            r.measure_spec() == self.pos_measure_of(),
            r.chars_spec() is None,
            r.line_spec() == 0,
            r.offset_spec() == 0,
            r.budget() == 0,
            r.mark() == 0,
            r.tokens_spec().max_width_spec() == self.pos_max_width_of(),
            r.tokens_spec().rank() <= 4 * text@.len(),
    {
        WhiteSpaceWordWrap::word_wrap_with_position(self, text)
    }
}

/// Provides `.wrap_with_position()` on `&str`s
///
/// The behavior of the wrapping can change depending on the
/// `WordWrapWithPosition` type passed in.
pub trait WrapWithPosition<'a, M: Measure, T: WordWrapWithPosition<'a, M>>: View<
    V = Seq<char>,
> {
    /// Based on the `word_wrap` provided, provides an iterator of
    /// per-character positions over this text.
    fn wrap_with_position(&'a self, word_wrap: &T) -> (r: PositionIterator<'a, M>)
        ensures
            r.wf(),
            r.text_view() == self@,
            r.measure_spec() == word_wrap.pos_measure_of(),
            r.chars_spec() is None,
            r.line_spec() == 0,
            r.offset_spec() == 0,
            r.budget() == 0,
            r.mark() == 0,
            r.tokens_spec().max_width_spec() == word_wrap.pos_max_width_of(),
            r.tokens_spec().rank() <= 4 * self@.len(),
    ;
}

impl<'a, M: Measure, T: WordWrapWithPosition<'a, M>> WrapWithPosition<'a, M, T> for str {
    fn wrap_with_position(&'a self, word_wrap: &T) -> (r: PositionIterator<'a, M>)
        ensures
            r.wf(),
            r.text_view() == self@,
            r.measure_spec() == word_wrap.pos_measure_of(),
            r.chars_spec() is None,
            r.line_spec() == 0,
            r.offset_spec() == 0,
            r.budget() == 0,
            r.mark() == 0,
            r.tokens_spec().max_width_spec() == word_wrap.pos_max_width_of(),
            r.tokens_spec().rank() <= 4 * self@.len(),
    {
        word_wrap.word_wrap_with_position(self)
    }
}

/// Wraps `text` and collects every emitted line.
///
/// The contract carries the pipeline's laws: the collected lines cover
/// the text in order with only droppable ranges elided and every line
/// within the width bound ([`wrap_covers`]), and the output is finite —
/// this function always returns, with a line count bounded by the input
/// length.
pub fn wrap<'a, M: Measure>(text: &'a str, word_wrap: &WhiteSpaceWordWrap<'a, M>) -> (r: Vec<
    &'a str,
>)
    ensures
        r@.len() <= 4 * text@.len(),
        wrap_covers(
            word_wrap.measure_spec(),
            text@,
            word_wrap.max_width_spec(),
            r@.map_values(|s: &'a str| s@),
        ),
{
    WhiteSpaceWordWrap::word_wrap(word_wrap, text).collect_lines()
}

/// Wraps `text` and collects the position of every character.
///
/// The contract carries the pipeline's laws: the collected entries report
/// the text's characters in order, one each, with only line-terminator
/// and edge-dropped white-space ranges left out ([`positions_span`]);
/// line indices never decrease along the output; and the output is
/// finite — this function always returns, with at most one entry per
/// character of the input.
pub fn wrap_with_position<'a, M: Measure>(
    text: &'a str,
    word_wrap: &WhiteSpaceWordWrap<'a, M>,
) -> (r: Vec<CharPosition>)
    ensures
        r@.len() <= text@.len(),
        positions_span(text@, r@),
        lines_monotone(r@),
{
    WhiteSpaceWordWrap::word_wrap_with_position(word_wrap, text).collect_positions()
}

} // verus!
