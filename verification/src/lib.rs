//! Greedy text wrapping driven by per-glyph display widths.
//!
//! Text is carried through a pull-based pipeline: graphemes are paired with
//! their measured widths, grouped into whitespace-classified tokens, split
//! so that no token is wider than the configured maximum, interleaved with
//! synthetic newlines where a line is full, and finally assembled into
//! either line slices or per-character positions.

use vstd::prelude::*;

mod grapheme_width;
mod line;
mod line_break;
mod measure;
mod partial_tokens;
mod position;
mod token;
mod whitespace;
mod whitespace_wordwrap;
mod wordwrap;

pub use grapheme_width::{with_grapheme_width, GraphemeWidth};
pub use line::LineIterator;
pub use line_break::LineBreakIterator;
pub use measure::{Measure, TableMeasure};
pub use partial_tokens::{PartialToken, PartialTokensIterator};
pub use position::{CharPosition, Position, PositionIterator};
pub use token::{Kind, Token, TokenKind};
pub use whitespace::WhiteSpaceIterator;
pub use whitespace_wordwrap::WhiteSpaceWordWrap;
pub use wordwrap::{wrap, wrap_with_position, WordWrap, WordWrapWithPosition, Wrap, WrapWithPosition};

verus! {

} // verus!
