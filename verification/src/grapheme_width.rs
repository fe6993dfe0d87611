//! Pairs each grapheme cluster of a text with its measured display width.
//!
//! This is the leaf stage of the wrapping pipeline: the annotated unit
//! sequence it produces drives every later stage.

use vstd::prelude::*;

use crate::measure::{lemma_width_of_concat, measure_str, sat_add, width_of, Measure};

verus! {

/// The decomposition of a character sequence into extended grapheme
/// clusters, as `unicode_segmentation` computes it.
pub uninterp spec fn grapheme_pieces(s: Seq<char>) -> Seq<Seq<char>>;

/// Relies on unicode_segmentation's `UnicodeSegmentation::graphemes` (with
/// extended clusters) to split a text into grapheme clusters: the
/// concatenation of the returned substrings is the original string, and no
/// cluster is empty.
#[verifier::external_body]
pub(crate) fn split_graphemes<'a>(text: &'a str) -> (r: Vec<&'a str>)
    ensures
        r@.map_values(|g: &'a str| g@) == grapheme_pieces(text@),
        r@.map_values(|g: &'a str| g@).flatten() == text@,
        forall|i: int| 0 <= i < r@.len() ==> (#[trigger] r@[i]@).len() > 0,
{
    unicode_segmentation::UnicodeSegmentation::graphemes(text, true).collect()
}

/// The number of characters covered by the first `i` pieces.
pub open spec fn pieces_chars(ps: Seq<Seq<char>>, i: int) -> int
    decreases i,
{
    if i <= 0 {
        0
    } else {
        pieces_chars(ps, i - 1) + ps[i - 1].len()
    }
}

/// Character counts of piece prefixes grow with the prefix.
pub proof fn lemma_pieces_chars_mono(ps: Seq<Seq<char>>, i: int, j: int)
    requires
        0 <= i <= j,
    ensures
        0 <= pieces_chars(ps, i) <= pieces_chars(ps, j),
    decreases j,
{
    if i == j {
        if i > 0 {
            lemma_pieces_chars_mono(ps, i - 1, i - 1);
        }
    } else {
        lemma_pieces_chars_mono(ps, i, j - 1);
    }
}

/// The first `i` pieces flatten to the prefix of the flattened whole that
/// ends at their character count.
pub proof fn lemma_pieces_prefix(ps: Seq<Seq<char>>, i: int)
    requires
        0 <= i <= ps.len(),
    ensures
        0 <= pieces_chars(ps, i) <= ps.flatten().len(),
        ps.take(i).flatten() == ps.flatten().subrange(0, pieces_chars(ps, i)),
        i == ps.len() ==> pieces_chars(ps, i) == ps.flatten().len(),
    decreases i,
{
    assert(ps =~= ps.take(i) + ps.skip(i));
    vstd::seq_lib::lemma_flatten_concat(ps.take(i), ps.skip(i));
    if i == 0 {
        assert(ps.take(0) =~= Seq::<Seq<char>>::empty());
        assert(ps.take(0).flatten() =~= ps.flatten().subrange(0, 0));
    } else {
        lemma_pieces_prefix(ps, i - 1);
        assert(ps.take(i) =~= ps.take(i - 1).push(ps[i - 1]));
        ps.take(i - 1).lemma_flatten_push(ps[i - 1]);
        assert(ps.take(i).flatten() =~= ps.flatten().subrange(0, pieces_chars(ps, i)));
    }
}

/// Piece `i` sits at its character interval inside the flattened whole.
pub proof fn lemma_piece_at(ps: Seq<Seq<char>>, i: int)
    requires
        0 <= i < ps.len(),
    ensures
        0 <= pieces_chars(ps, i) <= pieces_chars(ps, i + 1) <= ps.flatten().len(),
        ps.flatten().subrange(pieces_chars(ps, i), pieces_chars(ps, i + 1)) == ps[i],
{
    lemma_pieces_prefix(ps, i);
    lemma_pieces_prefix(ps, i + 1);
    assert(ps.take(i + 1) =~= ps.take(i).push(ps[i]));
    ps.take(i).lemma_flatten_push(ps[i]);
    assert(ps.flatten().subrange(0, pieces_chars(ps, i + 1)) == ps.take(i).flatten() + ps[i]);
    assert forall|k: int| 0 <= k < ps[i].len() implies ps.flatten()[pieces_chars(ps, i) + k]
        == ps[i][k] by {
        assert(ps.flatten()[pieces_chars(ps, i) + k] == ps.flatten().subrange(
            0,
            pieces_chars(ps, i + 1),
        )[pieces_chars(ps, i) + k]);
    }
    assert(ps.flatten().subrange(pieces_chars(ps, i), pieces_chars(ps, i + 1)) =~= ps[i]);
}

/// A grapheme cluster and its display width under the pipeline's measure.
#[derive(Copy, Clone, Debug)]
pub struct GraphemeWidth<'a> {
    /// The grapheme cluster, borrowed from the input text.
    pub grapheme: &'a str,

    /// The measured display width of the cluster.
    pub display_width: u32,
}

/// The bare character sequences of a run of annotated units.
pub open spec fn unit_seqs(units: Seq<GraphemeWidth<'_>>) -> Seq<Seq<char>> {
    units.map_values(|u: GraphemeWidth<'_>| u.grapheme@)
}

/// True when `units` is exactly the annotated grapheme decomposition of
/// `text` under measure `m`.
pub open spec fn units_annotate<M: Measure>(m: M, units: Seq<GraphemeWidth<'_>>, text: Seq<char>) -> bool {
    &&& unit_seqs(units) == grapheme_pieces(text)
    &&& unit_seqs(units).flatten() == text
    &&& forall|i: int| 0 <= i < units.len() ==> (#[trigger] units[i].grapheme@).len() > 0
    &&& forall|i: int|
        0 <= i < units.len() ==> (#[trigger] units[i]).display_width == width_of(
            m,
            units[i].grapheme@,
        )
}

/// The saturating sum of the display widths of units `i` up to `j`.
pub open spec fn units_width(units: Seq<GraphemeWidth<'_>>, i: int, j: int) -> u32
    decreases j - i,
{
    if j <= i {
        0
    } else {
        sat_add(units_width(units, i, j - 1), units[j - 1].display_width)
    }
}

/// Summing annotated unit widths gives the measured width of the text the
/// units cover.
pub proof fn lemma_units_width<M: Measure>(
    m: M,
    units: Seq<GraphemeWidth<'_>>,
    text: Seq<char>,
    i: int,
    j: int,
)
    requires
        units_annotate(m, units, text),
        0 <= i <= j <= units.len(),
    ensures
        0 <= pieces_chars(unit_seqs(units), i) <= pieces_chars(unit_seqs(units), j) <= text.len(),
        units_width(units, i, j) == width_of(
            m,
            text.subrange(pieces_chars(unit_seqs(units), i), pieces_chars(unit_seqs(units), j)),
        ),
    decreases j - i,
{
    let ps = unit_seqs(units);
    let ci = pieces_chars(ps, i);
    let cj = pieces_chars(ps, j);
    lemma_pieces_prefix(ps, i);
    lemma_pieces_prefix(ps, j);
    lemma_pieces_chars_mono(ps, i, j);
    if j == i {
        assert(text.subrange(ci, ci) =~= Seq::<char>::empty());
    } else {
        lemma_units_width(m, units, text, i, j - 1);
        let cm = pieces_chars(ps, j - 1);
        lemma_piece_at(ps, j - 1);
        assert(ps[j - 1] == units[j - 1].grapheme@);
        assert(text.subrange(ci, cj) =~= text.subrange(ci, cm) + text.subrange(cm, cj));
        lemma_width_of_concat(m, text.subrange(ci, cm), text.subrange(cm, cj));
    }
}

/// Annotates `text`: one entry per grapheme cluster, in text order, each
/// carrying its measured display width.
pub fn with_grapheme_width<'a, M: Measure>(text: &'a str, measure: &M) -> (r: Vec<
    GraphemeWidth<'a>,
>)
    ensures
        units_annotate(*measure, r@, text@),
{
    let pieces = split_graphemes(text);
    let mut r: Vec<GraphemeWidth<'a>> = Vec::new();
    let n = pieces.len();
    let mut i: usize = 0;
    while i < n
        invariant
            i <= n,
            n == pieces@.len(),
            pieces@.map_values(|g: &'a str| g@) == grapheme_pieces(text@),
            r@.len() == i,
            forall|j: int| 0 <= j < i ==> (#[trigger] r@[j]).grapheme == pieces@[j],
            forall|j: int|
                0 <= j < i ==> (#[trigger] r@[j]).display_width == width_of(
                    *measure,
                    r@[j].grapheme@,
                ),
        decreases n - i,
    {
        let g = pieces[i];
        let w = measure_str(measure, g);
        r.push(GraphemeWidth { grapheme: g, display_width: w });
        i = i + 1;
    }
    proof {
        assert(unit_seqs(r@) =~= pieces@.map_values(|g: &'a str| g@));
    }
    r
}

} // verus!
