//! Groups annotated grapheme units into classified tokens: maximal runs of
//! like-classified units, except that every line terminator is its own
//! token.

use vstd::prelude::*;

use crate::grapheme_width::{
    grapheme_pieces, lemma_pieces_chars_mono, lemma_pieces_prefix, lemma_units_width, pieces_chars,
    unit_seqs, units_annotate, units_width, GraphemeWidth,
};
use crate::measure::{sat_add, sat_add_u32, width_of, Measure};
use crate::token::{Token, TokenKind};

verus! {

/// Whether `c` counts as white space, as `char::is_whitespace` decides it.
pub uninterp spec fn is_white(c: char) -> bool;

/// Relies on std's `char::is_whitespace`: true exactly for characters with
/// the Unicode `White_Space` property.
#[verifier::external_body]
fn char_is_whitespace(c: char) -> (r: bool)
    ensures
        r == is_white(c),
{
    c.is_whitespace()
}

/// The three classifications the tokenizer distinguishes.
#[derive(Copy, Clone, PartialEq, Eq, Structural, Debug)]
pub enum State {
    /// A line-terminator unit: `"\r\n"` or `"\n"`.
    Newline,
    /// A unit led by white space that does not terminate a line.
    WhiteSpace,
    /// Every other unit.
    Other,
}

/// The classification of one grapheme unit.
pub open spec fn class_of(g: Seq<char>) -> State {
    if g == seq!['\r', '\n'] || g == seq!['\n'] {
        State::Newline
    } else if g.len() > 0 && is_white(g[0]) {
        State::WhiteSpace
    } else {
        State::Other
    }
}

/// Classifies one grapheme unit, as [`class_of`] describes.
fn classify(g: &str) -> (r: State)
    ensures
        r == class_of(g@),
{
    let n = g.unicode_len();
    if n == 1 && g.get_char(0) == '\n' {
        proof {
            assert(g@ =~= seq!['\n']);
        }
        State::Newline
    } else if n == 2 && g.get_char(0) == '\r' && g.get_char(1) == '\n' {
        proof {
            assert(g@ =~= seq!['\r', '\n']);
        }
        State::Newline
    } else if n > 0 && char_is_whitespace(g.get_char(0)) {
        State::WhiteSpace
    } else {
        State::Other
    }
}

/// Where the run of `st`-classified units that starts at `i` ends: the
/// first index at or after `i` holding a unit of another classification.
pub open spec fn run_end(units: Seq<GraphemeWidth<'_>>, i: int, st: State) -> int
    decreases units.len() - i,
{
    if i < 0 || i >= units.len() {
        i
    } else if class_of(units[i].grapheme@) != st {
        i
    } else {
        run_end(units, i + 1, st)
    }
}

/// A run reaches no further than the end, and covers exactly the units
/// classified like its first one.
pub proof fn lemma_run_end(units: Seq<GraphemeWidth<'_>>, i: int, st: State)
    requires
        0 <= i <= units.len(),
    ensures
        i <= run_end(units, i, st) <= units.len(),
        forall|k: int|
            i <= k < run_end(units, i, st) ==> class_of(#[trigger] units[k].grapheme@) == st,
        run_end(units, i, st) == units.len() || class_of(
            units[run_end(units, i, st)].grapheme@,
        ) != st,
    decreases units.len() - i,
{
    if i < units.len() && class_of(units[i].grapheme@) == st {
        lemma_run_end(units, i + 1, st);
    }
}

/// The unit index where the token that starts at `upos` ends: a newline
/// token takes exactly one unit, any other token its whole run.
pub open spec fn ws_next_upos(units: Seq<GraphemeWidth<'_>>, upos: int) -> int {
    let st = class_of(units[upos].grapheme@);
    if st == State::Newline {
        upos + 1
    } else {
        run_end(units, upos, st)
    }
}

/// The token the tokenizer emits when it stands at unit `upos`.
pub open spec fn ws_token_spec(units: Seq<GraphemeWidth<'_>>, upos: int) -> TokenKind {
    let st = class_of(units[upos].grapheme@);
    let j = ws_next_upos(units, upos);
    let tok = Token {
        start: pieces_chars(unit_seqs(units), upos) as usize,
        end: pieces_chars(unit_seqs(units), j) as usize,
        display_width: units_width(units, upos, j),
    };
    match st {
        State::Newline => TokenKind::Newline(Some(tok)),
        State::WhiteSpace => TokenKind::Optional(tok),
        State::Other => TokenKind::Required(tok),
    }
}

/// What one pull from the tokenizer returns: the token at `upos`, or
/// `None` once every unit is consumed.
pub open spec fn ws_peek_spec(units: Seq<GraphemeWidth<'_>>, upos: int) -> Option<TokenKind> {
    if upos < units.len() {
        Some(ws_token_spec(units, upos))
    } else {
        None
    }
}

/// A character range that wrapping may silently drop: it is empty, or it
/// lies inside a run of grapheme clusters none of which is an ordinary
/// (`Other`-classified) unit — white space and line terminators only.
pub open spec fn elidable_range(text: Seq<char>, a: int, b: int) -> bool {
    ||| a == b
    ||| {
        let ps = grapheme_pieces(text);
        &&& a <= b
        &&& exists|k1: int, k2: int|
            0 <= k1 <= k2 <= ps.len() && pieces_chars(ps, k1) <= a && b <= pieces_chars(ps, k2)
                && (forall|k: int| k1 <= k < k2 ==> class_of(#[trigger] ps[k]) != State::Other)
    }
}

/// Any sub-range of an elidable range is elidable.
pub proof fn lemma_elidable_subrange(text: Seq<char>, a: int, b: int, a2: int, b2: int)
    requires
        elidable_range(text, a, b),
        a <= a2 <= b2 <= b,
    ensures
        elidable_range(text, a2, b2),
{
}

/// With no piece empty, character counts of piece prefixes grow strictly.
pub proof fn lemma_pieces_chars_strict(ps: Seq<Seq<char>>, i: int, j: int)
    requires
        0 <= i < j <= ps.len(),
        forall|k: int| 0 <= k < ps.len() ==> (#[trigger] ps[k]).len() > 0,
    ensures
        pieces_chars(ps, i) < pieces_chars(ps, j),
    decreases j - i,
{
    if i + 1 < j {
        lemma_pieces_chars_strict(ps, i, j - 1);
    }
}

/// Adjacent elidable ranges merge into one elidable range.
pub proof fn lemma_elidable_concat(text: Seq<char>, a: int, b: int, c: int)
    requires
        elidable_range(text, a, b),
        elidable_range(text, b, c),
        forall|k: int|
            0 <= k < grapheme_pieces(text).len() ==> (#[trigger] grapheme_pieces(text)[k]).len()
                > 0,
    ensures
        elidable_range(text, a, c),
{
    let ps = grapheme_pieces(text);
    if a == b || b == c {
    } else {
        let (k1, k2): (int, int) = choose|k1: int, k2: int|
            0 <= k1 <= k2 <= ps.len() && pieces_chars(ps, k1) <= a && b <= pieces_chars(ps, k2)
                && (forall|k: int| k1 <= k < k2 ==> class_of(#[trigger] ps[k]) != State::Other);
        let (k3, k4): (int, int) = choose|k3: int, k4: int|
            0 <= k3 <= k4 <= ps.len() && pieces_chars(ps, k3) <= b && c <= pieces_chars(ps, k4)
                && (forall|k: int| k3 <= k < k4 ==> class_of(#[trigger] ps[k]) != State::Other);
        // the two unit windows overlap at the joint `b`
        if k3 > k2 {
            lemma_pieces_chars_strict(ps, k2, k3);
            assert(false);
        }
        if k4 < k1 {
            lemma_pieces_chars_strict(ps, k4, k1);
            assert(false);
        }
        let kl = if k1 <= k3 {
            k1
        } else {
            k3
        };
        let kr = if k2 <= k4 {
            k4
        } else {
            k2
        };
        lemma_pieces_chars_mono(ps, kl, if k1 <= k3 {
            k3
        } else {
            k1
        });
        lemma_pieces_chars_mono(ps, if k2 <= k4 {
            k2
        } else {
            k4
        }, kr);
        assert forall|k: int| kl <= k < kr implies class_of(#[trigger] ps[k]) != State::Other by {
            assert(k1 <= k < k2 || k3 <= k < k4);
        }
        assert(pieces_chars(ps, kl) <= a && c <= pieces_chars(ps, kr));
    }
}

/// Under an annotated unit sequence, no grapheme piece of the text is
/// empty.
pub proof fn lemma_annotate_nonempty<M: Measure>(
    m: M,
    units: Seq<GraphemeWidth<'_>>,
    text: Seq<char>,
)
    requires
        units_annotate(m, units, text),
    ensures
        forall|k: int|
            0 <= k < grapheme_pieces(text).len() ==> (#[trigger] grapheme_pieces(text)[k]).len()
                > 0,
{
    assert forall|k: int| 0 <= k < grapheme_pieces(text).len() implies (#[trigger] grapheme_pieces(
        text,
    )[k]).len() > 0 by {
        assert(grapheme_pieces(text)[k] == unit_seqs(units)[k]);
        assert(unit_seqs(units)[k] == units[k].grapheme@);
    }
}

/// What the tokenizer's output token looks like: a non-empty character
/// range at the cursor, measured exactly, and elidable when it is not
/// Required.
pub proof fn lemma_ws_token_props<M: Measure>(
    m: M,
    units: Seq<GraphemeWidth<'_>>,
    text: Seq<char>,
    upos: int,
)
    requires
        units_annotate(m, units, text),
        text.len() <= usize::MAX,
        0 <= upos < units.len(),
    ensures
        ({
            let tk = ws_token_spec(units, upos);
            let t = tk.into_token_spec().unwrap();
            &&& tk.into_token_spec() is Some
            &&& t.start as int == pieces_chars(unit_seqs(units), upos)
            &&& t.end as int == pieces_chars(unit_seqs(units), ws_next_upos(units, upos))
            &&& t.start < t.end <= text.len()
            &&& t.display_width == width_of(m, text.subrange(t.start as int, t.end as int))
            &&& (tk is Optional || tk is Newline) ==> elidable_range(
                text,
                t.start as int,
                t.end as int,
            )
        }),
{
    let ps = unit_seqs(units);
    let st = class_of(units[upos].grapheme@);
    let j = ws_next_upos(units, upos);
    lemma_run_end(units, upos, st);
    if st != State::Newline {
        assert(run_end(units, upos, st) > upos);
    }
    assert(upos < j <= units.len());
    lemma_units_width(m, units, text, upos, j);
    lemma_pieces_chars_mono(ps, upos + 1, j);
    assert(pieces_chars(ps, upos + 1) == pieces_chars(ps, upos) + ps[upos].len());
    assert(ps[upos] == units[upos].grapheme@);
    lemma_pieces_prefix(ps, units.len() as int);
    if st == State::Newline {
        assert(forall|k: int| upos <= k < j ==> class_of(#[trigger] ps[k]) != State::Other);
    } else if st == State::WhiteSpace {
        assert forall|k: int| upos <= k < j implies class_of(#[trigger] ps[k])
            != State::Other by {
            assert(class_of(units[k].grapheme@) == st);
            assert(ps[k] == units[k].grapheme@);
        }
    }
}

/// Tokenizes an annotated unit sequence into classified tokens.
pub struct WhiteSpaceIterator<'a> {
    index: usize,
    grapheme_widths: Vec<GraphemeWidth<'a>>,
    upos: usize,
}

impl<'a> WhiteSpaceIterator<'a> {
    /// The annotated units this tokenizer walks.
    pub closed spec fn units(self) -> Seq<GraphemeWidth<'a>> {
        self.grapheme_widths@
    }

    /// How many units are consumed already.
    pub closed spec fn upos_spec(self) -> int {
        self.upos as int
    }

    /// The character index where the next token will start.
    pub closed spec fn index_spec(self) -> int {
        self.index as int
    }

    /// Internal consistency: the cursor sits at a unit boundary, the stored
    /// character index agrees with it, and the total character count fits
    /// the machine.
    pub open spec fn wf(self) -> bool {
        &&& 0 <= self.upos_spec() <= self.units().len()
        &&& self.index_spec() == pieces_chars(unit_seqs(self.units()), self.upos_spec())
        &&& pieces_chars(unit_seqs(self.units()), self.units().len() as int) <= usize::MAX
    }

    /// Creates a tokenizer over an annotated unit sequence.
    pub fn new(grapheme_widths: Vec<GraphemeWidth<'a>>) -> (r: Self)
        requires
            pieces_chars(unit_seqs(grapheme_widths@), grapheme_widths@.len() as int)
                <= usize::MAX,
        ensures
            r.units() == grapheme_widths@,
            r.upos_spec() == 0,
            r.index_spec() == 0,
            r.wf(),
    {
        Self { grapheme_widths, index: 0, upos: 0 }
    }

    /// One scan from the cursor: the token there, the unit index past it,
    /// and the character index past it.
    fn scan(&self) -> (r: Option<(TokenKind, usize, usize)>)
        requires
            self.wf(),
        ensures
            match r {
                None => self.upos_spec() == self.units().len(),
                Some((t, j, e)) => {
                    &&& self.upos_spec() < self.units().len()
                    &&& t == ws_token_spec(self.units(), self.upos_spec())
                    &&& j as int == ws_next_upos(self.units(), self.upos_spec())
                    &&& self.upos_spec() < j as int <= self.units().len()
                    &&& e as int == pieces_chars(unit_seqs(self.units()), j as int)
                },
            },
    {
        let ghost units = self.grapheme_widths@;
        let ghost ps = unit_seqs(units);
        let n = self.grapheme_widths.len();
        let u0 = self.upos;
        if u0 >= n {
            return None;
        }

        let st = classify(self.grapheme_widths[u0].grapheme);
        let start = self.index;
        let mut end = self.index;
        let mut total_width: u32 = 0;
        let mut j = u0;

        if matches!(st, State::Newline) {
            // Newlines are never grouped: one terminator, one token.
            let u = self.grapheme_widths[j];
            let glen = u.grapheme.unicode_len();
            proof {
                lemma_pieces_chars_mono(ps, j + 1, n as int);
                assert(ps[j as int] == units[j as int].grapheme@);
                assert(pieces_chars(ps, j + 1) == pieces_chars(ps, j as int)
                    + ps[j as int].len());
            }
            end = end + glen;
            total_width = u.display_width;
            j = j + 1;
            proof {
                assert(units_width(units, u0 as int, u0 + 1) == sat_add(
                    units_width(units, u0 as int, u0 as int),
                    units[u0 as int].display_width,
                ));
                assert(units_width(units, u0 as int, u0 as int) == 0);
            }
        } else {
            while j < n
                invariant
                    u0 <= j <= n,
                    u0 < n,
                    n == units.len(),
                    self.grapheme_widths@ == units,
                    ps == unit_seqs(units),
                    st == class_of(units[u0 as int].grapheme@),
                    st != State::Newline,
                    end == pieces_chars(ps, j as int),
                    pieces_chars(ps, n as int) <= usize::MAX,
                    total_width == units_width(units, u0 as int, j as int),
                    run_end(units, u0 as int, st) == run_end(units, j as int, st),
                ensures
                    u0 < j <= n,
                    j as int == run_end(units, u0 as int, st),
                    end as int == pieces_chars(ps, j as int),
                    total_width == units_width(units, u0 as int, j as int),
                decreases n - j,
            {
                let u = self.grapheme_widths[j];
                if classify(u.grapheme) != st {
                    break ;
                }
                let glen = u.grapheme.unicode_len();
                proof {
                    lemma_pieces_chars_mono(ps, j + 1, n as int);
                    assert(ps[j as int] == units[j as int].grapheme@);
                    assert(pieces_chars(ps, j + 1) == pieces_chars(ps, j as int)
                        + ps[j as int].len());
                }
                end = end + glen;
                total_width = sat_add_u32(total_width, u.display_width);
                j = j + 1;
            }
        }

        let token = Token { start, end, display_width: total_width };
        let kind = match st {
            State::Newline => TokenKind::Newline(Some(token)),
            State::WhiteSpace => TokenKind::Optional(token),
            State::Other => TokenKind::Required(token),
        };
        Some((kind, j, end))
    }

    /// The tokenizer after one emission: the cursor moves past the
    /// emitted token, everything else stays.
    pub closed spec fn advanced(self) -> Self {
        WhiteSpaceIterator {
            upos: ws_next_upos(self.units(), self.upos_spec()) as usize,
            index: pieces_chars(
                unit_seqs(self.units()),
                ws_next_upos(self.units(), self.upos_spec()),
            ) as usize,
            ..self
        }
    }

    /// Looks at the next token without consuming it.
    pub fn peek(&self) -> (r: Option<TokenKind>)
        requires
            self.wf(),
        ensures
            r == ws_peek_spec(self.units(), self.upos_spec()),
    {
        match self.scan() {
            Some((kind, _, _)) => Some(kind),
            None => None,
        }
    }

    /// Emits the next token and moves past it.
    pub fn next(&mut self) -> (r: Option<TokenKind>)
        requires
            old(self).wf(),
        ensures
            final(self).wf(),
            final(self).units() == old(self).units(),
            r == ws_peek_spec(old(self).units(), old(self).upos_spec()),
            final(self).upos_spec() == if old(self).upos_spec() < old(self).units().len() {
                ws_next_upos(old(self).units(), old(self).upos_spec())
            } else {
                old(self).upos_spec()
            },
            old(self).upos_spec() < old(self).units().len() ==> *final(self) == old(
                self,
            ).advanced(),
            old(self).upos_spec() >= old(self).units().len() ==> *final(self) == *old(self),
    {
        match self.scan() {
            Some((kind, j, e)) => {
                self.upos = j;
                self.index = e;
                Some(kind)
            },
            None => None,
        }
    }
}

} // verus!
