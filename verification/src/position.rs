//! Walks the line-broken token stream character by character, emitting
//! each character's line and horizontal offset.

use vstd::prelude::*;

use crate::line_break::LineBreakIterator;
use crate::measure::{sat_add, sat_add_u32, Measure};
use crate::partial_tokens::PartialTokensIterator;
use crate::token::{Kind, TokenKind};
use crate::whitespace::{elidable_range, lemma_annotate_nonempty, lemma_elidable_concat};

verus! {

/// The position of a char, if known.
#[derive(Copy, Clone, PartialEq, Debug)]
pub enum CharPosition {
    /// The position of `char` is known.
    Known(Position),
    /// The position of `char` is not known because the measure did not know
    /// its size.
    Unknown(char),
}

/// A `char`s position in lines of text
#[derive(Copy, Clone, PartialEq, Eq, Structural, Debug)]
pub struct Position {
    /// The `char` for the font glyph
    pub ch: char,

    /// The line that this char is on
    pub line: u32,

    /// The horizontal offset in the same units as the measure
    pub offset: u32,
}

/// The character a position entry reports, known or not.
pub open spec fn position_char(cp: CharPosition) -> char {
    match cp {
        CharPosition::Known(p) => p.ch,
        CharPosition::Unknown(c) => c,
    }
}

/// One witness per position: entry `k` reports the character of `text` at
/// index `idx[k]`; the indices run strictly left to right, and whatever
/// falls between them (and before the first and after the last) lies in
/// droppable white-space or line-terminator units. So every character of
/// the text is reported exactly once, in order, except elidable ones.
pub open spec fn positions_cover(text: Seq<char>, cps: Seq<CharPosition>, idx: Seq<int>) -> bool {
    positions_prefix_ok(text, cps, idx, text.len() as int)
}

/// As [`positions_cover`], but the text is only consumed up to mark `mk`:
/// the running invariant while the pipeline is still emitting.
pub open spec fn positions_prefix_ok(
    text: Seq<char>,
    cps: Seq<CharPosition>,
    idx: Seq<int>,
    mk: int,
) -> bool {
    &&& idx.len() == cps.len()
    &&& forall|k: int| 0 <= k < idx.len() ==> 0 <= #[trigger] idx[k] < text.len()
    &&& forall|k: int| 0 <= k < idx.len() ==> position_char(cps[k]) == text[#[trigger] idx[k]]
    &&& forall|k: int|
        0 <= k < idx.len() - 1 ==> #[trigger] idx[k] < idx[k + 1] && elidable_range(
            text,
            idx[k] + 1,
            idx[k + 1],
        )
    &&& if idx.len() == 0 {
        elidable_range(text, 0, mk)
    } else {
        idx[idx.len() - 1] < mk && elidable_range(text, idx[idx.len() - 1] + 1, mk)
    }
    &&& 0 <= mk <= text.len()
}

/// The positions law, for every input text: some index witness makes
/// [`positions_cover`] true of the emitted positions.
pub open spec fn positions_span(text: Seq<char>, cps: Seq<CharPosition>) -> bool {
    exists|idx: Seq<int>| #[trigger] positions_cover(text, cps, idx)
}

/// Line indices never decrease along the emitted positions.
pub open spec fn lines_monotone(cps: Seq<CharPosition>) -> bool {
    forall|k1: int, k2: int|
        0 <= k1 <= k2 < cps.len() ==> ((#[trigger] cps[k1]) matches CharPosition::Known(p1)
            ==> ((#[trigger] cps[k2]) matches CharPosition::Known(p2) ==> p1.line <= p2.line))
}

/// One emitted position, as a function of the walker's state: a pending
/// character comes out with the current line and offset (its measured
/// width moving the offset, an unknown width leaving it alone); otherwise
/// tokens are pulled — newlines advance the line counter and reset the
/// offset, Required and Optional tokens queue their characters — until a
/// character comes out or the stream ends. The state is the line
/// breaker's state plus the pending character range, the line counter and
/// the offset; the outer `None` means the fuel ran out first.
pub open spec fn pos_step<'a, M: Measure>(
    tokens: PartialTokensIterator<'a, M>,
    max_width: u32,
    wr: u32,
    prev: Option<Kind>,
    force: bool,
    chars: Option<(usize, usize)>,
    line: u32,
    offset: u32,
    fuel: nat,
) -> Option<
    (
        Option<CharPosition>,
        (PartialTokensIterator<'a, M>, u32, Option<Kind>, bool, Option<(usize, usize)>, u32, u32),
    ),
>
    decreases fuel,
{
    if fuel == 0 {
        None
    } else {
        match chars {
            Some((c, e)) => {
                if c < e {
                    let ch = tokens.text_view()[c as int];
                    match tokens.measure_spec().char_spec(ch) {
                        Some(w) => Some(
                            (
                                Some(CharPosition::Known(Position { ch, line, offset })),
                                (
                                    tokens,
                                    wr,
                                    prev,
                                    force,
                                    Some(((c + 1) as usize, e)),
                                    line,
                                    sat_add(offset, w as u32),
                                ),
                            ),
                        ),
                        None => Some(
                            (
                                Some(CharPosition::Unknown(ch)),
                                (tokens, wr, prev, force, Some(((c + 1) as usize, e)), line, offset),
                            ),
                        ),
                    }
                } else {
                    pos_step(
                        tokens,
                        max_width,
                        wr,
                        prev,
                        force,
                        None,
                        line,
                        offset,
                        (fuel - 1) as nat,
                    )
                }
            },
            None => {
                match LineBreakIterator::lb_step(
                    tokens,
                    max_width,
                    wr,
                    prev,
                    force,
                    (tokens.text_view().len() + 2) as nat,
                ) {
                    None => None,
                    Some((r, t2, wr2, prev2, force2)) => match r {
                        None => Some((None, (t2, wr2, prev2, force2, None, line, offset))),
                        Some(tk) => match tk {
                            TokenKind::Newline(p) => pos_step(
                                t2,
                                max_width,
                                wr2,
                                prev2,
                                force2,
                                None,
                                sat_add(line, 1),
                                0,
                                (fuel - 1) as nat,
                            ),
                            TokenKind::Required(t) => pos_step(
                                t2,
                                max_width,
                                wr2,
                                prev2,
                                force2,
                                Some((t.start, t.end)),
                                line,
                                offset,
                                (fuel - 1) as nat,
                            ),
                            TokenKind::Optional(t) => pos_step(
                                t2,
                                max_width,
                                wr2,
                                prev2,
                                force2,
                                Some((t.start, t.end)),
                                line,
                                offset,
                                (fuel - 1) as nat,
                            ),
                        },
                    },
                }
            },
        }
    }
}

/// Every emitted position of a whole run, as a function of the walker's
/// state: the entries [`pos_step`] yields, first to last. `None` means
/// the fuel ran out first (one more than the characters left always
/// suffices).
pub open spec fn positions_run<'a, M: Measure>(
    tokens: PartialTokensIterator<'a, M>,
    max_width: u32,
    wr: u32,
    prev: Option<Kind>,
    force: bool,
    chars: Option<(usize, usize)>,
    line: u32,
    offset: u32,
    fuel: nat,
) -> Option<Seq<CharPosition>>
    decreases fuel,
{
    if fuel == 0 {
        None
    } else {
        match pos_step(
            tokens,
            max_width,
            wr,
            prev,
            force,
            chars,
            line,
            offset,
            (8 * tokens.text_view().len() + 9) as nat,
        ) {
            None => None,
            Some((cp, (t2, wr2, prev2, force2, ch2, l2, o2))) => match cp {
                None => Some(Seq::empty()),
                Some(p) => match positions_run(
                    t2,
                    max_width,
                    wr2,
                    prev2,
                    force2,
                    ch2,
                    l2,
                    o2,
                    (fuel - 1) as nat,
                ) {
                    None => None,
                    Some(rest) => Some(seq![p] + rest),
                },
            },
        }
    }
}

/// Provides per-character positions of the wrapped text.
pub struct PositionIterator<'a, M: Measure> {
    chars: Option<(usize, usize)>,
    display_offset: u32,
    line: u32,
    measure: &'a M,
    text: &'a str,
    tokens: LineBreakIterator<'a, M>,
}

impl<'a, M: Measure> LineBreakIterator<'a, M> {
    /// Walks this line-broken token stream as per-character positions.
    pub fn positions(self, text: &'a str, measure: &'a M) -> (r: PositionIterator<'a, M>)
        requires
            self.wf(),
            text@ == self.text_view(),
            *measure == self.measure_spec(),
        ensures
            r.wf(),
            r.tokens_spec() == self,
            r.text_view() == text@,
            r.line_spec() == 0,
            r.offset_spec() == 0,
            r.chars_spec() is None,
    {
        PositionIterator {
            chars: None,
            display_offset: 0,
            line: 0,
            measure,
            text,
            tokens: self,
        }
    }
}

impl<'a, M: Measure> PositionIterator<'a, M> {
    /// The line-broken token stream this walker consumes.
    pub closed spec fn tokens_spec(self) -> LineBreakIterator<'a, M> {
        self.tokens
    }

    /// The text being walked.
    pub closed spec fn text_view(self) -> Seq<char> {
        self.text@
    }

    /// The measure characters are measured against.
    pub closed spec fn measure_spec(self) -> M {
        *self.measure
    }

    /// The characters of the current token not yet emitted, as a cursor
    /// and an end index.
    pub closed spec fn chars_spec(self) -> Option<(usize, usize)> {
        self.chars
    }

    /// The line the next character lands on.
    pub closed spec fn line_spec(self) -> u32 {
        self.line
    }

    /// The horizontal offset the next character of this line lands at.
    pub closed spec fn offset_spec(self) -> u32 {
        self.display_offset
    }

    /// Internal consistency: the line breaker is sound over this text and
    /// measure, and the pending character range lies inside the text.
    pub open spec fn wf(self) -> bool {
        &&& self.tokens_spec().wf()
        &&& self.text_view() == self.tokens_spec().text_view()
        &&& self.measure_spec() == self.tokens_spec().measure_spec()
        &&& match self.chars_spec() {
            None => true,
            Some((c, e)) => c <= e <= self.text_view().len() && e as int
                == self.tokens_spec().frontier(),
        }
    }

    /// Characters of the current token still to emit.
    pub open spec fn chars_rem(self) -> int {
        match self.chars_spec() {
            None => 0int,
            Some((c, e)) => e - c,
        }
    }

    /// How many positions this walker can still account for: positions
    /// come one per character of an emitted token, so the count of
    /// positions handed out never passes this bound.
    pub open spec fn budget(self) -> int {
        self.tokens_spec().frontier() - self.chars_rem()
    }

    /// The character index up to which positions are decided: characters
    /// before the mark are reported already or lie in dropped ranges.
    pub open spec fn mark(self) -> int {
        match self.chars_spec() {
            Some((c, e)) => c as int,
            None => self.tokens_spec().frontier(),
        }
    }

    /// Emits the position of the next character.
    ///
    /// Newline tokens advance the line counter and reset the offset;
    /// characters of Required and Optional tokens come out one by one,
    /// each advancing the offset by its measured width — or tagged
    /// `Unknown` and leaving the offset alone where the measure has no
    /// width for it.
    pub fn next(&mut self) -> (r: Option<CharPosition>)
        requires
            old(self).wf(),
        ensures
            final(self).wf(),
            final(self).text_view() == old(self).text_view(),
            final(self).measure_spec() == old(self).measure_spec(),
            final(self).tokens_spec().rank() <= old(self).tokens_spec().rank(),
            final(self).tokens_spec().max_width_spec() == old(self).tokens_spec().max_width_spec(),
            0 <= old(self).budget() <= final(self).budget() <= final(self).text_view().len(),
            r is Some ==> final(self).budget() >= old(self).budget() + 1,
            final(self).line_spec() >= old(self).line_spec(),
            // the pull is a function of the state alone
            ({
                let lb = old(self).tokens_spec();
                match pos_step(
                    lb.tokens_spec(),
                    lb.max_width_spec(),
                    lb.width_remaining_spec(),
                    lb.prev_spec(),
                    lb.force_spec(),
                    old(self).chars_spec(),
                    old(self).line_spec(),
                    old(self).offset_spec(),
                    (8 * old(self).text_view().len() + 9) as nat,
                ) {
                    None => false,
                    Some((cp_r, post)) => {
                        &&& cp_r == r
                        &&& post == (
                            final(self).tokens_spec().tokens_spec(),
                            final(self).tokens_spec().width_remaining_spec(),
                            final(self).tokens_spec().prev_spec(),
                            final(self).tokens_spec().force_spec(),
                            final(self).chars_spec(),
                            final(self).line_spec(),
                            final(self).offset_spec(),
                        )
                    },
                }
            }),
            match r {
                None => {
                    &&& final(self).tokens_spec().exhausted()
                    &&& final(self).chars_spec() is None
                    &&& elidable_range(
                        old(self).text_view(),
                        old(self).mark(),
                        old(self).text_view().len() as int,
                    )
                },
                Some(cp) => {
                    &&& final(self).tokens_spec().rank() < old(self).tokens_spec().rank() || (
                    final(self).tokens_spec().rank() == old(self).tokens_spec().rank() && final(self).chars_rem() < old(self).chars_rem())
                    &&& match final(self).chars_spec() {
                        Some((c1, e)) => {
                            &&& 0 < c1 <= e <= final(self).text_view().len()
                            &&& {
                                let ch = final(self).text_view()[c1 - 1];
                                match cp {
                                    CharPosition::Known(p) => {
                                        &&& p.ch == ch
                                        &&& final(self).measure_spec().char_spec(ch) is Some
                                        &&& p.line == final(self).line_spec()
                                        &&& final(self).offset_spec() == sat_add(
                                            p.offset,
                                            final(self).measure_spec().char_spec(
                                                ch,
                                            ).unwrap() as u32,
                                        )
                                    },
                                    CharPosition::Unknown(chx) => {
                                        &&& chx == ch
                                        &&& final(self).measure_spec().char_spec(ch) is None
                                    },
                                }
                            }
                        },
                        None => false,
                    }
                    &&& (old(self).chars_spec() matches Some((c0, e0)) ==> (c0 < e0 ==> final(self).chars_spec() == Some((((c0 + 1) as usize), e0)) && final(self).line_spec()
                        == old(self).line_spec()))
                    &&& old(self).mark() <= final(self).mark() - 1
                    &&& elidable_range(
                        old(self).text_view(),
                        old(self).mark(),
                        final(self).mark() - 1,
                    )
                },
            },
    {
        let ghost pfuel0: nat = (8 * self.text@.len() + 9) as nat;
        let ghost mut pfuel: nat = pfuel0;
        loop
            invariant
                self.tokens.wf(),
                self.text@ == self.tokens.text_view(),
                *self.measure == self.tokens.measure_spec(),
                self.text@ == old(self).text_view(),
                *self.measure == old(self).measure_spec(),
                match self.chars {
                    None => true,
                    Some((c, e)) => c <= e <= self.text@.len(),
                },
                self.tokens.rank() <= old(self).tokens_spec().rank(),
                self.tokens.max_width_spec() == old(self).tokens_spec().max_width_spec(),
                self.tokens.rank() == old(self).tokens_spec().rank() ==> self.chars_rem() <= old(self).chars_rem(),
                match self.chars {
                    None => true,
                    Some((c, e)) => e <= self.tokens.frontier(),
                },
                0 <= old(self).budget() <= self.budget() <= self.text@.len(),
                (old(self).chars_spec() matches Some((c0, e0)) ==> (c0 < e0 ==> self.chars == old(self).chars_spec() && self.line == old(self).line_spec())),
                match self.chars {
                    None => true,
                    Some((c, e)) => e as int == self.tokens.frontier(),
                },
                old(self).mark() <= self.mark() <= self.text@.len(),
                elidable_range(self.text@, old(self).mark(), self.mark()),
                self.line >= old(self).line_spec(),
                pfuel0 == (8 * self.text@.len() + 9) as nat,
                pfuel >= 2 * self.tokens.rank() + 2,
                pos_step(
                    old(self).tokens_spec().tokens_spec(),
                    old(self).tokens_spec().max_width_spec(),
                    old(self).tokens_spec().width_remaining_spec(),
                    old(self).tokens_spec().prev_spec(),
                    old(self).tokens_spec().force_spec(),
                    old(self).chars_spec(),
                    old(self).line_spec(),
                    old(self).offset_spec(),
                    pfuel0,
                ) == pos_step(
                    self.tokens.tokens_spec(),
                    self.tokens.max_width_spec(),
                    self.tokens.width_remaining_spec(),
                    self.tokens.prev_spec(),
                    self.tokens.force_spec(),
                    self.chars,
                    self.line,
                    self.display_offset,
                    pfuel,
                ),
            decreases self.tokens.rank(),
        {
            match self.chars {
                Some((cur, end)) => {
                    if cur < end {
                        // There is a char! Measure it and create the Position
                        let ch = self.text.get_char(cur);
                        let offset = self.display_offset;
                        self.chars = Some((cur + 1, end));
                        // add this glyph's width to the display_offset
                        let next_item = match self.measure.char(ch) {
                            Some(char_width) => {
                                self.display_offset = sat_add_u32(
                                    self.display_offset,
                                    char_width as u32,
                                );
                                CharPosition::Known(Position { ch, line: self.line, offset })
                            },
                            None => CharPosition::Unknown(ch),
                        };
                        return Some(next_item);
                    }
                    // no chars left in this token; pull the next one below
                    self.chars = None;
                    proof {
                        assert(pos_step(
                            self.tokens.tokens_spec(),
                            self.tokens.max_width_spec(),
                            self.tokens.width_remaining_spec(),
                            self.tokens.prev_spec(),
                            self.tokens.force_spec(),
                            Some((cur, end)),
                            self.line,
                            self.display_offset,
                            pfuel,
                        ) == pos_step(
                            self.tokens.tokens_spec(),
                            self.tokens.max_width_spec(),
                            self.tokens.width_remaining_spec(),
                            self.tokens.prev_spec(),
                            self.tokens.force_spec(),
                            None,
                            self.line,
                            self.display_offset,
                            (pfuel - 1) as nat,
                        ));
                        pfuel = (pfuel - 1) as nat;
                    }
                },
                None => {},
            }
            let ghost mark_pre = self.mark();
            let ghost pre = self.tokens;
            let ghost line_pre = self.line;
            let ghost off_pre = self.display_offset;
            proof {
                lemma_annotate_nonempty(
                    *self.measure,
                    pre.tokens_spec().tokens_spec().units(),
                    self.text@,
                );
                assert(LineBreakIterator::lb_step(
                    pre.tokens_spec(),
                    pre.max_width_spec(),
                    pre.width_remaining_spec(),
                    pre.prev_spec(),
                    pre.force_spec(),
                    (pre.tokens_spec().text_view().len() + 2) as nat,
                ) == pre.lb_next_spec());
            }
            match self.tokens.next() {
                Some(TokenKind::Newline(nl)) => {
                    proof {
                        match nl {
                            Some(t) => {
                                lemma_elidable_concat(
                                    self.text@,
                                    pre.frontier(),
                                    t.start as int,
                                    t.end as int,
                                );
                            },
                            None => {},
                        }
                        lemma_elidable_concat(
                            self.text@,
                            old(self).mark(),
                            mark_pre,
                            self.tokens.frontier(),
                        );
                    }
                    // Increment the line, reset the offset, and go again
                    self.line = sat_add_u32(self.line, 1);
                    self.display_offset = 0;
                    proof {
                        assert(pos_step(
                            pre.tokens_spec(),
                            pre.max_width_spec(),
                            pre.width_remaining_spec(),
                            pre.prev_spec(),
                            pre.force_spec(),
                            None,
                            line_pre,
                            off_pre,
                            pfuel,
                        ) == pos_step(
                            self.tokens.tokens_spec(),
                            self.tokens.max_width_spec(),
                            self.tokens.width_remaining_spec(),
                            self.tokens.prev_spec(),
                            self.tokens.force_spec(),
                            None,
                            sat_add(line_pre, 1),
                            0,
                            (pfuel - 1) as nat,
                        ));
                        pfuel = (pfuel - 1) as nat;
                    }
                },
                Some(TokenKind::Optional(token)) | Some(TokenKind::Required(token)) => {
                    proof {
                        lemma_elidable_concat(
                            self.text@,
                            old(self).mark(),
                            mark_pre,
                            token.start as int,
                        );
                    }
                    // There is another token, prep its chars
                    self.chars = Some((token.start, token.end));
                    proof {
                        assert(pos_step(
                            pre.tokens_spec(),
                            pre.max_width_spec(),
                            pre.width_remaining_spec(),
                            pre.prev_spec(),
                            pre.force_spec(),
                            None,
                            line_pre,
                            off_pre,
                            pfuel,
                        ) == pos_step(
                            self.tokens.tokens_spec(),
                            self.tokens.max_width_spec(),
                            self.tokens.width_remaining_spec(),
                            self.tokens.prev_spec(),
                            self.tokens.force_spec(),
                            Some((token.start, token.end)),
                            line_pre,
                            off_pre,
                            (pfuel - 1) as nat,
                        ));
                        pfuel = (pfuel - 1) as nat;
                    }
                },
                None => {
                    proof {
                        lemma_elidable_concat(
                            self.text@,
                            old(self).mark(),
                            mark_pre,
                            self.text@.len() as int,
                        );
                    }
                    // End the iteration, no more tokens
                    return None;
                },
            }
        }
    }

    /// Collects every remaining position.
    ///
    /// The collected entries are exactly what [`positions_run`] computes
    /// from this walker's state; they report the text's characters in
    /// order, one each, with only line-terminator and edge-dropped
    /// white-space ranges left out ([`positions_span`]), and line indices
    /// never decrease along them.
    #[verifier::rlimit(60)]
    pub fn collect_positions(self) -> (r: Vec<CharPosition>)
        requires
            self.wf(),
            self.chars_spec() is None,
            self.mark() == 0,
        ensures
            r@.len() <= self.text_view().len(),
            positions_span(self.text_view(), r@),
            lines_monotone(r@),
            match positions_run(
                self.tokens_spec().tokens_spec(),
                self.tokens_spec().max_width_spec(),
                self.tokens_spec().width_remaining_spec(),
                self.tokens_spec().prev_spec(),
                self.tokens_spec().force_spec(),
                self.chars_spec(),
                self.line_spec(),
                self.offset_spec(),
                (self.text_view().len() + 2) as nat,
            ) {
                None => false,
                Some(cps) => r@ == cps,
            },
    {
        let ghost entry = self;
        let mut it = self;
        let ghost textv = it.text@;
        let ghost qfuel0: nat = (textv.len() + 2) as nat;
        let ghost mut qfuel: nat = qfuel0;

        let mut out: Vec<CharPosition> = Vec::new();
        let ghost mut idx: Seq<int> = Seq::empty();
        loop
            invariant
                entry == self,
                it.wf(),
                it.text_view() == textv,
                textv == entry.text_view(),
                out@.len() <= it.budget(),
                0 <= it.budget() <= textv.len(),
                positions_prefix_ok(textv, out@, idx, it.mark()),
                lines_monotone(out@),
                forall|k: int|
                    0 <= k < out@.len() ==> ((#[trigger] out@[k]) matches CharPosition::Known(p)
                        ==> p.line <= it.line_spec()),
                qfuel0 == (textv.len() + 2) as nat,
                qfuel >= textv.len() - it.budget() + 1,
                positions_run(
                    entry.tokens_spec().tokens_spec(),
                    entry.tokens_spec().max_width_spec(),
                    entry.tokens_spec().width_remaining_spec(),
                    entry.tokens_spec().prev_spec(),
                    entry.tokens_spec().force_spec(),
                    entry.chars_spec(),
                    entry.line_spec(),
                    entry.offset_spec(),
                    qfuel0,
                ) == (match positions_run(
                    it.tokens_spec().tokens_spec(),
                    it.tokens_spec().max_width_spec(),
                    it.tokens_spec().width_remaining_spec(),
                    it.tokens_spec().prev_spec(),
                    it.tokens_spec().force_spec(),
                    it.chars_spec(),
                    it.line_spec(),
                    it.offset_spec(),
                    qfuel,
                ) {
                    None => None,
                    Some(rest) => Some(out@ + rest),
                }),
            decreases it.tokens_spec().rank(), it.chars_rem(),
        {
            let ghost pre = it;
            match it.next() {
                Some(position) => {
                    out.push(position);
                    proof {
                        let ci = it.mark() - 1;
                        lemma_annotate_nonempty(
                            pre.measure_spec(),
                            pre.tokens_spec().tokens_spec().tokens_spec().units(),
                            textv,
                        );
                        if idx.len() > 0 {
                            lemma_elidable_concat(textv, idx[idx.len() - 1] + 1, pre.mark(), ci);
                        } else {
                            lemma_elidable_concat(textv, 0, pre.mark(), ci);
                        }
                        idx = idx.push(ci);
                        assert(position_char(position) == textv[ci]);
                        assert(positions_prefix_ok(textv, out@, idx, it.mark()));
                        assert(lines_monotone(out@));
                        // the exact entry this position came from
                        let rest_opt = positions_run(
                            it.tokens_spec().tokens_spec(),
                            it.tokens_spec().max_width_spec(),
                            it.tokens_spec().width_remaining_spec(),
                            it.tokens_spec().prev_spec(),
                            it.tokens_spec().force_spec(),
                            it.chars_spec(),
                            it.line_spec(),
                            it.offset_spec(),
                            (qfuel - 1) as nat,
                        );
                        assert(positions_run(
                            pre.tokens_spec().tokens_spec(),
                            pre.tokens_spec().max_width_spec(),
                            pre.tokens_spec().width_remaining_spec(),
                            pre.tokens_spec().prev_spec(),
                            pre.tokens_spec().force_spec(),
                            pre.chars_spec(),
                            pre.line_spec(),
                            pre.offset_spec(),
                            qfuel,
                        ) == (match rest_opt {
                            None => None::<Seq<CharPosition>>,
                            Some(rest) => Some(seq![position] + rest),
                        }));
                        if rest_opt is Some {
                            let rest = rest_opt.unwrap();
                            assert(out@.drop_last() + (seq![position] + rest) =~= out@ + rest);
                        }
                        qfuel = (qfuel - 1) as nat;
                    }
                },
                None => {
                    proof {
                        lemma_annotate_nonempty(
                            pre.measure_spec(),
                            pre.tokens_spec().tokens_spec().tokens_spec().units(),
                            textv,
                        );
                        if idx.len() > 0 {
                            lemma_elidable_concat(
                                textv,
                                idx[idx.len() - 1] + 1,
                                pre.mark(),
                                textv.len() as int,
                            );
                        } else {
                            lemma_elidable_concat(textv, 0, pre.mark(), textv.len() as int);
                        }
                        assert(positions_cover(textv, out@, idx));
                        assert(out@ + Seq::<CharPosition>::empty() =~= out@);
                    }
                    return out;
                },
            }
        }
    }
}

} // verus!
