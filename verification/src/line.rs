//! Reduces the line-broken token stream to line slices of the original
//! text.

use vstd::prelude::*;

use crate::line_break::LineBreakIterator;
use crate::measure::{lemma_width_of_concat, width_of, Measure};
use crate::partial_tokens::PartialTokensIterator;
use crate::token::{atomic_head, Kind, Token, TokenKind};
use crate::whitespace::{elidable_range, lemma_annotate_nonempty, lemma_elidable_concat};

verus! {

/// The width condition one emitted line satisfies: it fits in
/// `max_width`, or all its width sits in one trailing atomic (single
/// grapheme) fragment that is wider than `max_width` on its own.
pub open spec fn line_width_ok<M: Measure>(
    m: M,
    text: Seq<char>,
    max_width: u32,
    a: int,
    b: int,
) -> bool {
    ||| width_of(m, text.subrange(a, b)) <= max_width
    ||| exists|s2: int|
        a <= s2 <= b && width_of(m, text.subrange(a, s2)) == 0 && atomic_head(text, s2, b)
            && width_of(m, text.subrange(s2, b)) > max_width
}

/// What one emitted line is: the slice `[a, b)` of the text, lying between
/// the frontiers before and after the pull, with nothing but droppable
/// ranges around it, and its width bounded as `line_width_ok` says.
pub open spec fn line_span<M: Measure>(
    m: M,
    text: Seq<char>,
    max_width: u32,
    f0: int,
    f1: int,
    s: Seq<char>,
    a: int,
    b: int,
) -> bool {
    &&& f0 <= a <= b <= f1 <= text.len()
    &&& s == text.subrange(a, b)
    &&& elidable_range(text, f0, a)
    &&& elidable_range(text, b, f1)
    &&& line_width_ok(m, text, max_width, a, b)
}

/// Closing a line: the collected range `[a, ek)` together with the gaps
/// around it forms one emitted line span.
proof fn lemma_close_line<M: Measure>(
    m: M,
    text: Seq<char>,
    maxw: u32,
    f0: int,
    a: int,
    ek: int,
    fpre: int,
    f1: int,
    over: bool,
    wr: u32,
    s: Seq<char>,
)
    requires
        0 <= f0 <= a <= ek <= fpre <= f1 <= text.len(),
        elidable_range(text, f0, a),
        elidable_range(text, ek, fpre),
        elidable_range(text, fpre, f1),
        forall|k: int|
            0 <= k < crate::grapheme_width::grapheme_pieces(text).len() ==> (
            #[trigger] crate::grapheme_width::grapheme_pieces(text)[k]).len() > 0,
        s == text.subrange(a, ek),
        over ==> line_width_ok(m, text, maxw, a, ek),
        !over ==> width_of(m, text.subrange(a, fpre)) == maxw - wr && wr <= maxw,
    ensures
        line_span(m, text, maxw, f0, f1, s, a, ek),
{
    lemma_elidable_concat(text, ek, fpre, f1);
    if !over {
        assert(text.subrange(a, fpre) =~= text.subrange(a, ek) + text.subrange(ek, fpre));
        lemma_width_of_concat(m, text.subrange(a, ek), text.subrange(ek, fpre));
    }
}

/// True when the slice `s` can stand as the line emitted between
/// frontiers `f0` and `f1`.
pub open spec fn emits_line<M: Measure>(
    m: M,
    text: Seq<char>,
    max_width: u32,
    f0: int,
    f1: int,
    s: Seq<char>,
) -> bool {
    exists|a: int, b: int| #[trigger] line_span(m, text, max_width, f0, f1, s, a, b)
}

/// One witness per line: `lines` are exactly the slices of `text` at the
/// ranges `rs`, the ranges run left to right without overlap, whatever
/// falls between them (and before the first and after the last) lies in
/// droppable white-space or line-terminator units, and every line obeys
/// the width bound (an atomic over-wide fragment alone may exceed it).
pub open spec fn lines_cover<M: Measure>(
    m: M,
    text: Seq<char>,
    max_width: u32,
    lines: Seq<Seq<char>>,
    rs: Seq<(int, int)>,
) -> bool {
    lines_prefix_ok(m, text, max_width, lines, rs, text.len() as int)
}

/// As [`lines_cover`], but the text is only consumed up to frontier `f`:
/// the running invariant while the pipeline is still emitting.
pub open spec fn lines_prefix_ok<M: Measure>(
    m: M,
    text: Seq<char>,
    max_width: u32,
    lines: Seq<Seq<char>>,
    rs: Seq<(int, int)>,
    f: int,
) -> bool {
    &&& rs.len() == lines.len()
    &&& forall|i: int| 0 <= i < rs.len() ==> 0 <= (#[trigger] rs[i]).0 <= rs[i].1 <= text.len()
    &&& forall|i: int|
        0 <= i < rs.len() ==> lines[i] == text.subrange((#[trigger] rs[i]).0, rs[i].1)
    &&& forall|i: int|
        0 <= i < rs.len() - 1 ==> (#[trigger] rs[i]).1 <= rs[i + 1].0 && elidable_range(
            text,
            rs[i].1,
            rs[i + 1].0,
        )
    &&& forall|i: int|
        0 <= i < rs.len() ==> line_width_ok(m, text, max_width, (#[trigger] rs[i]).0, rs[i].1)
    &&& if rs.len() == 0 {
        elidable_range(text, 0, f)
    } else {
        rs[rs.len() - 1].1 <= f && elidable_range(text, rs[rs.len() - 1].1, f)
    }
    &&& 0 <= f <= text.len()
}

/// The wrapping laws, for every input text and width: the emitted lines
/// partition the text in order — no character is duplicated or reordered,
/// and everything elided between lines is white space or a line
/// terminator — and no line exceeds the maximum width except a single
/// over-wide atomic fragment standing alone.
pub open spec fn wrap_covers<M: Measure>(
    m: M,
    text: Seq<char>,
    max_width: u32,
    lines: Seq<Seq<char>>,
) -> bool {
    exists|rs: Seq<(int, int)>| #[trigger] lines_cover(m, text, max_width, lines, rs)
}

/// One emitted line, as a function of the line breaker's state: pulls
/// run until a newline or the stream's end, collecting the line's start
/// and its kept end (a trailing Optional token is excluded). The result
/// is the line's character range (`(0, 0)` for a line with no token) or
/// `None` for the end of the stream, together with the state left behind;
/// the outer `None` means the fuel ran out first (one more than four
/// times the characters left always suffices).
pub open spec fn line_step<'a, M: Measure>(
    tokens: PartialTokensIterator<'a, M>,
    max_width: u32,
    wr: u32,
    prev: Option<Kind>,
    force: bool,
    start: Option<(int, int)>,
    fuel: nat,
) -> Option<(Option<(int, int)>, (PartialTokensIterator<'a, M>, u32, Option<Kind>, bool))>
    decreases fuel,
{
    if fuel == 0 {
        None
    } else {
        match LineBreakIterator::lb_step(
            tokens,
            max_width,
            wr,
            prev,
            force,
            (tokens.text_view().len() + 2) as nat,
        ) {
            None => None,
            Some((r, t2, wr2, prev2, force2)) => match r {
                None => Some(
                    (
                        match start {
                            None => None,
                            Some((a, ek)) => Some((a, ek)),
                        },
                        (t2, wr2, prev2, force2),
                    ),
                ),
                Some(tk) => match tk {
                    TokenKind::Newline(_) => Some(
                        (
                            match start {
                                None => Some((0int, 0int)),
                                Some((a, ek)) => Some((a, ek)),
                            },
                            (t2, wr2, prev2, force2),
                        ),
                    ),
                    TokenKind::Required(t) => line_step(
                        t2,
                        max_width,
                        wr2,
                        prev2,
                        force2,
                        Some(
                            (
                                match start {
                                    None => t.start as int,
                                    Some((a, ek)) => a,
                                },
                                t.end as int,
                            ),
                        ),
                        (fuel - 1) as nat,
                    ),
                    TokenKind::Optional(t) => line_step(
                        t2,
                        max_width,
                        wr2,
                        prev2,
                        force2,
                        Some(
                            (
                                match start {
                                    None => t.start as int,
                                    Some((a, ek)) => a,
                                },
                                match start {
                                    None => t.start as int,
                                    Some((a, ek)) => ek,
                                },
                            ),
                        ),
                        (fuel - 1) as nat,
                    ),
                },
            },
        }
    }
}

/// Every emitted line of a whole run, as a function of the line
/// breaker's starting state: the character ranges [`line_step`] yields,
/// first to last. `None` means the fuel ran out first (one more than the
/// line breaker's rank always suffices).
pub open spec fn lines_run<'a, M: Measure>(
    tokens: PartialTokensIterator<'a, M>,
    max_width: u32,
    wr: u32,
    prev: Option<Kind>,
    force: bool,
    fuel: nat,
) -> Option<Seq<(int, int)>>
    decreases fuel,
{
    if fuel == 0 {
        None
    } else {
        match line_step(
            tokens,
            max_width,
            wr,
            prev,
            force,
            None,
            (4 * tokens.text_view().len() + 5) as nat,
        ) {
            None => None,
            Some((lr, (t2, wr2, prev2, force2))) => match lr {
                None => Some(Seq::empty()),
                Some(ab) => match lines_run(t2, max_width, wr2, prev2, force2, (fuel - 1) as nat) {
                    None => None,
                    Some(rest) => Some(seq![ab] + rest),
                },
            },
        }
    }
}

/// Provides lines as `&str`
pub struct LineIterator<'a, M: Measure> {
    text: &'a str,
    tokens: LineBreakIterator<'a, M>,
}

impl<'a, M: Measure> LineBreakIterator<'a, M> {
    /// Assembles this line-broken token stream into line slices of `text`.
    pub fn lines(self, text: &'a str) -> (r: LineIterator<'a, M>)
        requires
            self.wf(),
            text@ == self.text_view(),
            self.width_remaining_spec() == self.max_width_spec(),
        ensures
            r.wf(),
            r.tokens_spec() == self,
            r.text_view() == text@,
    {
        LineIterator { text, tokens: self }
    }
}

impl<'a, M: Measure> LineIterator<'a, M> {
    /// The line-broken token stream this assembler consumes.
    pub closed spec fn tokens_spec(self) -> LineBreakIterator<'a, M> {
        self.tokens
    }

    /// The text the lines slice into.
    pub closed spec fn text_view(self) -> Seq<char> {
        self.text@
    }

    /// The measure the pipeline runs against.
    pub open spec fn measure_spec(self) -> M {
        self.tokens_spec().measure_spec()
    }

    /// The maximum display width of a line.
    pub open spec fn max_width_spec(self) -> u32 {
        self.tokens_spec().max_width_spec()
    }

    /// The character index up to which the text has been consumed.
    pub open spec fn frontier(self) -> int {
        self.tokens_spec().frontier()
    }

    /// Internal consistency: the line breaker is sound over this text and
    /// stands at a line start (or is spent).
    pub open spec fn wf(self) -> bool {
        &&& self.tokens_spec().wf()
        &&& self.text_view() == self.tokens_spec().text_view()
        &&& self.tokens_spec().width_remaining_spec() == self.tokens_spec().max_width_spec()
            || self.tokens_spec().exhausted()
    }

    /// Emits the next line as a slice of the original text.
    ///
    /// Tokens are collected until a newline or the end of the stream; a
    /// trailing Optional token is excluded from the line's end.
    #[verifier::rlimit(60)]
    pub fn next(&mut self) -> (r: Option<&'a str>)
        requires
            old(self).wf(),
        ensures
            final(self).wf(),
            final(self).text_view() == old(self).text_view(),
            final(self).measure_spec() == old(self).measure_spec(),
            final(self).max_width_spec() == old(self).max_width_spec(),
            old(self).frontier() <= final(self).frontier() <= old(self).text_view().len(),
            match r {
                None => {
                    &&& final(self).tokens_spec().exhausted()
                    &&& final(self).frontier() == old(self).text_view().len()
                    &&& elidable_range(
                        old(self).text_view(),
                        old(self).frontier(),
                        old(self).text_view().len() as int,
                    )
                },
                Some(s) => {
                    &&& final(self).tokens_spec().rank() < old(self).tokens_spec().rank()
                    &&& emits_line(
                        old(self).measure_spec(),
                        old(self).text_view(),
                        old(self).max_width_spec(),
                        old(self).frontier(),
                        final(self).frontier(),
                        s@,
                    )
                },
            },
            ({
                let lb = old(self).tokens_spec();
                match line_step(
                    lb.tokens_spec(),
                    lb.max_width_spec(),
                    lb.width_remaining_spec(),
                    lb.prev_spec(),
                    lb.force_spec(),
                    None,
                    (4 * old(self).text_view().len() + 5) as nat,
                ) {
                    None => false,
                    Some((lr, post)) => {
                        &&& post == (
                            final(self).tokens_spec().tokens_spec(),
                            final(self).tokens_spec().width_remaining_spec(),
                            final(self).tokens_spec().prev_spec(),
                            final(self).tokens_spec().force_spec(),
                        )
                        &&& match r {
                            None => lr is None,
                            Some(s) => match lr {
                                Some(ab) => 0 <= ab.0 <= ab.1 <= old(self).text_view().len()
                                    && s@ == old(self).text_view().subrange(ab.0, ab.1),
                                None => false,
                            },
                        }
                    },
                }
            }),
    {
        let ghost m = self.tokens.measure_spec();
        let ghost textv = self.text@;
        let ghost lb0 = self.tokens;
        let ghost lfuel0: nat = (4 * textv.len() + 5) as nat;
        let ghost mut lfuel: nat = lfuel0;
        let ghost maxw = self.tokens.max_width_spec();
        let ghost f0 = self.tokens.frontier();

        let mut start: Option<usize> = None;
        let mut end_keep: usize = 0;
        let ghost mut line_a: int = 0;
        let ghost mut over: bool = false;

        loop
            invariant
                self.tokens.wf(),
                self.text@ == textv,
                textv == self.tokens.text_view(),
                m == self.tokens.measure_spec(),
                maxw == self.tokens.max_width_spec(),
                textv == old(self).text_view(),
                m == old(self).measure_spec(),
                maxw == old(self).max_width_spec(),
                f0 == old(self).frontier(),
                old(self).wf(),
                f0 <= self.tokens.frontier() <= textv.len(),
                lb0 == old(self).tokens_spec(),
                lfuel0 == (4 * textv.len() + 5) as nat,
                lfuel >= self.tokens.rank() + 1,
                line_step(
                    lb0.tokens_spec(),
                    lb0.max_width_spec(),
                    lb0.width_remaining_spec(),
                    lb0.prev_spec(),
                    lb0.force_spec(),
                    None,
                    lfuel0,
                ) == line_step(
                    self.tokens.tokens_spec(),
                    self.tokens.max_width_spec(),
                    self.tokens.width_remaining_spec(),
                    self.tokens.prev_spec(),
                    self.tokens.force_spec(),
                    match start {
                        None => None,
                        Some(a2) => Some((line_a, end_keep as int)),
                    },
                    lfuel,
                ),
                match start {
                    None => self.tokens == old(self).tokens_spec() && !over,
                    Some(a) => {
                        &&& line_a == a as int
                        &&& f0 <= line_a <= end_keep as int <= self.tokens.frontier()
                        &&& elidable_range(textv, f0, line_a)
                        &&& elidable_range(textv, end_keep as int, self.tokens.frontier())
                        &&& self.tokens.rank() < old(self).tokens_spec().rank()
                        &&& if over {
                            &&& line_width_ok(m, textv, maxw, line_a, end_keep as int)
                            &&& self.tokens.force_spec() || self.tokens.tokens_spec().exhausted()
                        } else {
                            &&& width_of(m, textv.subrange(line_a, self.tokens.frontier())) == maxw
                                - self.tokens.width_remaining_spec()
                            &&& self.tokens.width_remaining_spec() <= maxw
                            &&& self.tokens.prev_spec() is Some
                            &&& !self.tokens.force_spec()
                        }
                    },
                },
            decreases self.tokens.rank(),
        {
            let ghost pre = self.tokens;
            proof {
                assert(LineBreakIterator::lb_step(
                    pre.tokens_spec(),
                    pre.max_width_spec(),
                    pre.width_remaining_spec(),
                    pre.prev_spec(),
                    pre.force_spec(),
                    (pre.tokens_spec().text_view().len() + 2) as nat,
                ) == pre.lb_next_spec());
            }
            match self.tokens.next() {
                None => {
                    match start {
                        None => {
                            return None;
                        },
                        Some(a) => {
                            let line = self.text.substring_char(a, end_keep);
                            proof {
                                lemma_annotate_nonempty(
                                    m,
                                    pre.tokens_spec().tokens_spec().units(),
                                    textv,
                                );
                                lemma_close_line(
                                    m,
                                    textv,
                                    maxw,
                                    f0,
                                    line_a,
                                    end_keep as int,
                                    pre.frontier(),
                                    self.tokens.frontier(),
                                    over,
                                    pre.width_remaining_spec(),
                                    line@,
                                );
                            }
                            proof {
                                assert(emits_line(
                                    m,
                                    textv,
                                    maxw,
                                    f0,
                                    self.tokens.frontier(),
                                    line@,
                                ));
                            }
                            return Some(line);
                        },
                    }
                },
                Some(token_kind) => {
                    if token_kind.is_newline() {
                        proof {
                            lemma_annotate_nonempty(
                                m,
                                pre.tokens_spec().tokens_spec().units(),
                                textv,
                            );
                            match token_kind {
                                TokenKind::Newline(Some(t)) => {
                                    lemma_elidable_concat(
                                        textv,
                                        pre.frontier(),
                                        t.start as int,
                                        t.end as int,
                                    );
                                },
                                _ => {},
                            }
                        }
                        match start {
                            None => {
                                // An immediate newline ends an empty line
                                let line = self.text.substring_char(0, 0);
                                proof {
                                    assert(textv.subrange(f0, f0) =~= Seq::<char>::empty());
                                    assert(line@ =~= textv.subrange(f0, f0));
                                    assert(line_span(
                                        m,
                                        textv,
                                        maxw,
                                        f0,
                                        self.tokens.frontier(),
                                        line@,
                                        f0,
                                        f0,
                                    ));
                                }
                                proof {
                                    assert(emits_line(
                                        m,
                                        textv,
                                        maxw,
                                        f0,
                                        self.tokens.frontier(),
                                        line@,
                                    ));
                                }
                                return Some(line);
                            },
                            Some(a) => {
                                let line = self.text.substring_char(a, end_keep);
                                proof {
                                    lemma_close_line(
                                        m,
                                        textv,
                                        maxw,
                                        f0,
                                        line_a,
                                        end_keep as int,
                                        pre.frontier(),
                                        self.tokens.frontier(),
                                        over,
                                        pre.width_remaining_spec(),
                                        line@,
                                    );
                                }
                                proof {
                                    assert(emits_line(
                                        m,
                                        textv,
                                        maxw,
                                        f0,
                                        self.tokens.frontier(),
                                        line@,
                                    ));
                                }
                                return Some(line);
                            },
                        }
                    } else {
                        let token = match token_kind {
                            TokenKind::Required(token) => token,
                            TokenKind::Optional(token) => token,
                            TokenKind::Newline(_) => {
                                // handled by the newline branch above
                                proof {
                                    assert(false);
                                }
                                Token { start: 0, end: 0, display_width: 0 }
                            },
                        };
                        proof {
                            lemma_annotate_nonempty(
                                m,
                                pre.tokens_spec().tokens_spec().units(),
                                textv,
                            );
                            match start {
                                None => {
                                    if pre.tokens_spec().exhausted() && !pre.force_spec() {
                                        pre.tokens_spec().lemma_exhausted_frontier();
                                        assert(false);
                                    }
                                },
                                Some(_) => {
                                    if over {
                                        // after an over-wide fragment the
                                        // stream can only close the line
                                        if pre.force_spec() {
                                            assert(false);
                                        } else {
                                            pre.tokens_spec().lemma_exhausted_frontier();
                                            assert(false);
                                        }
                                    } else if token.display_width <= maxw {
                                        // token accepted onto the line: its
                                        // width moves from the free budget to
                                        // the line
                                        assert(textv.subrange(line_a, token.end as int)
                                            =~= textv.subrange(line_a, token.start as int)
                                            + textv.subrange(token.start as int, token.end as int));
                                        lemma_width_of_concat(
                                            m,
                                            textv.subrange(line_a, token.start as int),
                                            textv.subrange(token.start as int, token.end as int),
                                        );
                                    } else {
                                        // an over-wide fragment lands on a line
                                        // whose accumulated width is zero
                                        assert(textv.subrange(line_a, token.start as int)
                                            =~= textv.subrange(line_a, pre.frontier()));
                                        if !(token_kind is Required) {
                                            assert(textv.subrange(line_a, pre.frontier())
                                                =~= textv.subrange(line_a, end_keep as int)
                                                + textv.subrange(end_keep as int, pre.frontier()));
                                            lemma_width_of_concat(
                                                m,
                                                textv.subrange(line_a, end_keep as int),
                                                textv.subrange(end_keep as int, pre.frontier()),
                                            );
                                        }
                                    }
                                },
                            }
                            if token_kind is Optional && start is Some {
                                lemma_elidable_concat(
                                    textv,
                                    end_keep as int,
                                    pre.frontier(),
                                    token.end as int,
                                );
                            }
                            // an over-wide fragment: the line's width sits in
                            // this one atomic fragment
                            if token.display_width > maxw {
                                assert(textv.subrange(token.start as int, token.start as int)
                                    =~= Seq::<char>::empty());
                                if start is Some {
                                    assert(width_of(m, textv.subrange(line_a, token.start as int))
                                        == 0);
                                } else {
                                    assert(width_of(
                                        m,
                                        textv.subrange(token.start as int, token.start as int),
                                    ) == 0);
                                }
                                if token_kind is Required {
                                    let aa = if start is Some { line_a } else { token.start as int };
                                    assert(line_width_ok(m, textv, maxw, aa, token.end as int))
                                        by {
                                        assert(aa <= token.start as int <= token.end as int
                                            && width_of(m, textv.subrange(aa, token.start as int))
                                            == 0 && atomic_head(
                                            textv,
                                            token.start as int,
                                            token.end as int,
                                        ) && width_of(
                                            m,
                                            textv.subrange(token.start as int, token.end as int),
                                        ) > maxw);
                                    }
                                } else {
                                    let aa = if start is Some { line_a } else { token.start as int };
                                    let ee = if start is Some { end_keep as int } else { token.start as int };
                                    assert(width_of(m, textv.subrange(aa, ee)) == 0);
                                    assert(line_width_ok(m, textv, maxw, aa, ee));
                                }
                            }
                        }
                        match start {
                            None => {
                                start = Some(token.start);
                                proof {
                                    line_a = token.start as int;
                                    over = token.display_width > maxw;
                                }
                                end_keep = if token_kind.is_required() {
                                    token.end
                                } else {
                                    token.start
                                };
                            },
                            Some(_) => {
                                proof {
                                    if token.display_width > maxw {
                                        over = true;
                                    }
                                }
                                if token_kind.is_required() {
                                    end_keep = token.end;
                                }
                            },
                        }
                        proof {
                            lfuel = (lfuel - 1) as nat;
                        }
                    }
                },
            }
        }
    }

    /// Collects every remaining line.
    ///
    /// The collected lines are exactly the slices at the character ranges
    /// [`lines_run`] computes from this iterator's state; they cover the
    /// text in order with only droppable ranges elided and every line
    /// within the width bound ([`wrap_covers`]).
    #[verifier::rlimit(60)]
    pub fn collect_lines(self) -> (r: Vec<&'a str>)
        requires
            self.wf(),
            self.frontier() == 0,
            self.tokens_spec().prev_spec() is None,
            !self.tokens_spec().force_spec(),
        ensures
            r@.len() <= 4 * self.text_view().len(),
            wrap_covers(
                self.measure_spec(),
                self.text_view(),
                self.max_width_spec(),
                r@.map_values(|s: &'a str| s@),
            ),
            match lines_run(
                self.tokens_spec().tokens_spec(),
                self.tokens_spec().max_width_spec(),
                self.tokens_spec().width_remaining_spec(),
                self.tokens_spec().prev_spec(),
                self.tokens_spec().force_spec(),
                (4 * self.text_view().len() + 5) as nat,
            ) {
                None => false,
                Some(rs) => {
                    &&& r@.len() == rs.len()
                    &&& forall|i: int|
                        0 <= i < rs.len() ==> 0 <= (#[trigger] rs[i]).0 <= rs[i].1
                            <= self.text_view().len() && r@[i]@ == self.text_view().subrange(
                            rs[i].0,
                            rs[i].1,
                        )
                },
            },
    {
        let ghost entry = self;
        let mut it = self;
        let ghost m = it.tokens.measure_spec();
        let ghost maxw = it.tokens.max_width_spec();
        let ghost textv = it.text@;
        let ghost rfuel0: nat = (4 * textv.len() + 5) as nat;
        let ghost mut rfuel: nat = rfuel0;

        let mut lines: Vec<&'a str> = Vec::new();
        let ghost mut rs: Seq<(int, int)> = Seq::empty();
        let ghost mut rsx: Seq<(int, int)> = Seq::empty();
        proof {
            assert(lines@.map_values(|s2: &'a str| s2@) =~= Seq::<Seq<char>>::empty());
        }
        loop
            invariant
                entry == self,
                it.wf(),
                it.text_view() == textv,
                textv == entry.text_view(),
                it.measure_spec() == m,
                it.max_width_spec() == maxw,
                m == entry.measure_spec(),
                maxw == entry.max_width_spec(),
                lines_prefix_ok(
                    m,
                    textv,
                    maxw,
                    lines@.map_values(|s2: &'a str| s2@),
                    rs,
                    it.frontier(),
                ),
                lines@.len() + it.tokens_spec().rank() <= 4 * textv.len(),
                0 <= it.tokens_spec().rank(),
                rsx.len() == lines@.len(),
                forall|i: int|
                    0 <= i < rsx.len() ==> 0 <= (#[trigger] rsx[i]).0 <= rsx[i].1 <= textv.len()
                        && lines@[i]@ == textv.subrange(rsx[i].0, rsx[i].1),
                rfuel0 == (4 * textv.len() + 5) as nat,
                rfuel >= it.tokens_spec().rank() + 1,
                lines_run(
                    entry.tokens_spec().tokens_spec(),
                    entry.tokens_spec().max_width_spec(),
                    entry.tokens_spec().width_remaining_spec(),
                    entry.tokens_spec().prev_spec(),
                    entry.tokens_spec().force_spec(),
                    rfuel0,
                ) == (match lines_run(
                    it.tokens_spec().tokens_spec(),
                    it.tokens_spec().max_width_spec(),
                    it.tokens_spec().width_remaining_spec(),
                    it.tokens_spec().prev_spec(),
                    it.tokens_spec().force_spec(),
                    rfuel,
                ) {
                    None => None,
                    Some(rest) => Some(rsx + rest),
                }),
            decreases it.tokens_spec().rank(),
        {
            let ghost fpre = it.frontier();
            let ghost pre = it;
            match it.next() {
                None => {
                    proof {
                        lemma_annotate_nonempty(
                            m,
                            it.tokens_spec().tokens_spec().tokens_spec().units(),
                            textv,
                        );
                        if rs.len() == 0 {
                            lemma_elidable_concat(textv, 0, fpre, textv.len() as int);
                        } else {
                            lemma_elidable_concat(
                                textv,
                                rs[rs.len() - 1].1,
                                fpre,
                                textv.len() as int,
                            );
                        }
                        assert(lines_cover(
                            m,
                            textv,
                            maxw,
                            lines@.map_values(|s2: &'a str| s2@),
                            rs,
                        ));
                        assert(lines_run(
                            pre.tokens_spec().tokens_spec(),
                            pre.tokens_spec().max_width_spec(),
                            pre.tokens_spec().width_remaining_spec(),
                            pre.tokens_spec().prev_spec(),
                            pre.tokens_spec().force_spec(),
                            rfuel,
                        ) == Some(Seq::<(int, int)>::empty()));
                        assert(rsx + Seq::<(int, int)>::empty() =~= rsx);
                    }
                    return lines;
                },
                Some(s) => {
                    lines.push(s);
                    proof {
                        let fcur = it.frontier();
                        let (a, b): (int, int) = choose|a: int, b: int|
                            line_span(m, textv, maxw, fpre, fcur, s@, a, b);
                        lemma_annotate_nonempty(
                            m,
                            it.tokens_spec().tokens_spec().tokens_spec().units(),
                            textv,
                        );
                        let prev_rs = rs;
                        let prev_lines = lines@.map_values(|s2: &'a str| s2@).drop_last();
                        if prev_rs.len() == 0 {
                            lemma_elidable_concat(textv, 0, fpre, a);
                        } else {
                            lemma_elidable_concat(textv, prev_rs[prev_rs.len() - 1].1, fpre, a);
                        }
                        rs = rs.push((a, b));
                        assert(lines@.map_values(|s2: &'a str| s2@) =~= prev_lines.push(s@));
                        assert(lines_prefix_ok(
                            m,
                            textv,
                            maxw,
                            lines@.map_values(|s2: &'a str| s2@),
                            rs,
                            fcur,
                        ));
                        // the exact range this line came from
                        let stepped = line_step(
                            pre.tokens_spec().tokens_spec(),
                            pre.tokens_spec().max_width_spec(),
                            pre.tokens_spec().width_remaining_spec(),
                            pre.tokens_spec().prev_spec(),
                            pre.tokens_spec().force_spec(),
                            None,
                            (4 * pre.text_view().len() + 5) as nat,
                        );
                        let ab = stepped.unwrap().0.unwrap();
                        let rest_opt = lines_run(
                            it.tokens_spec().tokens_spec(),
                            it.tokens_spec().max_width_spec(),
                            it.tokens_spec().width_remaining_spec(),
                            it.tokens_spec().prev_spec(),
                            it.tokens_spec().force_spec(),
                            (rfuel - 1) as nat,
                        );
                        if rest_opt is Some {
                            let rest = rest_opt.unwrap();
                            assert(rsx + (seq![ab] + rest) =~= rsx.push(ab) + rest);
                        }
                        rsx = rsx.push(ab);
                        rfuel = (rfuel - 1) as nat;
                    }
                },
            }
        }
    }
}

} // verus!
