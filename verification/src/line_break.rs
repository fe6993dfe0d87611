//! Injects synthetic newlines into the split token stream wherever the
//! current line runs out of width, and drops the Optional tokens that
//! would dangle at a line boundary.

use vstd::prelude::*;

use crate::measure::{width_of, Measure};
use crate::partial_tokens::{PartialToken, PartialTokensIterator};
use crate::token::{atomic_head, Kind, TokenKind};
use crate::whitespace::{elidable_range, lemma_elidable_concat};

verus! {

/// Injects Synthetic newlines into the token stream at a given display
/// width.
pub struct LineBreakIterator<'a, M: Measure> {
    /// Maximum display width for the lines
    max_width: u32,

    /// Tokens used to fill the line
    tokens: PartialTokensIterator<'a, M>,

    /// The space remaining in the line we are filling
    width_remaining: u32,

    /// `previous_token_kind` is `None` while the iterator stands at the
    /// beginning of a line.
    previous_token_kind: Option<Kind>,

    /// Set after an over-wide fragment went out: the next pull emits the
    /// newline that puts it on a line of its own.
    force_newline: bool,
}

impl<'a, M: Measure> PartialTokensIterator<'a, M> {
    /// Feeds this splitter's output through the line breaker.
    pub fn add_newlines_at(self, max_width: u32) -> (r: LineBreakIterator<'a, M>)
        requires
            self.wf(),
            max_width == self.max_width_spec(),
        ensures
            r.wf(),
            r.tokens_spec() == self,
            r.text_view() == self.text_view(),
            r.measure_spec() == self.measure_spec(),
            r.max_width_spec() == max_width,
            r.width_remaining_spec() == max_width,
            r.prev_spec() is None,
            !r.force_spec(),
    {
        LineBreakIterator {
            max_width,
            tokens: self,
            width_remaining: max_width,
            previous_token_kind: None,
            force_newline: false,
        }
    }
}

impl<'a, M: Measure> LineBreakIterator<'a, M> {
    /// The splitter this line breaker pulls from.
    pub closed spec fn tokens_spec(self) -> PartialTokensIterator<'a, M> {
        self.tokens
    }

    /// The maximum display width of a line.
    pub closed spec fn max_width_spec(self) -> u32 {
        self.max_width
    }

    /// The width still free on the line being filled.
    pub closed spec fn width_remaining_spec(self) -> u32 {
        self.width_remaining
    }

    /// The classification of the last token put on the current line, if
    /// the line has one.
    pub closed spec fn prev_spec(self) -> Option<Kind> {
        self.previous_token_kind
    }

    /// Whether the next pull must emit the newline after an over-wide
    /// fragment.
    pub closed spec fn force_spec(self) -> bool {
        self.force_newline
    }

    /// The text the token ranges index into.
    pub open spec fn text_view(self) -> Seq<char> {
        self.tokens_spec().text_view()
    }

    /// The measure the pipeline runs against.
    pub open spec fn measure_spec(self) -> M {
        self.tokens_spec().measure_spec()
    }

    /// The character index up to which tokens have been handed out.
    pub open spec fn frontier(self) -> int {
        self.tokens_spec().frontier()
    }

    /// True when no token, real or synthetic, is left to emit.
    pub open spec fn exhausted(self) -> bool {
        self.tokens_spec().exhausted() && !self.force_spec()
    }

    /// Internal consistency: the splitter is sound, both stages agree on
    /// the maximum width, and the free width never exceeds it; at a line
    /// start the whole width is free.
    pub open spec fn wf(self) -> bool {
        &&& self.tokens_spec().wf()
        &&& self.max_width_spec() == self.tokens_spec().max_width_spec()
        &&& self.width_remaining_spec() <= self.max_width_spec()
        &&& self.prev_spec() is None ==> self.width_remaining_spec() == self.max_width_spec()
        &&& self.force_spec() ==> self.width_remaining_spec() == self.max_width_spec()
        &&& self.force_spec() ==> !self.tokens_spec().exhausted()
    }

    /// Every pull lowers this bound, so pulling to exhaustion terminates.
    pub open spec fn rank(self) -> int {
        4 * (self.text_view().len() - self.frontier()) + (if self.force_spec() {
            2int
        } else {
            0
        }) + (if self.width_remaining_spec() < self.max_width_spec() {
            1int
        } else {
            0
        })
    }

    /// One pull of the line breaker, as a function of its state: what it
    /// emits and the state it leaves, or `None` when the fuel runs out
    /// before the leading-Optional skip finds a token (fuel at one more
    /// than the characters left always suffices). The state is the
    /// splitter, the free width, the previous token kind, and the forced
    /// newline flag.
    pub open spec fn lb_step(
        tokens: PartialTokensIterator<'a, M>,
        max_width: u32,
        width_remaining: u32,
        prev: Option<Kind>,
        force: bool,
        fuel: nat,
    ) -> Option<(Option<TokenKind>, PartialTokensIterator<'a, M>, u32, Option<Kind>, bool)>
        decreases fuel,
    {
        if force {
            Some((Some(TokenKind::Newline(None)), tokens, width_remaining, prev, false))
        } else if fuel == 0 {
            None
        } else {
            match tokens.peek_spec(width_remaining) {
                None => Some((None, tokens, width_remaining, prev, false)),
                Some(pt) => {
                    let t2 = tokens.next_state(width_remaining);
                    match pt {
                        PartialToken::TokenOverflow(tk) => Some(
                            (Some(tk), t2, width_remaining, prev, !t2.exhausted()),
                        ),
                        PartialToken::EndOfLine => Some(
                            (Some(TokenKind::Newline(None)), t2, max_width, None, false),
                        ),
                        PartialToken::Token(tk) => match tk {
                            TokenKind::Optional(token) => {
                                if prev is None {
                                    // leading Optional tokens are dropped
                                    Self::lb_step(
                                        t2,
                                        max_width,
                                        width_remaining,
                                        prev,
                                        false,
                                        (fuel - 1) as nat,
                                    )
                                } else if t2.peek_spec(
                                    (width_remaining - token.display_width) as u32,
                                ) matches Some(PartialToken::Token(_)) {
                                    // something still fits after it: keep it
                                    Some(
                                        (
                                            Some(TokenKind::Optional(token)),
                                            t2,
                                            (width_remaining - token.display_width) as u32,
                                            Some(Kind::Optional),
                                            false,
                                        ),
                                    )
                                } else {
                                    // a dangling Optional is dropped for a
                                    // synthetic newline
                                    Some(
                                        (Some(TokenKind::Newline(None)), t2, max_width, None, false),
                                    )
                                }
                            },
                            TokenKind::Required(token) => Some(
                                (
                                    Some(TokenKind::Required(token)),
                                    t2,
                                    (width_remaining - token.display_width) as u32,
                                    Some(Kind::Required),
                                    false,
                                ),
                            ),
                            TokenKind::Newline(p) => Some(
                                (Some(TokenKind::Newline(p)), t2, max_width, None, false),
                            ),
                        },
                    }
                },
            }
        }
    }

    /// What this line breaker's next pull emits and leaves behind, as a
    /// function of its state alone.
    pub open spec fn lb_next_spec(self) -> Option<
        (Option<TokenKind>, PartialTokensIterator<'a, M>, u32, Option<Kind>, bool),
    > {
        Self::lb_step(
            self.tokens_spec(),
            self.max_width_spec(),
            self.width_remaining_spec(),
            self.prev_spec(),
            self.force_spec(),
            (self.text_view().len() + 2) as nat,
        )
    }

    /// Resets the line state for a fresh line.
    fn newline(&mut self)
        ensures
            *final(self) == (LineBreakIterator {
                width_remaining: old(self).max_width_spec(),
                previous_token_kind: None,
                ..*old(self)
            }),
    {
        self.width_remaining = self.max_width;
        self.previous_token_kind = None;
    }

    /// Emits the next token of the line-broken stream.
    ///
    /// Leading Optional tokens of a line are dropped; an Optional token
    /// after which nothing more fits is replaced by a synthetic newline; a
    /// full line yields a synthetic newline and keeps the pending token
    /// for the next line; real newlines pass through.
    #[verifier::rlimit(60)]
    pub fn next(&mut self) -> (r: Option<TokenKind>)
        requires
            old(self).wf(),
        ensures
            final(self).wf(),
            final(self).text_view() == old(self).text_view(),
            final(self).measure_spec() == old(self).measure_spec(),
            final(self).max_width_spec() == old(self).max_width_spec(),
            old(self).frontier() <= final(self).frontier() <= old(self).text_view().len(),
            final(self).rank() <= old(self).rank(),
            old(self).force_spec() ==> r == Some(TokenKind::Newline(None))
                && final(self).frontier() == old(self).frontier() && !final(self).force_spec()
                && final(self).tokens_spec() == old(self).tokens_spec(),
            // a spent stream stays spent: no trailing synthetic newline
            old(self).exhausted() ==> r is None,
            // leading Optional tokens are dropped: only an over-wide
            // Optional fragment, which takes a line of its own, can open one
            old(self).prev_spec() is None ==> (r matches Some(TokenKind::Optional(t))
                ==> t.display_width > old(self).max_width_spec()),
            // the pull is a function of the state alone
            old(self).lb_next_spec() == Some(
                (
                    r,
                    final(self).tokens_spec(),
                    final(self).width_remaining_spec(),
                    final(self).prev_spec(),
                    final(self).force_spec(),
                ),
            ),
            match r {
                None => {
                    &&& final(self).exhausted()
                    &&& final(self).frontier() == old(self).text_view().len()
                    &&& elidable_range(
                        old(self).text_view(),
                        old(self).frontier(),
                        old(self).text_view().len() as int,
                    )
                },
                Some(tk) => {
                    &&& final(self).rank() < old(self).rank()
                    &&& match tk {
                        TokenKind::Newline(Some(t)) => {
                            &&& old(self).frontier() <= t.start < t.end
                            &&& t.end as int == final(self).frontier()
                            &&& elidable_range(
                                old(self).text_view(),
                                old(self).frontier(),
                                t.start as int,
                            )
                            &&& elidable_range(old(self).text_view(), t.start as int, t.end as int)
                            &&& t.display_width == width_of(
                                old(self).measure_spec(),
                                old(self).text_view().subrange(t.start as int, t.end as int),
                            )
                            &&& final(self).width_remaining_spec() == final(self).max_width_spec()
                            &&& final(self).prev_spec() is None
                        },
                        TokenKind::Newline(None) => {
                            &&& elidable_range(
                                old(self).text_view(),
                                old(self).frontier(),
                                final(self).frontier(),
                            )
                            &&& final(self).width_remaining_spec() == final(self).max_width_spec()
                        },
                        TokenKind::Required(t) | TokenKind::Optional(t) => {
                            &&& old(self).frontier() <= t.start < t.end
                            &&& t.end as int == final(self).frontier()
                            &&& elidable_range(
                                old(self).text_view(),
                                old(self).frontier(),
                                t.start as int,
                            )
                            &&& old(self).prev_spec() is Some ==> t.start as int == old(self).frontier()
                            &&& t.display_width == width_of(
                                old(self).measure_spec(),
                                old(self).text_view().subrange(t.start as int, t.end as int),
                            )
                            &&& tk is Optional ==> elidable_range(
                                old(self).text_view(),
                                t.start as int,
                                t.end as int,
                            )
                            &&& {
                                ||| {
                                    &&& t.display_width <= old(self).width_remaining_spec()
                                    &&& final(self).width_remaining_spec() == old(self).width_remaining_spec() - t.display_width
                                    &&& final(self).prev_spec() is Some
                                    &&& !final(self).force_spec()
                                }
                                ||| {
                                    &&& old(self).width_remaining_spec() == old(self).max_width_spec()
                                    &&& final(self).width_remaining_spec() == final(self).max_width_spec()
                                    &&& t.display_width > final(self).max_width_spec()
                                    &&& atomic_head(
                                        old(self).text_view(),
                                        t.start as int,
                                        t.end as int,
                                    )
                                    &&& final(self).force_spec() == !final(self).tokens_spec().exhausted()
                                }
                            }
                        },
                    }
                },
            },
    {
        if self.force_newline {
            self.force_newline = false;
            return Some(TokenKind::Newline(None));
        }

        let ghost f0 = self.tokens.frontier();
        let ghost textv = self.tokens.text_view();
        let ghost fuel0: nat = (textv.len() + 2) as nat;
        let ghost mut fuel_v: nat = fuel0;

        // Take tokens until one fits (dropping Optional tokens that would
        // start a line) or the space left on this line runs out.
        loop
            invariant
                self.wf(),
                !self.force_spec(),
                !old(self).force_spec(),
                old(self).exhausted() ==> self.tokens_spec().exhausted(),
                textv == old(self).text_view(),
                f0 == old(self).frontier(),
                self.text_view() == textv,
                self.measure_spec() == old(self).measure_spec(),
                self.max_width_spec() == old(self).max_width_spec(),
                self.width_remaining_spec() == old(self).width_remaining_spec(),
                self.prev_spec() == old(self).prev_spec(),
                f0 <= self.frontier() <= textv.len(),
                elidable_range(textv, f0, self.frontier()),
                old(self).prev_spec() is Some ==> self.frontier() == f0,
                fuel0 == (textv.len() + 2) as nat,
                fuel_v >= textv.len() - self.frontier() + 1,
                Self::lb_step(
                    old(self).tokens_spec(),
                    old(self).max_width_spec(),
                    old(self).width_remaining_spec(),
                    old(self).prev_spec(),
                    false,
                    fuel0,
                ) == Self::lb_step(
                    self.tokens_spec(),
                    old(self).max_width_spec(),
                    old(self).width_remaining_spec(),
                    old(self).prev_spec(),
                    false,
                    fuel_v,
                ),
            decreases textv.len() - self.frontier(),
        {
            let ghost fcur = self.tokens.frontier();
            let ghost pre_tokens = self.tokens;
            match self.tokens.next(self.width_remaining) {
                None => {
                    proof {
                        lemma_elidable_concat(textv, f0, fcur, textv.len() as int);
                        assert(Self::lb_step(
                            pre_tokens,
                            old(self).max_width_spec(),
                            old(self).width_remaining_spec(),
                            old(self).prev_spec(),
                            false,
                            fuel_v,
                        ) == Some(
                            (
                                None::<TokenKind>,
                                pre_tokens,
                                old(self).width_remaining_spec(),
                                old(self).prev_spec(),
                                false,
                            ),
                        ));
                        pre_tokens.lemma_next_state_exhausted(old(self).width_remaining_spec());
                    }
                    return None;
                },
                Some(PartialToken::TokenOverflow(token_kind)) => {
                    // Only force the newline if there is a token following
                    // this one
                    if self.tokens.peek(self.max_width).is_some() {
                        self.force_newline = true;
                    }
                    return Some(token_kind);
                },
                Some(PartialToken::Token(token_kind)) => {
                    // Skip optional tokens at the beginning of a line
                    if self.previous_token_kind.is_none() && token_kind.is_optional() {
                        proof {
                            let t = token_kind.into_token_spec().unwrap();
                            lemma_elidable_concat(textv, f0, fcur, t.end as int);
                            assert(Self::lb_step(
                                pre_tokens,
                                old(self).max_width_spec(),
                                old(self).width_remaining_spec(),
                                old(self).prev_spec(),
                                false,
                                fuel_v,
                            ) == Self::lb_step(
                                self.tokens_spec(),
                                old(self).max_width_spec(),
                                old(self).width_remaining_spec(),
                                old(self).prev_spec(),
                                false,
                                (fuel_v - 1) as nat,
                            ));
                            fuel_v = (fuel_v - 1) as nat;
                        }
                        continue ;
                    }

                    let token_kind = match token_kind {
                        TokenKind::Required(token) => TokenKind::Required(token),
                        TokenKind::Optional(token) => {
                            // Only keep the Optional token if another token
                            // still fits on the line after it
                            let width_remaining = self.width_remaining - token.display_width;
                            match self.tokens.peek(width_remaining) {
                                Some(PartialToken::Token(_)) => TokenKind::Optional(token),
                                None | Some(PartialToken::TokenOverflow(_))
                                | Some(PartialToken::EndOfLine) => {
                                    // Nothing more fits: drop the dangling
                                    // optional, break the line instead
                                    proof {
                                        lemma_elidable_concat(
                                            textv,
                                            f0,
                                            token.start as int,
                                            token.end as int,
                                        );
                                    }
                                    TokenKind::Newline(None)
                                },
                            }
                        },
                        TokenKind::Newline(token) => {
                            // All types of newlines pass through
                            TokenKind::Newline(token)
                        },
                    };

                    if token_kind.is_newline() {
                        self.newline();
                    } else {
                        // token accepted, no longer at the start of a line
                        self.width_remaining = self.width_remaining - token_kind.width();
                        self.previous_token_kind = Some(token_kind.kind());
                    }

                    return Some(token_kind);
                },
                Some(PartialToken::EndOfLine) => {
                    self.newline();
                    return Some(TokenKind::Newline(None));
                },
            }
        }
    }
}

} // verus!
