//! Splits tokens that are wider than the configured maximum width into
//! width-bounded fragments, holding the remainder for the next pull.

use vstd::prelude::*;

use crate::grapheme_width::{
    grapheme_pieces, lemma_piece_at, lemma_pieces_chars_mono, lemma_pieces_prefix, pieces_chars,
    unit_seqs, units_annotate,
};
use crate::measure::{sat_add, width_of, Measure};
use crate::token::{
    atomic_head, fit_clusters, lemma_fit_clusters, split_at_grapheme_spec, split_at_width_spec,
    token_at, Token, TokenKind,
};
use crate::whitespace::{
    elidable_range, lemma_elidable_subrange, lemma_pieces_chars_strict, lemma_ws_token_props,
    ws_next_upos, ws_peek_spec, WhiteSpaceIterator,
};

verus! {

/// One pull from the splitter: a token that fits, an over-wide fragment
/// that must stand on a line of its own, or the signal that the current
/// line has no room left.
#[derive(Copy, Clone, PartialEq, Debug)]
pub enum PartialToken {
    /// A token that fits in the space it was asked against.
    Token(TokenKind),
    /// A fragment wider than the maximum width; it occupies a line alone.
    TokenOverflow(TokenKind),
    /// Nothing fits in the remaining space; the line is over.
    EndOfLine,
}

impl PartialToken {
    /// The carried token of the carried token kind, if any.
    pub fn into_token(self) -> (r: Option<Token>)
        ensures
            r == match self {
                PartialToken::Token(tk) => tk.into_token_spec(),
                PartialToken::TokenOverflow(tk) => tk.into_token_spec(),
                PartialToken::EndOfLine => None::<Token>,
            },
    {
        match self {
            PartialToken::Token(token_kind) | PartialToken::TokenOverflow(token_kind) => {
                token_kind.into_token()
            },
            PartialToken::EndOfLine => None,
        }
    }

    /// The carried token kind, if any.
    pub fn into_tokenkind(self) -> (r: Option<TokenKind>)
        ensures
            r == match self {
                PartialToken::Token(tk) => Some(tk),
                PartialToken::TokenOverflow(tk) => Some(tk),
                PartialToken::EndOfLine => None::<TokenKind>,
            },
    {
        match self {
            PartialToken::Token(token_kind) | PartialToken::TokenOverflow(token_kind) => {
                Some(token_kind)
            },
            PartialToken::EndOfLine => None,
        }
    }
}

/// A token kind the splitter works on: it carries a token, the token is a
/// non-empty measured range of `text`, and everything but a Required token
/// covers only droppable (non-Other) units.
pub open spec fn token_kind_wf<M: Measure>(m: M, text: Seq<char>, tk: TokenKind) -> bool {
    match tk.into_token_spec() {
        None => false,
        Some(t) => {
            &&& t.start < t.end <= text.len()
            &&& t.display_width == width_of(m, text.subrange(t.start as int, t.end as int))
            &&& !(tk is Required) ==> elidable_range(text, t.start as int, t.end as int)
        },
    }
}

/// What processing one token against `space` remaining produces: the item
/// handed out now, and the remainder retained for the next pull.
pub open spec fn process_spec<M: Measure>(
    m: M,
    text: Seq<char>,
    max_width: u32,
    tk: TokenKind,
    space: u32,
) -> (PartialToken, Option<TokenKind>) {
    match tk {
        TokenKind::Newline(p) => (PartialToken::Token(TokenKind::Newline(p)), None),
        _ => {
            let kind = tk.kind_spec();
            let token = tk.into_token_spec().unwrap();
            if token.display_width > max_width {
                let hd_tl = split_at_width_spec(m, text, token, space);
                if hd_tl.0 is None && hd_tl.1 is Some && space == max_width {
                    let g = split_at_grapheme_spec(m, text, token, 1);
                    (
                        match g.0 {
                            None => PartialToken::EndOfLine,
                            Some(h) => PartialToken::TokenOverflow(kind.token_spec(h)),
                        },
                        match g.1 {
                            None => None,
                            Some(t) => Some(kind.token_spec(t)),
                        },
                    )
                } else {
                    (
                        match hd_tl.0 {
                            None => PartialToken::EndOfLine,
                            Some(h) => PartialToken::Token(kind.token_spec(h)),
                        },
                        match hd_tl.1 {
                            None => None,
                            Some(t) => Some(kind.token_spec(t)),
                        },
                    )
                }
            } else if token.display_width > space {
                (PartialToken::EndOfLine, Some(kind.token_spec(token)))
            } else {
                (PartialToken::Token(kind.token_spec(token)), None)
            }
        },
    }
}

/// The facts one pull of the splitter guarantees about its result `r`,
/// given the token `tk` it processed: fragments keep the token's kind and
/// start, stay inside its range, fit the space they were asked against
/// (except an over-wide atomic head), and the retained remainder follows
/// on from what was handed out.
pub open spec fn process_props<M: Measure>(
    m: M,
    text: Seq<char>,
    max_width: u32,
    tk: TokenKind,
    space: u32,
    r: (PartialToken, Option<TokenKind>),
) -> bool {
    let t0 = tk.into_token_spec().unwrap();
    &&& match r.0 {
        PartialToken::Token(tk2) => match tk2 {
            TokenKind::Newline(p) => p == Some(t0) && tk is Newline && r.1 is None,
            TokenKind::Required(t) | TokenKind::Optional(t) => {
                &&& tk2.kind_spec() == tk.kind_spec()
                &&& t.start == t0.start
                &&& t.start < t.end <= t0.end
                &&& token_kind_wf(m, text, tk2)
                &&& t.display_width <= space
                &&& match r.1 {
                    Some(p) => p.into_token_spec().unwrap().start == t.end,
                    None => t.end == t0.end,
                }
            },
        },
        PartialToken::TokenOverflow(tk2) => match tk2.into_token_spec() {
            Some(t) => {
                &&& !(tk2 is Newline)
                &&& tk2.kind_spec() == tk.kind_spec()
                &&& t.start == t0.start
                &&& t.start < t.end <= t0.end
                &&& token_kind_wf(m, text, tk2)
                &&& t.display_width > max_width
                &&& space == max_width
                &&& atomic_head(text, t.start as int, t.end as int)
                &&& match r.1 {
                    Some(p) => p.into_token_spec().unwrap().start == t.end,
                    None => t.end == t0.end,
                }
            },
            None => false,
        },
        PartialToken::EndOfLine => {
            &&& space < max_width
            &&& match r.1 {
                Some(p) => p == tk,
                None => false,
            }
        },
    }
    &&& match r.1 {
        None => true,
        Some(tkp) => {
            &&& token_kind_wf(m, text, tkp)
            &&& !(tkp is Newline)
            &&& tkp.kind_spec() == tk.kind_spec()
            &&& tkp.into_token_spec().unwrap().end == t0.end
            &&& tkp.into_token_spec().unwrap().start >= t0.start
        },
    }
}

impl<'a> WhiteSpaceIterator<'a> {
    /// Feeds this tokenizer's output through a splitter bounded by
    /// `max_width`.
    pub fn with_partial_tokens<M: Measure>(
        self,
        max_width: u32,
        text: &'a str,
        measure: &'a M,
    ) -> (r: PartialTokensIterator<'a, M>)
        requires
            self.wf(),
            units_annotate(*measure, self.units(), text@),
        ensures
            r.wf(),
            r.text_view() == text@,
            r.measure_spec() == *measure,
            r.max_width_spec() == max_width,
            r.tokens_spec() == self,
            r.partial_spec() == None::<TokenKind>,
    {
        proof {
            lemma_pieces_prefix(unit_seqs(self.units()), self.units().len() as int);
            lemma_pieces_chars_mono(
                unit_seqs(self.units()),
                self.upos_spec(),
                self.units().len() as int,
            );
        }
        PartialTokensIterator { text, measure, max_width, tokens: self, partial: None }
    }
}

/// Splits tokens that are wider than the max_width.
///
/// The tokenizer's tokens pass through one at a time; a token wider than
/// `max_width` is cut at character granularity, and the uncut remainder is
/// retained as the pending partial token.
pub struct PartialTokensIterator<'a, M: Measure> {
    text: &'a str,
    measure: &'a M,
    max_width: u32,
    tokens: WhiteSpaceIterator<'a>,
    partial: Option<TokenKind>,
}

impl<'a, M: Measure> PartialTokensIterator<'a, M> {
    /// The text the token ranges index into.
    pub closed spec fn text_view(self) -> Seq<char> {
        self.text@
    }

    /// The measure the pipeline runs against.
    pub closed spec fn measure_spec(self) -> M {
        *self.measure
    }

    /// The maximum line width fragments are bounded by.
    pub closed spec fn max_width_spec(self) -> u32 {
        self.max_width
    }

    /// The tokenizer this splitter pulls from.
    pub closed spec fn tokens_spec(self) -> WhiteSpaceIterator<'a> {
        self.tokens
    }

    /// The pending partial token, if a split left a remainder.
    pub closed spec fn partial_spec(self) -> Option<TokenKind> {
        self.partial
    }

    /// Internal consistency: the tokenizer is sound over the annotated
    /// units of `text`, and any pending partial is a well-formed non-newline
    /// token ending exactly where the tokenizer stands.
    pub open spec fn wf(self) -> bool {
        &&& self.tokens_spec().wf()
        &&& units_annotate(self.measure_spec(), self.tokens_spec().units(), self.text_view())
        &&& self.text_view().len() <= usize::MAX
        &&& pieces_chars(
            unit_seqs(self.tokens_spec().units()),
            self.tokens_spec().units().len() as int,
        ) == self.text_view().len()
        &&& 0 <= self.frontier() <= self.text_view().len()
        &&& match self.partial_spec() {
            None => true,
            Some(tk) => {
                &&& token_kind_wf(self.measure_spec(), self.text_view(), tk)
                &&& !(tk is Newline)
                &&& tk.into_token_spec().unwrap().end as int == self.tokens_spec().index_spec()
            },
        }
    }

    /// The token the next pull will process: the pending partial, or the
    /// tokenizer's next token.
    pub open spec fn cur_token(self) -> Option<TokenKind> {
        match self.partial_spec() {
            Some(tk) => Some(tk),
            None => ws_peek_spec(self.tokens_spec().units(), self.tokens_spec().upos_spec()),
        }
    }

    /// The character index up to which tokens have been handed out.
    pub open spec fn frontier(self) -> int {
        match self.partial_spec() {
            Some(tk) => tk.into_token_spec().unwrap().start as int,
            None => self.tokens_spec().index_spec(),
        }
    }

    /// True when every token has been handed out.
    pub open spec fn exhausted(self) -> bool {
        self.cur_token() is None
    }

    /// What a pull with `space` remaining returns, as a function of the
    /// splitter's state alone.
    pub open spec fn peek_spec(self, space: u32) -> Option<PartialToken> {
        match self.cur_token() {
            None => None,
            Some(tk) => Some(
                process_spec(
                    self.measure_spec(),
                    self.text_view(),
                    self.max_width_spec(),
                    tk,
                    space,
                ).0,
            ),
        }
    }

    /// The splitter after one pull against `space`: the processed token's
    /// retained remainder becomes the pending partial, and the tokenizer
    /// moves past the token it supplied.
    pub closed spec fn next_state(self, space: u32) -> Self {
        match self.cur_token() {
            None => self,
            Some(tk) => PartialTokensIterator {
                tokens: if self.partial_spec() is Some {
                    self.tokens
                } else {
                    self.tokens.advanced()
                },
                partial: process_spec(
                    self.measure_spec(),
                    self.text_view(),
                    self.max_width_spec(),
                    tk,
                    space,
                ).1,
                ..self
            },
        }
    }

    /// A pull on a spent splitter leaves it as it stands.
    pub proof fn lemma_next_state_exhausted(self, space: u32)
        requires
            self.cur_token() is None,
        ensures
            self.next_state(space) == self,
    {
    }

    /// Peeking is idempotent: `peek` borrows the splitter immutably and
    /// its result is a function of the state and the width alone, so two
    /// peeks with the same width and no intervening `next` hand back the
    /// same item.
    pub proof fn lemma_peek_idempotent(
        self,
        space: u32,
        r1: Option<PartialToken>,
        r2: Option<PartialToken>,
    )
        requires
            r1 == self.peek_spec(space),
            r2 == self.peek_spec(space),
        ensures
            r1 == r2,
    {
    }

    /// A spent splitter has handed out the whole text.
    pub proof fn lemma_exhausted_frontier(self)
        requires
            self.wf(),
            self.exhausted(),
        ensures
            self.frontier() == self.text_view().len(),
    {
    }

    /// Pulls the next (possibly split) token against `space_remaining`:
    /// the pending partial if one is held, the tokenizer's next token
    /// otherwise.
    pub fn next(&mut self, space_remaining: u32) -> (r: Option<PartialToken>)
        requires
            old(self).wf(),
            space_remaining <= old(self).max_width_spec(),
        ensures
            final(self).wf(),
            final(self).text_view() == old(self).text_view(),
            final(self).measure_spec() == old(self).measure_spec(),
            final(self).max_width_spec() == old(self).max_width_spec(),
            final(self).tokens_spec().units() == old(self).tokens_spec().units(),
            r == old(self).peek_spec(space_remaining),
            *final(self) == old(self).next_state(space_remaining),
            old(self).frontier() <= final(self).frontier() <= old(self).text_view().len(),
            match old(self).cur_token() {
                None => {
                    &&& r is None
                    &&& final(self).exhausted()
                    &&& final(self).frontier() == old(self).frontier()
                },
                Some(tk) => {
                    let pr = process_spec(
                        old(self).measure_spec(),
                        old(self).text_view(),
                        old(self).max_width_spec(),
                        tk,
                        space_remaining,
                    );
                    &&& token_kind_wf(old(self).measure_spec(), old(self).text_view(), tk)
                    &&& r == Some(pr.0)
                    &&& final(self).partial_spec() == pr.1
                    &&& process_props(
                        old(self).measure_spec(),
                        old(self).text_view(),
                        old(self).max_width_spec(),
                        tk,
                        space_remaining,
                        pr,
                    )
                    &&& tk.into_token_spec().unwrap().start as int == old(self).frontier()
                    &&& match pr.0 {
                        PartialToken::Token(tk2) => match tk2.into_token_spec() {
                            Some(t) => t.end as int == final(self).frontier(),
                            None => false,
                        },
                        PartialToken::TokenOverflow(tk2) => match tk2.into_token_spec() {
                            Some(t) => t.end as int == final(self).frontier(),
                            None => false,
                        },
                        PartialToken::EndOfLine => {
                            &&& final(self).frontier() == old(self).frontier()
                            &&& !final(self).exhausted()
                        },
                    }
                },
            },
    {
        proof {
            lemma_pieces_chars_mono(
                unit_seqs(self.tokens.units()),
                self.tokens.upos_spec(),
                self.tokens.units().len() as int,
            );
        }
        let p_opt = self.partial;
        self.partial = None;
        let token_kind = match p_opt {
            Some(partial) => partial,
            None => {
                let ghost upos0 = self.tokens.upos_spec();
                match self.tokens.next() {
                    Some(t) => {
                        proof {
                            lemma_ws_token_props(
                                *self.measure,
                                self.tokens.units(),
                                self.text@,
                                upos0,
                            );
                            lemma_pieces_chars_mono(
                                unit_seqs(self.tokens.units()),
                                ws_next_upos(self.tokens.units(), upos0),
                                self.tokens.units().len() as int,
                            );
                        }
                        t
                    },
                    None => {
                        return None;
                    },
                }
            },
        };
        let (pt, new_partial) = self.process_partial(token_kind, space_remaining);
        self.partial = new_partial;
        Some(pt)
    }

    /// Looks at what the next pull against `space_remaining` would hand
    /// out, consuming nothing.
    pub fn peek(&self, space_remaining: u32) -> (r: Option<PartialToken>)
        requires
            self.wf(),
            space_remaining <= self.max_width_spec(),
        ensures
            r == self.peek_spec(space_remaining),
    {
        let token_kind = match self.partial {
            Some(partial) => partial,
            None => {
                match self.tokens.peek() {
                    Some(t) => {
                        proof {
                            lemma_ws_token_props(
                                *self.measure,
                                self.tokens.units(),
                                self.text@,
                                self.tokens.upos_spec(),
                            );
                        }
                        t
                    },
                    None => {
                        return None;
                    },
                }
            },
        };
        let (pt, _) = self.process_partial(token_kind, space_remaining);
        Some(pt)
    }

    /// Processes one token against the space remaining on the line,
    /// returning what to hand out and what to retain.
    fn process_partial(&self, token_kind: TokenKind, space_remaining: u32) -> (r: (
        PartialToken,
        Option<TokenKind>,
    ))
        requires
            self.wf(),
            token_kind_wf(self.measure_spec(), self.text_view(), token_kind),
            space_remaining <= self.max_width_spec(),
        ensures
            r == process_spec(
                self.measure_spec(),
                self.text_view(),
                self.max_width_spec(),
                token_kind,
                space_remaining,
            ),
            process_props(
                self.measure_spec(),
                self.text_view(),
                self.max_width_spec(),
                token_kind,
                space_remaining,
                r,
            ),
    {
        let ghost m = *self.measure;
        let ghost textv = self.text@;
        let kind = token_kind.kind();

        let token = match token_kind {
            TokenKind::Required(token) | TokenKind::Optional(token) => token,
            TokenKind::Newline(t) => {
                // Newlines pass through
                return (PartialToken::Token(TokenKind::Newline(t)), None);
            },
        };
        let ghost s = textv.subrange(token.start as int, token.end as int);

        if token.display_width > self.max_width {
            // If the word is wider than the max_width we break it anywhere
            let (head, tail) = token.split_at_width(space_remaining, self.text, self.measure);
            proof {
                let ps2 = grapheme_pieces(s);
                if ps2.len() == 0 {
                    assert(ps2.flatten() =~= Seq::<char>::empty());
                }
                assert(ps2.len() > 0);
                lemma_fit_clusters(m, ps2, 0, space_remaining);
                let kc = fit_clusters(m, ps2, 0, space_remaining);
                let k = pieces_chars(ps2, kc);
                lemma_pieces_prefix(ps2, kc);
                assert(s.subrange(0, k) =~= textv.subrange(token.start as int, token.start + k));
                if 0 < kc {
                    lemma_pieces_chars_strict(ps2, 0, kc);
                    assert(sat_add(0, width_of(m, ps2.take(kc).flatten())) == width_of(
                        m,
                        ps2.take(kc).flatten(),
                    ));
                }
            }

            // If there is a tail and no head when max_width and space_remaining
            // are the same, then we return the first grapheme.
            if head.is_none() && tail.is_some() && space_remaining == self.max_width {
                let (h2, t2) = token.split_at_grapheme(1, self.text, self.measure);
                proof {
                    let ps2 = grapheme_pieces(s);
                    assert(ps2.flatten() == s);
                    if ps2.len() == 0 {
                        assert(ps2.flatten() =~= Seq::<char>::empty());
                    }
                    assert(ps2.len() > 0);
                    assert(pieces_chars(ps2, 1) == pieces_chars(ps2, 0) + ps2[0].len());
                    let pc = pieces_chars(ps2, 1);
                    lemma_pieces_prefix(ps2, 1);
                    assert(0 < pc <= s.len());
                    lemma_piece_at(ps2, 0);
                    assert(ps2[0] == s.subrange(0, pc));
                    assert(s.take(pc) =~= s.subrange(0, pc));
                    assert(s.take(pc) =~= textv.subrange(token.start as int, token.start + pc));
                    // no cluster fits a full line, so the first cluster
                    // alone is too wide for one
                    let kc = fit_clusters(m, ps2, 0, space_remaining);
                    if kc > 0 {
                        lemma_pieces_chars_strict(ps2, 0, kc);
                    }
                    assert(kc == 0);
                    assert(ps2.take(0).flatten() =~= Seq::<char>::empty());
                    assert(sat_add(0, width_of(m, ps2[0])) == width_of(m, ps2[0]));
                    assert(width_of(m, ps2[0]) > space_remaining);
                    assert(width_of(m, s.take(pc)) == width_of(m, ps2[0]));
                    // the head is the first grapheme of the token's slice
                    assert(atomic_head(textv, token.start as int, token.start + pc)) by {
                        assert(textv.subrange(token.start as int, token.end as int) == s);
                        assert(grapheme_pieces(s)[0] == textv.subrange(
                            token.start as int,
                            token.start + pc,
                        ));
                    }
                    if token_kind is Optional {
                        lemma_elidable_subrange(
                            textv,
                            token.start as int,
                            token.end as int,
                            token.start as int,
                            token.start + pc,
                        );
                        if pc < token.end - token.start {
                            lemma_elidable_subrange(
                                textv,
                                token.start as int,
                                token.end as int,
                                token.start + pc,
                                token.end as int,
                            );
                        }
                    }
                }
                let head_pt = match h2 {
                    None => PartialToken::EndOfLine,
                    Some(h) => PartialToken::TokenOverflow(kind.token(h)),
                };
                let new_partial = match t2 {
                    None => None,
                    Some(t) => Some(kind.token(t)),
                };
                (head_pt, new_partial)
            } else {
                proof {
                    let ps2 = grapheme_pieces(s);
                    let k = pieces_chars(ps2, fit_clusters(m, ps2, 0, space_remaining));
                    if k > 0 && token_kind is Optional {
                        lemma_elidable_subrange(
                            textv,
                            token.start as int,
                            token.end as int,
                            token.start as int,
                            token.start + k,
                        );
                        if k < token.end - token.start {
                            lemma_elidable_subrange(
                                textv,
                                token.start as int,
                                token.end as int,
                                token.start + k,
                                token.end as int,
                            );
                        }
                    }
                }
                let head_pt = match head {
                    None => PartialToken::EndOfLine,
                    Some(h) => PartialToken::Token(kind.token(h)),
                };
                let new_partial = match tail {
                    None => None,
                    Some(t) => Some(kind.token(t)),
                };
                (head_pt, new_partial)
            }
        } else if token.display_width > space_remaining {
            // The token is not wider than the max width but the line doesn't
            // have room: signal the end of the line and retry it next line.
            (PartialToken::EndOfLine, Some(kind.token(token)))
        } else {
            // There is room on the line for the token
            (PartialToken::Token(kind.token(token)), None)
        }
    }
}

} // verus!
