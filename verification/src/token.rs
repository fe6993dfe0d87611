//! Classified text tokens: character ranges of the input paired with their
//! display width.

use vstd::prelude::*;

use crate::measure::{
    lemma_sat_assoc, lemma_width_of_concat, measure_str, sat_add, sat_add_u32, width_of, Measure,
};
use crate::grapheme_width::{
    grapheme_pieces, lemma_pieces_chars_mono, lemma_pieces_prefix, pieces_chars, split_graphemes,
};

verus! {

/// The classification of a token, without its payload.
#[derive(Copy, Clone, PartialEq, Eq, Structural, Debug)]
pub enum Kind {
    /// The token must appear on some line.
    Required,
    /// The token may be dropped at a line boundary.
    Optional,
    /// The token forces a line break.
    Newline,
}

impl Kind {
    /// Wraps `token` in the `TokenKind` variant this classification names.
    pub fn token(&self, token: Token) -> (r: TokenKind)
        ensures
            r == self.token_spec(token),
    {
        match self {
            Kind::Required => TokenKind::Required(token),
            Kind::Optional => TokenKind::Optional(token),
            Kind::Newline => TokenKind::Newline(Some(token)),
        }
    }

    /// The `TokenKind` variant this classification names, carrying `token`.
    pub open spec fn token_spec(self, token: Token) -> TokenKind {
        match self {
            Kind::Required => TokenKind::Required(token),
            Kind::Optional => TokenKind::Optional(token),
            Kind::Newline => TokenKind::Newline(Some(token)),
        }
    }
}

/// The kind of the token.
///
/// `Optional` tokens may be omitted from lines if they occur at the
/// beginning or end of a line. `Newline` tokens cause a newline; a
/// `Newline` without a payload is synthetic, inserted by the line breaker.
#[derive(Copy, Clone, PartialEq, Eq, Debug)]
pub enum TokenKind {
    /// The token must be used.
    Required(Token),
    /// The token may be removed at a line break.
    Optional(Token),
    /// The token causes a newline.
    Newline(Option<Token>),
}

impl TokenKind {
    /// True for `Required` tokens.
    pub fn is_required(&self) -> (r: bool)
        ensures
            r == self is Required,
    {
        matches!(self, TokenKind::Required(_))
    }

    /// True for `Optional` tokens.
    pub fn is_optional(&self) -> (r: bool)
        ensures
            r == self is Optional,
    {
        matches!(self, TokenKind::Optional(_))
    }

    /// True for `Newline` tokens, real or synthetic.
    pub fn is_newline(&self) -> (r: bool)
        ensures
            r == self is Newline,
    {
        matches!(self, TokenKind::Newline(_))
    }

    /// The display width this token occupies on a line.
    pub open spec fn width_spec(self) -> u32 {
        match self {
            TokenKind::Required(token) => token.display_width,
            TokenKind::Optional(token) => token.display_width,
            TokenKind::Newline(Some(token)) => token.display_width,
            TokenKind::Newline(None) => 0,
        }
    }

    /// The display width of the carried token; a synthetic newline is zero
    /// wide.
    pub fn width(&self) -> (r: u32)
        ensures
            r == self.width_spec(),
    {
        match self {
            TokenKind::Required(token) => token.display_width,
            TokenKind::Optional(token) => token.display_width,
            TokenKind::Newline(Some(token)) => token.display_width,
            TokenKind::Newline(None) => 0,
        }
    }

    /// The carried token, if any.
    pub open spec fn into_token_spec(self) -> Option<Token> {
        match self {
            TokenKind::Required(token) => Some(token),
            TokenKind::Optional(token) => Some(token),
            TokenKind::Newline(token) => token,
        }
    }

    /// Unwraps the carried token; `None` only for a synthetic newline.
    pub fn into_token(self) -> (r: Option<Token>)
        ensures
            r == self.into_token_spec(),
    {
        match self {
            TokenKind::Required(token) | TokenKind::Optional(token) => Some(token),
            TokenKind::Newline(token) => token,
        }
    }

    /// The bare classification of this token.
    pub open spec fn kind_spec(self) -> Kind {
        match self {
            TokenKind::Required(_) => Kind::Required,
            TokenKind::Optional(_) => Kind::Optional,
            TokenKind::Newline(_) => Kind::Newline,
        }
    }

    /// Strips the payload, leaving the classification.
    pub fn kind(&self) -> (r: Kind)
        ensures
            r == self.kind_spec(),
    {
        match self {
            TokenKind::Required(_) => Kind::Required,
            TokenKind::Optional(_) => Kind::Optional,
            TokenKind::Newline(_) => Kind::Newline,
        }
    }
}

/// A Token is a range of characters of a text slice, with its measured
/// display width.
///
/// The range counts characters, not bytes: `start` and `end` index into
/// the sequence of the text's `char`s, and both always fall on grapheme
/// cluster boundaries of the tokenized text.
#[derive(Copy, Clone, PartialEq, Eq, Structural, Debug)]
pub struct Token {
    /// Where the token starts in the text, as a character index.
    pub start: usize,

    /// Where the token ends in the text, as a character index (exclusive).
    pub end: usize,

    /// The width of the token for the given measure.
    pub display_width: u32,
}

/// True when `t` is a well-formed range of a text of `len` characters whose
/// width is the measured width of exactly that range.
pub open spec fn token_wf<M: Measure>(m: M, text: Seq<char>, t: Token) -> bool {
    &&& t.start <= t.end <= text.len()
    &&& t.display_width == width_of(m, text.subrange(t.start as int, t.end as int))
}

/// The token covering `[start, end)` of `text`, measured by `m`.
pub open spec fn token_at<M: Measure>(m: M, text: Seq<char>, start: int, end: int) -> Token {
    Token {
        start: start as usize,
        end: end as usize,
        display_width: width_of(m, text.subrange(start, end)),
    }
}

/// The pair of tokens produced by cutting `[start, end)` at `mid`, each
/// re-measured; an empty side is `None`.
pub open spec fn split_at_spec<M: Measure>(
    m: M,
    text: Seq<char>,
    start: int,
    mid: int,
    end: int,
) -> (Option<Token>, Option<Token>) {
    (
        if start == mid {
            None
        } else {
            Some(token_at(m, text, start, mid))
        },
        if mid == end {
            None
        } else {
            Some(token_at(m, text, mid, end))
        },
    )
}

/// How many leading grapheme clusters of `ps` fit in `budget`, the
/// running width starting from `acc`: clusters are taken greedily until
/// the saturating sum would pass the budget. Splitting at cluster
/// granularity means a split never lands inside a grapheme cluster.
pub open spec fn fit_clusters<M: Measure>(m: M, ps: Seq<Seq<char>>, acc: u32, budget: u32) -> int
    decreases ps.len(),
{
    if ps.len() == 0 {
        0
    } else if sat_add(acc, width_of(m, ps.first())) > budget {
        0
    } else {
        1 + fit_clusters(m, ps.drop_first(), sat_add(acc, width_of(m, ps.first())), budget)
    }
}

/// What the greedy cluster count guarantees: the cluster prefix taken
/// fits in the budget, and the next cluster (if any) would not.
pub proof fn lemma_fit_clusters<M: Measure>(m: M, ps: Seq<Seq<char>>, acc: u32, budget: u32)
    ensures
        0 <= fit_clusters(m, ps, acc, budget) <= ps.len(),
        sat_add(acc, width_of(m, ps.take(fit_clusters(m, ps, acc, budget)).flatten())) <= budget
            || fit_clusters(m, ps, acc, budget) == 0,
        fit_clusters(m, ps, acc, budget) < ps.len() ==> sat_add(
            sat_add(acc, width_of(m, ps.take(fit_clusters(m, ps, acc, budget)).flatten())),
            width_of(m, ps[fit_clusters(m, ps, acc, budget)]),
        ) > budget,
    decreases ps.len(),
{
    let k = fit_clusters(m, ps, acc, budget);
    if ps.len() == 0 {
    } else if sat_add(acc, width_of(m, ps.first())) > budget {
        assert(ps.take(0) =~= Seq::<Seq<char>>::empty());
        assert(ps.take(0).flatten() =~= Seq::<char>::empty());
        assert(ps[0] == ps.first());
    } else {
        let acc2 = sat_add(acc, width_of(m, ps.first()));
        lemma_fit_clusters(m, ps.drop_first(), acc2, budget);
        let k2 = fit_clusters(m, ps.drop_first(), acc2, budget);
        assert(k == 1 + k2);
        assert(ps.take(k).first() == ps.first());
        assert(ps.take(k).drop_first() =~= ps.drop_first().take(k2));
        assert(ps.take(k).flatten() == ps.first() + ps.drop_first().take(k2).flatten());
        lemma_width_of_concat(m, ps.first(), ps.drop_first().take(k2).flatten());
        lemma_sat_assoc(
            acc,
            width_of(m, ps.first()),
            width_of(m, ps.drop_first().take(k2).flatten()),
        );
        if k2 == 0 {
            assert(ps.drop_first().take(0) =~= Seq::<Seq<char>>::empty());
            assert(ps.drop_first().take(0).flatten() =~= Seq::<char>::empty());
        }
        if k < ps.len() {
            assert(ps.drop_first()[k2] == ps[k]);
        }
    }
}

/// The pair of tokens that splitting at `display_width` produces: an
/// empty token splits to nothing, a narrower token passes whole, and
/// otherwise the head takes the longest prefix of whole grapheme
/// clusters whose width stays within `display_width`.
pub open spec fn split_at_width_spec<M: Measure>(
    m: M,
    text: Seq<char>,
    t: Token,
    display_width: u32,
) -> (Option<Token>, Option<Token>) {
    if t.start == t.end {
        (None, None)
    } else if t.display_width < display_width {
        (Some(t), None)
    } else {
        let ps = grapheme_pieces(text.subrange(t.start as int, t.end as int));
        split_at_spec(
            m,
            text,
            t.start as int,
            t.start + pieces_chars(ps, fit_clusters(m, ps, 0, display_width)),
            t.end as int,
        )
    }
}

/// The number of characters covered by the first `n` grapheme clusters of
/// `slice` (all of them, if it has fewer than `n`).
pub open spec fn grapheme_prefix_chars(slice: Seq<char>, n: int) -> int {
    let ps = grapheme_pieces(slice);
    pieces_chars(
        ps,
        if n <= ps.len() {
            n
        } else {
            ps.len() as int
        },
    )
}

/// True when `[s, e)` is the first grapheme cluster of some slice of
/// `text` that starts at `s`. A head like this is atomic: the splitter
/// never cuts below it, so it may stand alone on a line even when it is
/// wider than the maximum.
pub open spec fn atomic_head(text: Seq<char>, s: int, e: int) -> bool {
    exists|j: int|
        e <= j <= text.len() && 0 <= s <= e && grapheme_pieces(text.subrange(s, j)).len() > 0
            && grapheme_pieces(text.subrange(s, j))[0] == text.subrange(s, e)
}

/// The pair of tokens that splitting after `n` grapheme clusters produces.
pub open spec fn split_at_grapheme_spec<M: Measure>(
    m: M,
    text: Seq<char>,
    t: Token,
    n: int,
) -> (Option<Token>, Option<Token>) {
    split_at_spec(
        m,
        text,
        t.start as int,
        t.start + grapheme_prefix_chars(text.subrange(t.start as int, t.end as int), n),
        t.end as int,
    )
}

impl Token {
    /// Creates a new token for the given range and width.
    pub fn new(start: usize, end: usize, display_width: u32) -> (r: Token)
        ensures
            r == (Token { start, end, display_width }),
    {
        Token { start, end, display_width }
    }

    /// Creates a token covering the whole of `text`.
    pub fn measure<M: Measure>(text: &str, measure: &M) -> (r: Token)
        ensures
            r == token_at(*measure, text@, 0, text@.len() as int),
            token_wf(*measure, text@, r),
    {
        let display_width = measure_str(measure, text);
        let r = Token { start: 0, end: text.unicode_len(), display_width };
        proof {
            assert(text@.subrange(0, text@.len() as int) =~= text@);
        }
        r
    }

    /// Subdivides the token after a number of graphemes.
    ///
    /// The split point is the character index after the first `graphemes`
    /// grapheme clusters of the token's slice (all of them, if it has
    /// fewer); head and tail are re-measured, and an empty side is `None`.
    pub fn split_at_grapheme<M: Measure>(
        &self,
        graphemes: usize,
        text: &str,
        measure: &M,
    ) -> (r: (Option<Token>, Option<Token>))
        requires
            self.start <= self.end <= text@.len(),
        ensures
            r == split_at_grapheme_spec(*measure, text@, *self, graphemes as int),
            grapheme_pieces(text@.subrange(self.start as int, self.end as int)).flatten()
                == text@.subrange(self.start as int, self.end as int),
            forall|i: int|
                0 <= i < grapheme_pieces(
                    text@.subrange(self.start as int, self.end as int),
                ).len() ==> #[trigger] grapheme_pieces(
                    text@.subrange(self.start as int, self.end as int),
                )[i].len() > 0,
    {
        let slice = text.substring_char(self.start, self.end);
        let pieces = split_graphemes(slice);
        let ghost ps = grapheme_pieces(slice@);
        proof {
            assert forall|i: int| 0 <= i < ps.len() implies #[trigger] ps[i].len() > 0 by {
                assert(ps[i] == pieces@.map_values(|g: &str| g@)[i]);
                assert(pieces@.map_values(|g: &str| g@)[i] == pieces@[i]@);
            }
        }
        let stop = if graphemes < pieces.len() {
            graphemes
        } else {
            pieces.len()
        };
        let mut idx: usize = 0;
        let mut i: usize = 0;
        proof {
            lemma_pieces_prefix(ps, stop as int);
        }
        while i < stop
            invariant
                i <= stop,
                stop <= pieces@.len(),
                pieces@.map_values(|g: &str| g@) == ps,
                ps.flatten() == slice@,
                slice@.len() == self.end - self.start,
                idx == pieces_chars(ps, i as int),
                pieces_chars(ps, stop as int) <= ps.flatten().len(),
            decreases stop - i,
        {
            let glen = pieces[i].unicode_len();
            proof {
                lemma_pieces_chars_mono(ps, i + 1, stop as int);
                assert(ps[i as int] == pieces@.map_values(|g: &str| g@)[i as int]);
                assert(pieces_chars(ps, i + 1) == pieces_chars(ps, i as int) + ps[i as int].len());
            }
            idx = idx + glen;
            i = i + 1;
        }
        self.split_at(idx, text, measure)
    }

    /// Splits the token at a relative character index.
    ///
    /// Head and tail cover `[start, start + index)` and
    /// `[start + index, end)`, each re-measured against `measure`; an empty
    /// side is `None`.
    pub fn split_at<M: Measure>(&self, index: usize, text: &str, measure: &M) -> (r: (
        Option<Token>,
        Option<Token>,
    ))
        requires
            index <= self.end - self.start,
            self.start <= self.end <= text@.len(),
        ensures
            r == split_at_spec(*measure, text@, self.start as int, self.start + index, self.end as int),
    {
        let mid = self.start + index;

        let head_w = measure_str(measure, text.substring_char(self.start, mid));
        let head = Token { start: self.start, end: mid, display_width: head_w };

        let tail_w = measure_str(measure, text.substring_char(mid, self.end));
        let tail = Token { start: mid, end: self.end, display_width: tail_w };

        match (head.start == head.end, tail.start == tail.end) {
            (true, true) => (None, None),
            (false, true) => (Some(head), None),
            (true, false) => (None, Some(tail)),
            (false, false) => (Some(head), Some(tail)),
        }
    }

    /// Subdivides the token at `display_width`.
    ///
    /// An empty token splits to nothing, and a token narrower than
    /// `display_width` is returned whole; otherwise the head takes the
    /// longest prefix of whole grapheme clusters whose width stays within
    /// `display_width` and the tail is the remainder — a split never
    /// lands inside a cluster.
    pub fn split_at_width<M: Measure>(&self, display_width: u32, text: &str, measure: &M) -> (r: (
        Option<Token>,
        Option<Token>,
    ))
        requires
            self.start <= self.end <= text@.len(),
        ensures
            r == split_at_width_spec(*measure, text@, *self, display_width),
            self.start < self.end && self.display_width >= display_width ==> grapheme_pieces(
                text@.subrange(self.start as int, self.end as int),
            ).flatten() == text@.subrange(self.start as int, self.end as int),
            self.start < self.end && self.display_width >= display_width ==> forall|i: int|
                0 <= i < grapheme_pieces(
                    text@.subrange(self.start as int, self.end as int),
                ).len() ==> #[trigger] grapheme_pieces(
                    text@.subrange(self.start as int, self.end as int),
                )[i].len() > 0,
    {
        // Should never happen...
        if self.start == self.end {
            return (None, None);
        }

        // Optimize the case where the token fits in the display_width
        if self.display_width < display_width {
            return (Some(*self), None);
        }

        let slice = text.substring_char(self.start, self.end);
        let pieces = split_graphemes(slice);
        let ghost ps = grapheme_pieces(slice@);
        proof {
            assert forall|i: int| 0 <= i < ps.len() implies #[trigger] ps[i].len() > 0 by {
                assert(ps[i] == pieces@.map_values(|g: &str| g@)[i]);
                assert(pieces@.map_values(|g: &str| g@)[i] == pieces@[i]@);
            }
        }

        let n = pieces.len();
        let mut head_width: u32 = 0;
        let mut k: usize = 0;
        let mut idx: usize = 0;

        proof {
            assert(ps.skip(0) =~= ps);
            assert(ps.take(0) =~= Seq::<Seq<char>>::empty());
            assert(ps.take(0).flatten() =~= Seq::<char>::empty());
        }
        while k < n
            invariant
                k <= n,
                n == pieces@.len(),
                pieces@.map_values(|g: &str| g@) == ps,
                ps.flatten() == slice@,
                slice@ == text@.subrange(self.start as int, self.end as int),
                self.start < self.end <= text@.len(),
                idx == pieces_chars(ps, k as int),
                idx <= slice@.len(),
                head_width == width_of(*measure, ps.take(k as int).flatten()),
                fit_clusters(*measure, ps, 0, display_width) == k + fit_clusters(
                    *measure,
                    ps.skip(k as int),
                    head_width,
                    display_width,
                ),
            ensures
                k <= n,
                k as int == fit_clusters(*measure, ps, 0, display_width),
                idx == pieces_chars(ps, k as int),
                idx <= slice@.len(),
            decreases n - k,
        {
            let g = pieces[k];
            let gw = measure_str(measure, g);
            proof {
                assert(ps[k as int] == pieces@.map_values(|g2: &str| g2@)[k as int]);
                assert(ps.skip(k as int).first() == ps[k as int]);
            }
            let next_width = sat_add_u32(head_width, gw);
            if next_width > display_width {
                proof {
                    assert(fit_clusters(*measure, ps.skip(k as int), head_width, display_width)
                        == 0);
                }
                break ;
            }

            let glen = g.unicode_len();
            proof {
                lemma_pieces_prefix(ps, k + 1);
                assert(pieces_chars(ps, k + 1) == pieces_chars(ps, k as int)
                    + ps[k as int].len());
                assert(ps.take(k + 1) =~= ps.take(k as int).push(ps[k as int]));
                ps.take(k as int).lemma_flatten_push(ps[k as int]);
                lemma_width_of_concat(*measure, ps.take(k as int).flatten(), ps[k as int]);
                assert(ps.skip(k as int).drop_first() =~= ps.skip(k + 1));
            }
            idx = idx + glen;
            head_width = next_width;
            k = k + 1;
        }

        proof {
            if k == n {
                assert(ps.skip(n as int) =~= Seq::<Seq<char>>::empty());
            }
        }
        self.split_at(idx, text, measure)
    }

    /// The slice of `text` this token covers.
    pub fn as_str<'a>(self, text: &'a str) -> (r: &'a str)
        requires
            self.start <= self.end <= text@.len(),
        ensures
            r@ == text@.subrange(self.start as int, self.end as int),
    {
        text.substring_char(self.start, self.end)
    }
}

} // verus!
