//! The regular-expression constructs that the translator emits, their text,
//! and what each of them matches.
use vstd::prelude::*;

use crate::translate::{
    escaped, ANY_DEPTH, ANY_IN_SEGMENT, DIR_END, NOTHING, ONE_IN_SEGMENT, OPTIONAL_SLASH, ROOT,
    SEGMENT_END, SEGMENT_START, SHALLOW_END,
};

verus! {

/// One construct of an emitted expression.
pub enum Piece {
    /// `\A`: the start of the path.
    Root,
    /// `(?:\A|/)`: the start of the path, or a `/`.
    SegmentStart,
    /// `/?`: a `/`, or nothing.
    OptionalSlash,
    /// `(?s:.)*`: any run of characters at all.
    AnyDepth,
    /// `[^/]*`: any run of characters other than `/`.
    AnyInSegment,
    /// `[^/]`: one character other than `/`.
    OneInSegment,
    /// A character, escaped where it is a meta character: that character.
    Char(char),
    /// `/` that closes a directory-only pattern.
    DirEnd,
    /// `\z`: the end of the path.
    End,
    /// `(?:\z|/)`: the end of the path, or a `/`.
    SegmentEnd,
    /// `[^\s\S]`: an empty class, which matches no character.
    Nothing,
}

/// The text of one construct.
pub open spec fn piece_text(p: Piece) -> Seq<char> {
    match p {
        Piece::Root => ROOT@,
        Piece::SegmentStart => SEGMENT_START@,
        Piece::OptionalSlash => OPTIONAL_SLASH@,
        Piece::AnyDepth => ANY_DEPTH@,
        Piece::AnyInSegment => ANY_IN_SEGMENT@,
        Piece::OneInSegment => ONE_IN_SEGMENT@,
        Piece::Char(c) => escaped(c),
        Piece::DirEnd => DIR_END@,
        Piece::End => SHALLOW_END@,
        Piece::SegmentEnd => SEGMENT_END@,
        Piece::Nothing => NOTHING@,
    }
}

/// The text of a sequence of constructs: their texts one after another.
pub open spec fn render(ps: Seq<Piece>) -> Seq<char>
    decreases ps.len(),
{
    if ps.len() == 0 {
        Seq::empty()
    } else {
        piece_text(ps[0]) + render(ps.drop_first())
    }
}

/// Whether the character at `i` of `h` exists and is `c`.
pub open spec fn char_at(h: Seq<char>, i: int, c: char) -> bool {
    0 <= i < h.len() && h[i] == c
}

/// Whether the constructs `ps` match exactly the characters of `h` from `i` up
/// to `j`. The assertions (`\A`, `\z`) look at the whole of `h`.
pub open spec fn matches_span(ps: Seq<Piece>, h: Seq<char>, i: int, j: int) -> bool
    decreases ps.len(), j - i,
{
    if ps.len() == 0 {
        i == j
    } else {
        let rest = ps.drop_first();
        match ps[0] {
            Piece::Root => i == 0 && matches_span(rest, h, i, j),
            Piece::SegmentStart => (i == 0 && matches_span(rest, h, i, j)) || (char_at(h, i, '/')
                && matches_span(rest, h, i + 1, j)),
            Piece::OptionalSlash => matches_span(rest, h, i, j) || (char_at(h, i, '/')
                && matches_span(rest, h, i + 1, j)),
            Piece::AnyDepth => matches_span(rest, h, i, j) || (0 <= i < j && i < h.len()
                && matches_span(ps, h, i + 1, j)),
            Piece::AnyInSegment => matches_span(rest, h, i, j) || (0 <= i < j && i < h.len()
                && h[i] != '/' && matches_span(ps, h, i + 1, j)),
            Piece::OneInSegment => 0 <= i < h.len() && h[i] != '/' && matches_span(
                rest,
                h,
                i + 1,
                j,
            ),
            Piece::Char(c) => char_at(h, i, c) && matches_span(rest, h, i + 1, j),
            Piece::DirEnd => char_at(h, i, '/') && matches_span(rest, h, i + 1, j),
            Piece::End => i == h.len() && matches_span(rest, h, i, j),
            Piece::SegmentEnd => (i == h.len() && matches_span(rest, h, i, j)) || (char_at(
                h,
                i,
                '/',
            ) && matches_span(rest, h, i + 1, j)),
            Piece::Nothing => false,
        }
    }
}

/// Whether the constructs `ps` match somewhere in `h`: what a search for the
/// expression `render(ps)` in `h` finds.
pub open spec fn pieces_match(ps: Seq<Piece>, h: Seq<char>) -> bool {
    exists|i: int, j: int| 0 <= i <= j <= h.len() && #[trigger] matches_span(ps, h, i, j)
}

/// The text of two sequences of constructs, one after the other.
pub proof fn lemma_render_concat(a: Seq<Piece>, b: Seq<Piece>)
    ensures
        render(a + b) == render(a) + render(b),
    decreases a.len(),
{
    if a.len() == 0 {
        assert(a + b =~= b);
        assert(render(a) + render(b) =~= render(b));
    } else {
        assert((a + b).drop_first() =~= a.drop_first() + b);
        lemma_render_concat(a.drop_first(), b);
        assert(render(a + b) =~= render(a) + render(b));
    }
}

/// A span never runs backwards.
pub proof fn lemma_span_forward(ps: Seq<Piece>, h: Seq<char>, i: int, j: int)
    requires
        matches_span(ps, h, i, j),
    ensures
        i <= j,
    decreases ps.len(), j - i,
{
    if ps.len() > 0 {
        let rest = ps.drop_first();
        if matches_span(rest, h, i, j) {
            lemma_span_forward(rest, h, i, j);
        } else if matches_span(rest, h, i + 1, j) {
            lemma_span_forward(rest, h, i + 1, j);
        }
    }
}

/// `(?s:.)*` followed by `rest` spans any run of characters, `/` included,
/// before what `rest` spans.
pub proof fn lemma_any_depth_spans(rest: Seq<Piece>, h: Seq<char>, i: int, k: int, j: int)
    requires
        0 <= i <= k <= j,
        k <= h.len(),
        matches_span(rest, h, k, j),
    ensures
        matches_span(seq![Piece::AnyDepth] + rest, h, i, j),
    decreases k - i,
{
    let ps = seq![Piece::AnyDepth] + rest;
    assert(ps[0] == Piece::AnyDepth);
    assert(ps.drop_first() =~= rest);
    if i < k {
        lemma_any_depth_spans(rest, h, i + 1, k, j);
    }
}

/// `[^/]*` followed by `rest` spans a run of characters without `/`, then
/// what `rest` spans.
pub proof fn lemma_any_in_segment_stays(rest: Seq<Piece>, h: Seq<char>, i: int, j: int)
    requires
        matches_span(seq![Piece::AnyInSegment] + rest, h, i, j),
    ensures
        exists|k: int|
            i <= k <= j && (forall|m: int| i <= m < k ==> h[m] != '/') && #[trigger] matches_span(
                rest,
                h,
                k,
                j,
            ),
    decreases j - i,
{
    let ps = seq![Piece::AnyInSegment] + rest;
    assert(ps[0] == Piece::AnyInSegment);
    assert(ps.drop_first() =~= rest);
    if matches_span(rest, h, i, j) {
        lemma_span_forward(rest, h, i, j);
        assert(i <= i <= j && (forall|m: int| i <= m < i ==> h[m] != '/'));
    } else {
        lemma_any_in_segment_stays(rest, h, i + 1, j);
        let k = choose|k: int|
            i + 1 <= k <= j && (forall|m: int| i + 1 <= m < k ==> h[m] != '/')
                && #[trigger] matches_span(rest, h, k, j);
        assert(forall|m: int| i <= m < k ==> h[m] != '/');
    }
}

/// Two sequences of constructs, one after the other, span what the first
/// spans followed by what the second spans.
pub proof fn lemma_span_concat_join(a: Seq<Piece>, b: Seq<Piece>, h: Seq<char>, i: int, k: int, j: int)
    requires
        matches_span(a, h, i, k),
        matches_span(b, h, k, j),
    ensures
        matches_span(a + b, h, i, j),
    decreases a.len(), k - i,
{
    if a.len() == 0 {
        assert(a + b =~= b);
    } else {
        let a1 = a.drop_first();
        assert((a + b)[0] == a[0]);
        assert((a + b).drop_first() =~= a1 + b);
        lemma_span_forward(b, h, k, j);
        lemma_span_forward(a, h, i, k);
        match a[0] {
            Piece::AnyDepth | Piece::AnyInSegment => {
                if matches_span(a1, h, i, k) {
                    lemma_span_concat_join(a1, b, h, i, k, j);
                } else {
                    lemma_span_concat_join(a, b, h, i + 1, k, j);
                }
            },
            Piece::Root | Piece::End => {
                lemma_span_concat_join(a1, b, h, i, k, j);
            },
            Piece::OneInSegment | Piece::Char(_) | Piece::DirEnd => {
                lemma_span_concat_join(a1, b, h, i + 1, k, j);
            },
            Piece::SegmentStart | Piece::OptionalSlash | Piece::SegmentEnd => {
                if matches_span(a1, h, i, k) && (a[0] == Piece::OptionalSlash || (a[0]
                    == Piece::SegmentStart && i == 0) || (a[0] == Piece::SegmentEnd && i
                    == h.len())) {
                    lemma_span_concat_join(a1, b, h, i, k, j);
                } else {
                    lemma_span_concat_join(a1, b, h, i + 1, k, j);
                }
            },
            Piece::Nothing => {},
        }
    }
}

/// What two sequences of constructs, one after the other, span splits into
/// what the first spans followed by what the second spans.
pub proof fn lemma_span_concat_split(a: Seq<Piece>, b: Seq<Piece>, h: Seq<char>, i: int, j: int)
    requires
        matches_span(a + b, h, i, j),
    ensures
        exists|k: int| #[trigger] matches_span(a, h, i, k) && matches_span(b, h, k, j),
    decreases a.len(), j - i,
{
    if a.len() == 0 {
        assert(a + b =~= b);
        assert(matches_span(a, h, i, i));
    } else {
        let a1 = a.drop_first();
        let ab = a + b;
        assert(ab[0] == a[0]);
        assert(ab.drop_first() =~= a1 + b);
        match a[0] {
            Piece::AnyDepth | Piece::AnyInSegment => {
                if matches_span(a1 + b, h, i, j) {
                    lemma_span_concat_split(a1, b, h, i, j);
                    let k = choose|k: int| #[trigger] matches_span(a1, h, i, k) && matches_span(b, h, k, j);
                    assert(matches_span(a, h, i, k));
                } else {
                    lemma_span_concat_split(a, b, h, i + 1, j);
                    let k = choose|k: int| #[trigger] matches_span(a, h, i + 1, k) && matches_span(b, h, k, j);
                    lemma_span_forward(a, h, i + 1, k);
                    assert(matches_span(a, h, i, k));
                }
            },
            Piece::Root | Piece::End => {
                lemma_span_concat_split(a1, b, h, i, j);
                let k = choose|k: int| #[trigger] matches_span(a1, h, i, k) && matches_span(b, h, k, j);
                assert(matches_span(a, h, i, k));
            },
            Piece::OneInSegment | Piece::Char(_) | Piece::DirEnd => {
                lemma_span_concat_split(a1, b, h, i + 1, j);
                let k = choose|k: int| #[trigger] matches_span(a1, h, i + 1, k) && matches_span(b, h, k, j);
                assert(matches_span(a, h, i, k));
            },
            Piece::SegmentStart | Piece::OptionalSlash | Piece::SegmentEnd => {
                if matches_span(a1 + b, h, i, j) && (a[0] == Piece::OptionalSlash || (a[0]
                    == Piece::SegmentStart && i == 0) || (a[0] == Piece::SegmentEnd && i
                    == h.len())) {
                    lemma_span_concat_split(a1, b, h, i, j);
                    let k = choose|k: int| #[trigger] matches_span(a1, h, i, k) && matches_span(b, h, k, j);
                    assert(matches_span(a, h, i, k));
                } else {
                    lemma_span_concat_split(a1, b, h, i + 1, j);
                    let k = choose|k: int| #[trigger] matches_span(a1, h, i + 1, k) && matches_span(b, h, k, j);
                    assert(matches_span(a, h, i, k));
                }
            },
            Piece::Nothing => {},
        }
    }
}

/// `[^/]*` followed by `rest` spans any run of characters without `/` before
/// what `rest` spans.
pub proof fn lemma_any_in_segment_spans(rest: Seq<Piece>, h: Seq<char>, i: int, k: int, j: int)
    requires
        0 <= i <= k <= j,
        k <= h.len(),
        forall|m: int| i <= m < k ==> h[m] != '/',
        matches_span(rest, h, k, j),
    ensures
        matches_span(seq![Piece::AnyInSegment] + rest, h, i, j),
    decreases k - i,
{
    let ps = seq![Piece::AnyInSegment] + rest;
    assert(ps[0] == Piece::AnyInSegment);
    assert(ps.drop_first() =~= rest);
    if i < k {
        lemma_any_in_segment_spans(rest, h, i + 1, k, j);
    }
}

/// `[^/]*[^/]*` followed by `rest` spans exactly what `[^/]*` followed by
/// `rest` spans.
pub proof fn lemma_two_segment_runs_as_one(rest: Seq<Piece>, h: Seq<char>, i: int, j: int)
    requires
        0 <= i <= j <= h.len(),
    ensures
        matches_span(seq![Piece::AnyInSegment] + (seq![Piece::AnyInSegment] + rest), h, i, j)
            <==> matches_span(seq![Piece::AnyInSegment] + rest, h, i, j),
{
    let one = seq![Piece::AnyInSegment] + rest;
    let two = seq![Piece::AnyInSegment] + one;
    assert(two[0] == Piece::AnyInSegment);
    assert(two.drop_first() =~= one);
    if matches_span(two, h, i, j) {
        lemma_any_in_segment_stays(one, h, i, j);
        let k1 = choose|k: int|
            i <= k <= j && (forall|m: int| i <= m < k ==> h[m] != '/') && #[trigger] matches_span(
                one,
                h,
                k,
                j,
            );
        lemma_any_in_segment_stays(rest, h, k1, j);
        let k2 = choose|k: int|
            k1 <= k <= j && (forall|m: int| k1 <= m < k ==> h[m] != '/') && #[trigger] matches_span(
                rest,
                h,
                k,
                j,
            );
        lemma_any_in_segment_spans(rest, h, i, k2, j);
    }
}

/// After any constructs `a`, `[^/]*[^/]*` followed by `t` matches the same
/// paths as `[^/]*` followed by `t`.
pub proof fn lemma_two_segment_runs_as_one_after(a: Seq<Piece>, t: Seq<Piece>, h: Seq<char>)
    ensures
        pieces_match(a + (seq![Piece::AnyInSegment] + (seq![Piece::AnyInSegment] + t)), h)
            == pieces_match(a + (seq![Piece::AnyInSegment] + t), h),
{
    let one = seq![Piece::AnyInSegment] + t;
    let two = seq![Piece::AnyInSegment] + one;
    if pieces_match(a + two, h) {
        let (i, j) = choose|i: int, j: int|
            0 <= i <= j <= h.len() && #[trigger] matches_span(a + two, h, i, j);
        lemma_span_concat_split(a, two, h, i, j);
        let k = choose|k: int| #[trigger] matches_span(a, h, i, k) && matches_span(two, h, k, j);
        lemma_span_forward(a, h, i, k);
        lemma_span_forward(two, h, k, j);
        lemma_two_segment_runs_as_one(t, h, k, j);
        lemma_span_concat_join(a, one, h, i, k, j);
        assert(matches_span(a + one, h, i, j));
    }
    if pieces_match(a + one, h) {
        let (i, j) = choose|i: int, j: int|
            0 <= i <= j <= h.len() && #[trigger] matches_span(a + one, h, i, j);
        lemma_span_concat_split(a, one, h, i, j);
        let k = choose|k: int| #[trigger] matches_span(a, h, i, k) && matches_span(one, h, k, j);
        lemma_span_forward(a, h, i, k);
        lemma_span_forward(one, h, k, j);
        lemma_two_segment_runs_as_one(t, h, k, j);
        lemma_span_concat_join(a, two, h, i, k, j);
        assert(matches_span(a + two, h, i, j));
    }
}

} // verus!
