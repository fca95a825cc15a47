//! Laws of the compiled patterns: which paths a pattern matches, stated over
//! the meaning of its constructs, and proved.
use vstd::prelude::*;

use crate::matcher::{pattern_matches, regex_accepts, regex_matches, Matcher};
use crate::semantics::{
    char_at, lemma_any_depth_spans, lemma_any_in_segment_stays, lemma_span_concat_join,
    lemma_span_concat_split, lemma_span_forward, lemma_two_segment_runs_as_one, lemma_two_segment_runs_as_one_after,
    matches_span,
    pieces_match, Piece,
};
use crate::translate::{
    body_pieces, end_piece, has_root_slash, is_anchored, is_dir_only, is_double_star_segment,
    char_pieces, is_shallow, pattern_pieces, body_start, regex_text, root_pieces, start_piece, stem,
};

verus! {

/// Compiling the same pattern twice gives the same outcome: both give a
/// matcher or neither does, and two such matchers answer alike on every path.
pub proof fn lemma_same_pattern_same_answers(
    pattern: Seq<char>,
    first: Option<Matcher>,
    second: Option<Matcher>,
    path: Seq<char>,
)
    requires
        first is Some <==> regex_accepts(regex_text(pattern)),
        first matches Some(m) ==> m@ == regex_text(pattern),
        second is Some <==> regex_accepts(regex_text(pattern)),
        second matches Some(m) ==> m@ == regex_text(pattern),
    ensures
        first is Some <==> second is Some,
        first is Some ==> regex_matches(first->0@, path) == regex_matches(second->0@, path),
{
}

/// The pattern that is a single backslash matches a path exactly where a
/// backslash stands at the end of the path or before a `/`.
pub proof fn lemma_single_backslash_matches(path: Seq<char>)
    ensures
        pattern_matches(seq!['\\'], path) <==> exists|i: int|
            #[trigger] char_at(path, i, '\\') && (i + 1 == path.len() || path[i + 1] == '/'),
{
    let ps = pattern_pieces(seq!['\\']);
    let tail = ps.drop_first();
    let e = tail.drop_first();
    assert(ps == seq![Piece::Char('\\'), Piece::SegmentEnd]);
    assert(ps[0] == Piece::Char('\\'));
    assert(tail[0] == Piece::SegmentEnd);
    assert(tail.len() == 1);
    assert(e.len() == 0);
    if pattern_matches(seq!['\\'], path) {
        let (i, j) = choose|i: int, j: int|
            0 <= i <= j <= path.len() && #[trigger] matches_span(ps, path, i, j);
        assert(char_at(path, i, '\\'));
        assert(matches_span(tail, path, i + 1, j));
        assert(i + 1 == path.len() || path[i + 1] == '/');
    }
    if exists|i: int|
        #[trigger] char_at(path, i, '\\') && (i + 1 == path.len() || path[i + 1] == '/') {
        let i = choose|i: int|
            #[trigger] char_at(path, i, '\\') && (i + 1 == path.len() || path[i + 1] == '/');
        if i + 1 == path.len() {
            assert(matches_span(e, path, i + 1, i + 1));
            assert(matches_span(tail, path, i + 1, i + 1));
            assert(matches_span(ps, path, i, i + 1));
        } else {
            assert(char_at(path, i + 1, '/'));
            assert(matches_span(e, path, i + 2, i + 2));
            assert(matches_span(tail, path, i + 1, i + 2));
            assert(matches_span(ps, path, i, i + 2));
        }
        assert(pieces_match(ps, path));
    }
}

/// A whole-segment `**` spans any run of characters, across any number of
/// `/`, before what the rest of the stem spans.
pub proof fn lemma_double_star_segment_spans_any_depth(
    b: Seq<char>,
    i: int,
    h: Seq<char>,
    x: int,
    k: int,
    y: int,
)
    requires
        is_double_star_segment(b, i),
        0 <= x <= k <= y,
        k <= h.len(),
        matches_span(body_pieces(b, i + 2), h, k, y),
    ensures
        matches_span(body_pieces(b, i), h, x, y),
{
    assert(body_pieces(b, i) == seq![Piece::AnyDepth] + body_pieces(b, i + 2));
    lemma_any_depth_spans(body_pieces(b, i + 2), h, x, k, y);
}

/// A `**` inside a segment spans only a run of characters without `/` before
/// what the rest of the stem spans: it never crosses into another directory.
pub proof fn lemma_double_star_inside_segment_spans_one_segment(
    b: Seq<char>,
    i: int,
    h: Seq<char>,
    x: int,
    y: int,
)
    requires
        0 <= i,
        i + 1 < b.len(),
        b[i] == '*',
        b[i + 1] == '*',
        !is_double_star_segment(b, i),
        !is_double_star_segment(b, i + 1),
        matches_span(body_pieces(b, i), h, x, y),
    ensures
        exists|k: int|
            x <= k <= y && (forall|m: int| x <= m < k ==> h[m] != '/') && #[trigger] matches_span(
                body_pieces(b, i + 2),
                h,
                k,
                y,
            ),
{
    let rest = body_pieces(b, i + 2);
    let inner = seq![Piece::AnyInSegment] + rest;
    assert(body_pieces(b, i + 1) == inner);
    assert(body_pieces(b, i) == seq![Piece::AnyInSegment] + inner);
    lemma_any_in_segment_stays(inner, h, x, y);
    let k1 = choose|k: int|
        x <= k <= y && (forall|m: int| x <= m < k ==> h[m] != '/') && #[trigger] matches_span(
            inner,
            h,
            k,
            y,
        );
    lemma_any_in_segment_stays(rest, h, k1, y);
    let k2 = choose|k: int|
        k1 <= k <= y && (forall|m: int| k1 <= m < k ==> h[m] != '/') && #[trigger] matches_span(
            rest,
            h,
            k,
            y,
        );
    assert(forall|m: int| x <= m < k2 ==> h[m] != '/');
}

/// Whether a path segment begins at `s`: the start of the path or just after
/// a `/`.
pub open spec fn is_segment_start(h: Seq<char>, s: int) -> bool {
    s == 0 || (0 < s <= h.len() && h[s - 1] == '/')
}

/// Whether a path segment ends at `e`: the end of the path or just before a
/// `/`.
pub open spec fn is_segment_end(h: Seq<char>, e: int) -> bool {
    e == h.len() || (0 <= e < h.len() && h[e] == '/')
}

/// A non-empty pattern with no `/` (other than the single backslash) matches
/// a path exactly when its characters match a stretch of the path that begins
/// and ends at segment boundaries: it is matched segment by segment, at any
/// depth.
pub proof fn lemma_no_slash_pattern_matches_by_segment(p: Seq<char>, path: Seq<char>)
    requires
        p.len() > 0,
        p != seq!['\\'],
        forall|i: int| 0 <= i < p.len() ==> p[i] != '/',
    ensures
        pattern_matches(p, path) <==> exists|s: int, e: int|
            0 <= s <= e <= path.len() && is_segment_start(path, s) && is_segment_end(path, e)
                && #[trigger] matches_span(body_pieces(p, 0), path, s, e),
{
    let h = path;
    assert(!is_anchored(p));
    assert(!is_dir_only(p));
    assert(stem(p) == p);
    assert(!is_shallow(p));
    assert(!has_root_slash(p));
    let b = body_pieces(p, 0);
    let first = seq![Piece::SegmentStart];
    let last = seq![Piece::SegmentEnd];
    let ps = pattern_pieces(p);
    assert(start_piece(p) == Piece::SegmentStart);
    assert(end_piece(p) == Piece::SegmentEnd);
    assert(root_pieces(p) =~= Seq::<Piece>::empty());
    assert(ps =~= first + (b + last));
    let e0 = Seq::<Piece>::empty();
    assert(first[0] == Piece::SegmentStart && first.drop_first() =~= e0);
    assert(last[0] == Piece::SegmentEnd && last.drop_first() =~= e0);
    if pattern_matches(p, path) {
        let (i, j) = choose|i: int, j: int|
            0 <= i <= j <= h.len() && #[trigger] matches_span(ps, h, i, j);
        lemma_span_concat_split(first, b + last, h, i, j);
        let k1 = choose|k: int| #[trigger] matches_span(first, h, i, k) && matches_span(b + last, h, k, j);
        lemma_span_concat_split(b, last, h, k1, j);
        let k2 = choose|k: int| #[trigger] matches_span(b, h, k1, k) && matches_span(last, h, k, j);
        lemma_span_forward(first, h, i, k1);
        lemma_span_forward(b, h, k1, k2);
        lemma_span_forward(last, h, k2, j);
        if i == 0 && matches_span(e0, h, i, k1) {
            assert(k1 == 0);
        } else {
            assert(matches_span(e0, h, i + 1, k1));
            assert(k1 == i + 1);
        }
        assert(is_segment_start(h, k1));
        assert(is_segment_end(h, k2));
        assert(0 <= k1 <= k2 <= h.len() && is_segment_start(h, k1) && is_segment_end(h, k2)
            && matches_span(b, h, k1, k2));
    }
    if exists|s: int, e: int|
        0 <= s <= e <= h.len() && is_segment_start(h, s) && is_segment_end(h, e)
            && #[trigger] matches_span(b, h, s, e) {
        let (s, e) = choose|s: int, e: int|
            0 <= s <= e <= h.len() && is_segment_start(h, s) && is_segment_end(h, e)
                && #[trigger] matches_span(b, h, s, e);
        let i = if s == 0 {
            0
        } else {
            s - 1
        };
        let j = if e == h.len() {
            e
        } else {
            e + 1
        };
        assert(matches_span(e0, h, s, s));
        assert(matches_span(e0, h, j, j));
        assert(matches_span(first, h, i, s));
        assert(matches_span(last, h, e, j));
        lemma_span_concat_join(b, last, h, s, e, j);
        lemma_span_concat_join(first, b + last, h, i, s, j);
        assert(matches_span(ps, h, i, j));
        assert(pieces_match(ps, h));
    }
}

/// A directory-only pattern with no other `/` matches a path exactly when the
/// characters before its `/` match a stretch of the path that begins at a
/// segment boundary and is followed by a `/`, at any depth.
pub proof fn lemma_dir_only_pattern_matches_by_segment(p: Seq<char>, path: Seq<char>)
    requires
        p.len() > 1,
        p.last() == '/',
        forall|i: int| 0 <= i < p.len() - 1 ==> p[i] != '/',
    ensures
        pattern_matches(p, path) <==> exists|s: int, e: int|
            0 <= s <= e < path.len() && is_segment_start(path, s) && path[e] == '/'
                && #[trigger] matches_span(body_pieces(p.drop_last(), 0), path, s, e),
{
    let h = path;
    assert(!is_anchored(p));
    assert(is_dir_only(p));
    assert(p != seq!['\\']) by {
        if p == seq!['\\'] {
            assert(p.len() == 1);
        }
    }
    assert(!has_root_slash(p));
    let b = body_pieces(p.drop_last(), 0);
    let first = seq![Piece::SegmentStart];
    let last = seq![Piece::DirEnd];
    let ps = pattern_pieces(p);
    assert(start_piece(p) == Piece::SegmentStart);
    assert(end_piece(p) == Piece::DirEnd);
    assert(root_pieces(p) =~= Seq::<Piece>::empty());
    assert(ps =~= first + (b + last));
    let e0 = Seq::<Piece>::empty();
    assert(first[0] == Piece::SegmentStart && first.drop_first() =~= e0);
    assert(last[0] == Piece::DirEnd && last.drop_first() =~= e0);
    if pattern_matches(p, path) {
        let (i, j) = choose|i: int, j: int|
            0 <= i <= j <= h.len() && #[trigger] matches_span(ps, h, i, j);
        lemma_span_concat_split(first, b + last, h, i, j);
        let k1 = choose|k: int| #[trigger] matches_span(first, h, i, k) && matches_span(b + last, h, k, j);
        lemma_span_concat_split(b, last, h, k1, j);
        let k2 = choose|k: int| #[trigger] matches_span(b, h, k1, k) && matches_span(last, h, k, j);
        lemma_span_forward(first, h, i, k1);
        lemma_span_forward(b, h, k1, k2);
        if i == 0 && matches_span(e0, h, i, k1) {
            assert(k1 == 0);
        } else {
            assert(matches_span(e0, h, i + 1, k1));
            assert(k1 == i + 1);
        }
        assert(char_at(h, k2, '/'));
        assert(0 <= k1 <= k2 < h.len() && is_segment_start(h, k1) && h[k2] == '/'
            && matches_span(b, h, k1, k2));
    }
    if exists|s: int, e: int|
        0 <= s <= e < h.len() && is_segment_start(h, s) && h[e] == '/'
            && #[trigger] matches_span(b, h, s, e) {
        let (s, e) = choose|s: int, e: int|
            0 <= s <= e < h.len() && is_segment_start(h, s) && h[e] == '/'
                && #[trigger] matches_span(b, h, s, e);
        let i = if s == 0 {
            0
        } else {
            s - 1
        };
        let j = e + 1;
        assert(matches_span(e0, h, s, s));
        assert(matches_span(e0, h, j, j));
        assert(matches_span(first, h, i, s));
        assert(matches_span(last, h, e, j));
        lemma_span_concat_join(b, last, h, s, e, j);
        lemma_span_concat_join(first, b + last, h, i, s, j);
        assert(matches_span(ps, h, i, j));
        assert(pieces_match(ps, h));
    }
}

/// A `**` inside a segment matches exactly what a single `*` in its place
/// matches: the two stars are two runs within one segment.
pub proof fn lemma_double_star_inside_segment_as_single_star(
    b: Seq<char>,
    i: int,
    h: Seq<char>,
    x: int,
    y: int,
)
    requires
        0 <= i,
        i + 1 < b.len(),
        b[i] == '*',
        b[i + 1] == '*',
        !is_double_star_segment(b, i),
        !is_double_star_segment(b, i + 1),
        0 <= x <= y <= h.len(),
    ensures
        matches_span(body_pieces(b, i), h, x, y) <==> matches_span(
            seq![Piece::AnyInSegment] + body_pieces(b, i + 2),
            h,
            x,
            y,
        ),
{
    let rest = body_pieces(b, i + 2);
    let inner = seq![Piece::AnyInSegment] + rest;
    assert(body_pieces(b, i + 1) == inner);
    assert(body_pieces(b, i) == seq![Piece::AnyInSegment] + inner);
    lemma_two_segment_runs_as_one(rest, h, x, y);
}

/// The constructs of a stem that begins with characters other than `*`: those
/// of the first part, then those of the rest.
proof fn lemma_body_prefix(x: Seq<char>, z: Seq<char>, i: int)
    requires
        0 <= i <= x.len(),
        forall|m: int| 0 <= m < x.len() ==> x[m] != '*',
    ensures
        body_pieces(x + z, i) == body_pieces(x, i) + body_pieces(x + z, x.len() as int),
    decreases x.len() - i,
{
    let b = x + z;
    let rest = body_pieces(b, x.len() as int);
    if i == x.len() {
        assert(body_pieces(x, i) =~= Seq::<Piece>::empty());
        assert(body_pieces(x, i) + rest =~= rest);
    } else {
        lemma_body_prefix(x, z, i + 1);
        assert(b[i] == x[i]);
        assert(!is_double_star_segment(b, i));
        assert(!is_double_star_segment(x, i));
        let head = if x[i] == '?' {
            seq![Piece::OneInSegment]
        } else {
            char_pieces(x[i])
        };
        assert(body_pieces(b, i) == head + body_pieces(b, i + 1));
        assert(body_pieces(x, i) == head + body_pieces(x, i + 1));
        assert(head + (body_pieces(x, i + 1) + rest) =~= (head + body_pieces(x, i + 1)) + rest);
    }
}

/// The constructs of a stem that ends with characters other than `*`: from
/// there on, those of that last part alone.
proof fn lemma_body_suffix(z: Seq<char>, w: Seq<char>, m: int)
    requires
        0 <= m <= w.len(),
        forall|n: int| 0 <= n < w.len() ==> w[n] != '*',
    ensures
        body_pieces(z + w, z.len() + m) == body_pieces(w, m),
    decreases w.len() - m,
{
    let b = z + w;
    if m < w.len() {
        lemma_body_suffix(z, w, m + 1);
        assert(b[z.len() + m] == w[m]);
        assert(!is_double_star_segment(b, z.len() + m));
        assert(!is_double_star_segment(w, m));
        if w[m] == '?' {
            assert(body_pieces(b, z.len() + m) == seq![Piece::OneInSegment] + body_pieces(b, z.len() + m + 1));
            assert(body_pieces(w, m) == seq![Piece::OneInSegment] + body_pieces(w, m + 1));
        } else {
            assert(body_pieces(b, z.len() + m) == char_pieces(w[m]) + body_pieces(b, z.len() + m + 1));
            assert(body_pieces(w, m) == char_pieces(w[m]) + body_pieces(w, m + 1));
        }
    }
}

/// `x**y` and `x*y` are anchored alike, where `x` and `y` hold no star.
proof fn lemma_inner_star_anchoring(x: Seq<char>, y: Seq<char>)
    requires
        x.len() > 0,
        forall|m: int| 0 <= m < x.len() ==> x[m] != '*',
        forall|m: int| 0 <= m < y.len() ==> y[m] != '*',
    ensures
        is_anchored(x + seq!['*', '*'] + y) == is_anchored(x + seq!['*'] + y),
        is_dir_only(x + seq!['*', '*'] + y) == is_dir_only(x + seq!['*'] + y),
{
    let n = x.len() as int;
    let p1 = x + seq!['*', '*'] + y;
    let p2 = x + seq!['*'] + y;
    assert(forall|m: int| 0 <= m < n ==> p1[m] == x[m] && p2[m] == x[m]);
    assert(forall|m: int| 0 <= m < y.len() ==> p1[n + 2 + m] == y[m] && p2[n + 1 + m] == y[m]);
    assert(p1[n] == '*' && p1[n + 1] == '*' && p2[n] == '*');
    if is_anchored(p1) {
        let i = choose|i: int| 0 <= i < p1.len() - 1 && p1[i] == '/';
        if i < n {
            assert(0 <= i < p2.len() - 1 && p2[i] == '/');
        } else {
            assert(p2[i - 1] == y[i - n - 2]);
            assert(0 <= i - 1 < p2.len() - 1 && p2[i - 1] == '/');
        }
    }
    if is_anchored(p2) {
        let i = choose|i: int| 0 <= i < p2.len() - 1 && p2[i] == '/';
        if i < n {
            assert(0 <= i < p1.len() - 1 && p1[i] == '/');
        } else {
            assert(p1[i + 1] == y[i - n - 1]);
            assert(0 <= i + 1 < p1.len() - 1 && p1[i + 1] == '/');
        }
    }
    if y.len() > 0 {
        assert(p1.last() == y.last() && p2.last() == y.last());
    }
}

/// The stem of `x**y` and of `x*y`, where `x` and `y` hold no star: the
/// stars between `x` and the stem's part of `y`, and never a `/*` ending.
proof fn lemma_inner_star_stems(x: Seq<char>, y: Seq<char>, y2: Seq<char>)
    requires
        x.len() > 0,
        x.last() != '/',
        forall|m: int| 0 <= m < y.len() ==> y[m] != '*',
        y2 == (if is_dir_only(x + seq!['*', '*'] + y) {
            y.drop_last()
        } else {
            y
        }),
        is_dir_only(x + seq!['*', '*'] + y) == is_dir_only(x + seq!['*'] + y),
    ensures
        stem(x + seq!['*', '*'] + y) == (x + seq!['*', '*']) + y2,
        stem(x + seq!['*'] + y) == (x + seq!['*']) + y2,
        !is_shallow(stem(x + seq!['*', '*'] + y)),
        !is_shallow(stem(x + seq!['*'] + y)),
        forall|m: int| 0 <= m < y2.len() ==> y2[m] != '*',
{
    let n = x.len() as int;
    let b1 = (x + seq!['*', '*']) + y2;
    let b2 = (x + seq!['*']) + y2;
    assert(stem(x + seq!['*', '*'] + y) =~= b1);
    assert(stem(x + seq!['*'] + y) =~= b2);
    if y2.len() > 0 {
        assert(b1[b1.len() - 1] == y2[y2.len() - 1]);
        assert(b2[b2.len() - 1] == y2[y2.len() - 1]);
    } else {
        assert(b1[b1.len() - 2] == '*');
        assert(b2[b2.len() - 2] == x[n - 1]);
    }
}

/// The constructs of the stems of `x**y` and `x*y` from `s` on: those of `x`,
/// then two runs or one, then those of the stem's part of `y`.
proof fn lemma_inner_star_bodies(x: Seq<char>, y2: Seq<char>, s: int)
    requires
        x.len() > 0,
        x.last() != '/',
        0 <= s <= x.len(),
        forall|m: int| 0 <= m < x.len() ==> x[m] != '*',
        forall|m: int| 0 <= m < y2.len() ==> y2[m] != '*',
    ensures
        body_pieces((x + seq!['*', '*']) + y2, s) == body_pieces(x, s) + (seq![Piece::AnyInSegment] + (
        seq![Piece::AnyInSegment] + body_pieces(y2, 0))),
        body_pieces((x + seq!['*']) + y2, s) == body_pieces(x, s) + (seq![Piece::AnyInSegment]
            + body_pieces(y2, 0)),
{
    let n = x.len() as int;
    let ss = seq!['*', '*'];
    let s1 = seq!['*'];
    let b1 = (x + ss) + y2;
    let b2 = (x + s1) + y2;
    assert(b1 =~= x + (ss + y2));
    assert(b2 =~= x + (s1 + y2));
    lemma_body_prefix(x, ss + y2, s);
    lemma_body_prefix(x, s1 + y2, s);
    assert(b1[n] == '*' && b1[n + 1] == '*' && b1[n - 1] == x[n - 1]);
    assert(b2[n] == '*' && b2[n - 1] == x[n - 1]);
    assert(y2.len() > 0 ==> b1[n + 2] == y2[0] && b2[n + 1] == y2[0]);
    assert(!is_double_star_segment(b1, n));
    assert(!is_double_star_segment(b1, n + 1));
    assert(!is_double_star_segment(b2, n));
    assert(body_pieces(b1, n) == seq![Piece::AnyInSegment] + body_pieces(b1, n + 1));
    assert(body_pieces(b1, n + 1) == seq![Piece::AnyInSegment] + body_pieces(b1, n + 2));
    assert(body_pieces(b2, n) == seq![Piece::AnyInSegment] + body_pieces(b2, n + 1));
    lemma_body_suffix(x + ss, y2, 0);
    lemma_body_suffix(x + s1, y2, 0);
}

/// A `**` inside a segment, between parts without stars, makes the pattern
/// match exactly the paths that a single `*` in its place would: `x**y`
/// behaves as `x*y`.
#[verifier::rlimit(40)]
pub proof fn lemma_inner_double_star_as_single_star(x: Seq<char>, y: Seq<char>, path: Seq<char>)
    requires
        x.len() > 0,
        x.last() != '/',
        forall|m: int| 0 <= m < x.len() ==> x[m] != '*',
        forall|m: int| 0 <= m < y.len() ==> y[m] != '*',
    ensures
        pattern_matches(x + seq!['*', '*'] + y, path) == pattern_matches(x + seq!['*'] + y, path),
{
    let p1 = x + seq!['*', '*'] + y;
    let p2 = x + seq!['*'] + y;
    assert(p1 != seq!['\\'] && p2 != seq!['\\']) by {
        assert(p1.len() != 1 && p2.len() != 1);
    }
    lemma_inner_star_anchoring(x, y);
    let y2 = if is_dir_only(p1) {
        y.drop_last()
    } else {
        y
    };
    lemma_inner_star_stems(x, y, y2);
    assert(stem(p1)[0] == x[0] && stem(p2)[0] == x[0]);
    assert(has_root_slash(p1) == has_root_slash(p2));
    let s = body_start(p1);
    lemma_inner_star_bodies(x, y2, s);
    let run = seq![Piece::AnyInSegment];
    let xs = body_pieces(x, s);
    let ys = body_pieces(y2, 0);
    let head = seq![start_piece(p1)] + root_pieces(p1);
    let last = seq![end_piece(p1)];
    assert(start_piece(p1) == start_piece(p2));
    assert(end_piece(p1) == end_piece(p2));
    assert(root_pieces(p1) == root_pieces(p2));
    assert(body_start(p2) == s);
    assert(pattern_pieces(p1) == head + body_pieces(stem(p1), s) + last);
    assert(pattern_pieces(p2) == head + body_pieces(stem(p2), s) + last);
    let a = head + xs;
    let t = ys + last;
    assert(head + (xs + (run + (run + ys))) + last =~= a + (run + (run + t)));
    assert(head + (xs + (run + ys)) + last =~= a + (run + t));
    lemma_two_segment_runs_as_one_after(a, t, path);
}

} // verus!
