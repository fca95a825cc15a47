//! The pattern translator: spec functions that state the regular expression
//! text owed for a pattern, and the executable translation proved against them.
use vstd::prelude::*;

use crate::semantics::{lemma_render_concat, piece_text, render, Piece};

verus! {

/// Start of the haystack: an anchored pattern begins here.
pub const ROOT: &'static str = "\\A";

/// Start of the haystack or just after a `/`: where a pattern without an
/// inner `/` may begin, that is at any path segment.
pub const SEGMENT_START: &'static str = "(?:\\A|/)";

/// The leading `/` of a rooted pattern, which the path may omit.
pub const OPTIONAL_SLASH: &'static str = "/?";

/// A whole-segment `**`: any run of characters, `/` included.
pub const ANY_DEPTH: &'static str = "(?s:.)*";

/// A `*`: any run of characters other than `/`.
pub const ANY_IN_SEGMENT: &'static str = "[^/]*";

/// A `?`: exactly one character other than `/`.
pub const ONE_IN_SEGMENT: &'static str = "[^/]";

/// End of a directory-only pattern: the path goes on with a `/`.
pub const DIR_END: &'static str = "/";

/// End of a pattern ending in `/*`: nothing may follow.
pub const SHALLOW_END: &'static str = "\\z";

/// End of any other pattern: end of the path, or a `/` that leads into it.
pub const SEGMENT_END: &'static str = "(?:\\z|/)";

/// The whole expression for the empty pattern: an empty class, which matches
/// no path at all.
pub const NOTHING: &'static str = "[^\\s\\S]";

/// The characters that `regex::escape` puts a backslash before.
pub open spec fn is_regex_meta(c: char) -> bool {
    c == '\\' || c == '.' || c == '+' || c == '*' || c == '?' || c == '(' || c == ')'
        || c == '|' || c == '[' || c == ']' || c == '{' || c == '}' || c == '^' || c == '$'
        || c == '#' || c == '&' || c == '-' || c == '~'
}

/// The expression that matches the character `c` literally.
pub open spec fn escaped(c: char) -> Seq<char> {
    if is_regex_meta(c) {
        seq!['\\', c]
    } else {
        seq![c]
    }
}

/// Relies on `regex::escape`: a backslash goes before each meta character,
/// every other character stands as it is.
#[verifier::external_body]
fn escape_char(c: char) -> (r: String)
    ensures
        r@ == escaped(c),
{
    regex::escape(&c.to_string())
}

/// A pattern is anchored when it holds a `/` before its last character.
pub open spec fn is_anchored(p: Seq<char>) -> bool {
    exists|i: int| 0 <= i < p.len() - 1 && p[i] == '/'
}

/// A pattern ending in `/` only matches directories.
pub open spec fn is_dir_only(p: Seq<char>) -> bool {
    p.len() > 0 && p.last() == '/'
}

/// The pattern without the one trailing `/` of a directory-only pattern.
pub open spec fn stem(p: Seq<char>) -> Seq<char> {
    if is_dir_only(p) {
        p.drop_last()
    } else {
        p
    }
}

/// A stem ending in `/*` matches only entries directly inside that directory.
pub open spec fn is_shallow(b: Seq<char>) -> bool {
    b.len() > 1 && b[b.len() - 2] == '/' && b[b.len() - 1] == '*'
}

/// An anchored pattern whose stem begins with `/`: that slash is optional.
pub open spec fn has_root_slash(p: Seq<char>) -> bool {
    is_anchored(p) && stem(p).len() > 0 && stem(p)[0] == '/'
}

/// Where the translation of the stem's characters begins.
pub open spec fn body_start(p: Seq<char>) -> int {
    if has_root_slash(p) {
        1
    } else {
        0
    }
}

/// A `**` at `i` that makes up a whole path segment: at the start of the stem
/// or after a `/`, and at its end or before a `/`.
pub open spec fn is_double_star_segment(b: Seq<char>, i: int) -> bool {
    &&& 0 <= i
    &&& i + 1 < b.len()
    &&& b[i] == '*'
    &&& b[i + 1] == '*'
    &&& (i == 0 || b[i - 1] == '/')
    &&& (i + 2 == b.len() || b[i + 2] == '/')
}

/// The translation of the characters of `b` from position `i` on.
pub open spec fn body_text(b: Seq<char>, i: int) -> Seq<char>
    decreases b.len() - i,
{
    if i < 0 || i >= b.len() {
        Seq::empty()
    } else if is_double_star_segment(b, i) {
        ANY_DEPTH@ + body_text(b, i + 2)
    } else if b[i] == '*' {
        ANY_IN_SEGMENT@ + body_text(b, i + 1)
    } else if b[i] == '?' {
        ONE_IN_SEGMENT@ + body_text(b, i + 1)
    } else {
        escaped(b[i]) + body_text(b, i + 1)
    }
}

/// Where a match may begin.
pub open spec fn start_text(p: Seq<char>) -> Seq<char> {
    if is_anchored(p) {
        ROOT@
    } else {
        SEGMENT_START@
    }
}

/// What must follow the matched text.
pub open spec fn end_text(p: Seq<char>) -> Seq<char> {
    if is_dir_only(p) {
        DIR_END@
    } else if is_shallow(stem(p)) {
        SHALLOW_END@
    } else {
        SEGMENT_END@
    }
}

/// The regular expression owed for the pattern `p`. The empty pattern matches
/// nothing; the single backslash matches a literal backslash entry; any other
/// pattern is a start, the optional root slash, its translated stem and an end.
pub open spec fn regex_text(p: Seq<char>) -> Seq<char> {
    if p.len() == 0 {
        NOTHING@
    } else if p == seq!['\\'] {
        escaped('\\') + SEGMENT_END@
    } else {
        start_text(p) + (if has_root_slash(p) {
            OPTIONAL_SLASH@
        } else {
            Seq::empty()
        }) + body_text(stem(p), body_start(p)) + end_text(p)
    }
}

/// The constructs for the characters of `b` from position `i` on.
pub open spec fn body_pieces(b: Seq<char>, i: int) -> Seq<Piece>
    decreases b.len() - i,
{
    if i < 0 || i >= b.len() {
        Seq::empty()
    } else if is_double_star_segment(b, i) {
        seq![Piece::AnyDepth] + body_pieces(b, i + 2)
    } else if b[i] == '*' {
        seq![Piece::AnyInSegment] + body_pieces(b, i + 1)
    } else if b[i] == '?' {
        seq![Piece::OneInSegment] + body_pieces(b, i + 1)
    } else {
        char_pieces(b[i]) + body_pieces(b, i + 1)
    }
}

/// The construct for a character matched literally.
pub open spec fn char_pieces(c: char) -> Seq<Piece> {
    seq![Piece::Char(c)]
}

/// The construct where a match may begin.
pub open spec fn start_piece(p: Seq<char>) -> Piece {
    if is_anchored(p) {
        Piece::Root
    } else {
        Piece::SegmentStart
    }
}

/// The construct that must follow the matched text.
pub open spec fn end_piece(p: Seq<char>) -> Piece {
    if is_dir_only(p) {
        Piece::DirEnd
    } else if is_shallow(stem(p)) {
        Piece::End
    } else {
        Piece::SegmentEnd
    }
}

/// The optional root slash, where the pattern has one.
pub open spec fn root_pieces(p: Seq<char>) -> Seq<Piece> {
    if has_root_slash(p) {
        seq![Piece::OptionalSlash]
    } else {
        Seq::empty()
    }
}

/// The constructs of the expression owed for the pattern `p`.
pub open spec fn pattern_pieces(p: Seq<char>) -> Seq<Piece> {
    if p.len() == 0 {
        seq![Piece::Nothing]
    } else if p == seq!['\\'] {
        seq![Piece::Char('\\'), Piece::SegmentEnd]
    } else {
        seq![start_piece(p)] + root_pieces(p) + body_pieces(stem(p), body_start(p)) + seq![
            end_piece(p),
        ]
    }
}

/// A single construct renders to its own text.
proof fn lemma_render_one(x: Piece)
    ensures
        render(seq![x]) == piece_text(x),
{
    let e = Seq::<Piece>::empty();
    assert(seq![x].drop_first() =~= e);
    assert(render(e) == Seq::<char>::empty());
    assert(seq![x][0] == x);
    assert(render(seq![x]) =~= piece_text(x));
}

/// A literal character renders to its escaped text.
proof fn lemma_render_char(c: char)
    ensures
        render(char_pieces(c)) == escaped(c),
{
    lemma_render_one(Piece::Char(c));
}

/// The constructs of a stem render to its translated text.
proof fn lemma_render_body(b: Seq<char>, i: int)
    ensures
        render(body_pieces(b, i)) == body_text(b, i),
    decreases b.len() - i,
{
    if i < 0 || i >= b.len() {
    } else if is_double_star_segment(b, i) {
        lemma_render_body(b, i + 2);
        lemma_render_concat(seq![Piece::AnyDepth], body_pieces(b, i + 2));
        lemma_render_one(Piece::AnyDepth);
    } else if b[i] == '*' {
        lemma_render_body(b, i + 1);
        lemma_render_concat(seq![Piece::AnyInSegment], body_pieces(b, i + 1));
        lemma_render_one(Piece::AnyInSegment);
    } else if b[i] == '?' {
        lemma_render_body(b, i + 1);
        lemma_render_concat(seq![Piece::OneInSegment], body_pieces(b, i + 1));
        lemma_render_one(Piece::OneInSegment);
    } else {
        lemma_render_body(b, i + 1);
        lemma_render_concat(char_pieces(b[i]), body_pieces(b, i + 1));
        lemma_render_char(b[i]);
    }
}

/// The expression owed for a pattern is the text of its constructs.
pub proof fn lemma_pattern_pieces_render(p: Seq<char>)
    ensures
        render(pattern_pieces(p)) == regex_text(p),
{
    if p.len() == 0 {
        lemma_render_one(Piece::Nothing);
    } else if p == seq!['\\'] {
        lemma_render_concat(seq![Piece::Char('\\')], seq![Piece::SegmentEnd]);
        assert(seq![Piece::Char('\\')] + seq![Piece::SegmentEnd] =~= pattern_pieces(p));
        lemma_render_one(Piece::Char('\\'));
        lemma_render_one(Piece::SegmentEnd);
    } else {
        let a = seq![start_piece(p)];
        let r = root_pieces(p);
        let b = body_pieces(stem(p), body_start(p));
        let e = seq![end_piece(p)];
        lemma_render_concat(a, r);
        lemma_render_concat(a + r, b);
        lemma_render_concat(a + r + b, e);
        lemma_render_one(start_piece(p));
        lemma_render_one(end_piece(p));
        if has_root_slash(p) {
            lemma_render_one(Piece::OptionalSlash);
        } else {
            assert(render(r) =~= Seq::<char>::empty());
        }
        lemma_render_body(stem(p), body_start(p));
        assert(render(pattern_pieces(p)) =~= regex_text(p));
    }
}

/// The characters of `s`, in order, as a random-access vector.
fn chars_of(s: &str) -> (r: Vec<char>)
    ensures
        r@ == s@,
{
    let mut out: Vec<char> = Vec::new();
    for c in it: s.chars()
        invariant
            out@ == it.history(),
    {
        out.push(c);
    }
    out
}

/// Whether a `/` stands before the last character of `p`.
fn find_anchor(p: &Vec<char>) -> (r: bool)
    ensures
        r == is_anchored(p@),
{
    let mut i: usize = 0;
    while i < p.len()
        invariant
            forall|j: int| 0 <= j < i && j < p.len() - 1 ==> p@[j] != '/',
        decreases p.len() - i,
    {
        if p[i] == '/' && i + 1 < p.len() {
            return true;
        }
        i = i + 1;
    }
    false
}

/// Translates the characters of `p` before `len`, from position `start` on,
/// appending the result to `out`.
fn translate_body(p: &Vec<char>, len: usize, start: usize, out: &mut String)
    requires
        len <= p.len(),
        start <= len,
    ensures
        final(out)@ == old(out)@ + body_text(p@.subrange(0, len as int), start as int),
{
    let ghost b = p@.subrange(0, len as int);
    let ghost head = old(out)@;
    let mut i: usize = start;
    while i < len
        invariant
            b == p@.subrange(0, len as int),
            len <= p.len(),
            start <= i <= len,
            out@ + body_text(b, i as int) == head + body_text(b, start as int),
        decreases len - i,
    {
        let ghost before = out@;
        let c = p[i];
        let double = c == '*' && i + 1 < len && p[i + 1] == '*' && (i == 0 || p[i - 1] == '/')
            && (i + 2 == len || p[i + 2] == '/');
        if double {
            assert(is_double_star_segment(b, i as int));
            out.append(ANY_DEPTH);
            assert(out@ + body_text(b, i + 2) =~= before + body_text(b, i as int));
            i = i + 2;
        } else if c == '*' {
            out.append(ANY_IN_SEGMENT);
            assert(out@ + body_text(b, i + 1) =~= before + body_text(b, i as int));
            i = i + 1;
        } else if c == '?' {
            out.append(ONE_IN_SEGMENT);
            assert(out@ + body_text(b, i + 1) =~= before + body_text(b, i as int));
            i = i + 1;
        } else {
            let lit = escape_char(c);
            out.append(lit.as_str());
            assert(out@ + body_text(b, i + 1) =~= before + body_text(b, i as int));
            i = i + 1;
        }
    }
    assert(body_text(b, i as int) =~= Seq::empty());
    assert(out@ =~= head + body_text(b, start as int));
}

/// The text of the regular expression that decides whether a path is covered
/// by the pattern.
pub fn regex_source(pattern: &str) -> (r: String)
    ensures
        r@ == regex_text(pattern@),
{
    let p = chars_of(pattern);
    let n = p.len();
    let mut out = String::new();
    if n == 0 {
        out.append(NOTHING);
        return out;
    }
    if n == 1 && p[0] == '\\' {
        assert(pattern@ =~= seq!['\\']);
        let lit = escape_char('\\');
        out.append(lit.as_str());
        out.append(SEGMENT_END);
        return out;
    }
    assert(pattern@ != seq!['\\']);
    let anchored = find_anchor(&p);
    let dir_only = p[n - 1] == '/';
    let len: usize = if dir_only {
        n - 1
    } else {
        n
    };
    let ghost b = p@.subrange(0, len as int);
    assert(b =~= stem(pattern@));
    let shallow = len > 1 && p[len - 2] == '/' && p[len - 1] == '*';
    if anchored {
        out.append(ROOT);
    } else {
        out.append(SEGMENT_START);
    }
    let mut start: usize = 0;
    if anchored && len > 0 && p[0] == '/' {
        out.append(OPTIONAL_SLASH);
        start = 1;
    } else {
        assert(out@ =~= out@ + Seq::<char>::empty());
    }
    translate_body(&p, len, start, &mut out);
    if dir_only {
        out.append(DIR_END);
    } else if shallow {
        out.append(SHALLOW_END);
    } else {
        out.append(SEGMENT_END);
    }
    assert(out@ =~= regex_text(pattern@));
    out
}

} // verus!
