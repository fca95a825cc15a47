//! The compiled matcher: the expression text of a pattern, compiled by the
//! `regex` crate, and the query that runs it on a path.
use vstd::prelude::*;

use crate::semantics::{pieces_match, render, Piece};
use crate::translate::{lemma_pattern_pieces_render, pattern_pieces, regex_source, regex_text};

verus! {

#[verifier::external_type_specification]
#[verifier::external_body]
pub struct ExRegex(regex::Regex);

/// Whether the regular expression with text `re` finds a match anywhere in
/// `hay`: a function of the two texts alone.
pub uninterp spec fn regex_matches(re: Seq<char>, hay: Seq<char>) -> bool;

/// Whether the regex engine accepts the expression with text `re`: a function
/// of the text alone, under the engine's fixed default limits.
pub uninterp spec fn regex_accepts(re: Seq<char>) -> bool;

/// A compiled pattern: the expression text and the regex compiled from it.
/// The two fields are only ever set together, from the same text.
pub struct Matcher {
    source: String,
    regex: regex::Regex,
}

impl View for Matcher {
    type V = Seq<char>;

    /// The text of the compiled expression.
    closed spec fn view(&self) -> Seq<char> {
        self.source@
    }
}

/// Relies on `regex::Regex::new`: on success the regex is compiled from
/// `source`, which is kept beside it; an expression it refuses gives `None`.
#[verifier::external_body]
fn compile(source: String) -> (r: Option<Matcher>)
    ensures
        r is Some <==> regex_accepts(source@),
        r matches Some(m) ==> m@ == source@,
{
    match regex::Regex::new(&source) {
        Ok(regex) => Some(Matcher { source, regex }),
        Err(_) => None,
    }
}

/// Whether `path` is covered by the pattern `p`: whether the constructs of
/// its expression match somewhere in the path.
pub open spec fn pattern_matches(p: Seq<char>, path: Seq<char>) -> bool {
    pieces_match(pattern_pieces(p), path)
}

/// Relies on `regex::Regex::is_match`: whether the regex compiled from the
/// matcher's text has a match anywhere in `hay`. Where that text is made of
/// the constructs of `Piece`, the answer is what the regex syntax documents
/// for them: `\A` and `\z` hold at the start and the end of the haystack;
/// `(?:x|y)` is `x` or `y`; `/?` is an optional `/`; `(?s:.)` is any character
/// at all and `*` repeats zero or more times; `[^/]` is any character
/// but `/`; `[^\s\S]` is an empty class; an escaped meta character, or any
/// other character, matches itself; and constructs written one after another
/// match one after another.
#[verifier::external_body]
fn search(m: &Matcher, hay: &str) -> (r: bool)
    ensures
        r == regex_matches(m@, hay@),
        forall|ps: Seq<Piece>| #[trigger] render(ps) == m@ ==> (r == pieces_match(ps, hay@)),
{
    m.regex.is_match(hay)
}

impl Matcher {
    /// Whether `path` is covered by the pattern this matcher was compiled from.
    pub fn is_match(&self, path: &str) -> (r: bool)
        ensures
            r == regex_matches(self@, path@),
            forall|p: Seq<char>| #[trigger] regex_text(p) == self@ ==> (r == pattern_matches(p, path@)),
    {
        let r = search(self, path);
        assert forall|p: Seq<char>| #[trigger] regex_text(p) == self@ implies (r == pattern_matches(p, path@)) by {
            lemma_pattern_pieces_render(p);
        }
        r
    }

    /// The text of the compiled expression.
    pub fn as_str(&self) -> (r: &str)
        ensures
            r@ == self@,
    {
        self.source.as_str()
    }
}

/// Compiles one pattern line into a matcher. The expression handed to the
/// regex engine is exactly `regex_text` of the pattern; `None` exactly where the
/// engine refuses that text, which for a well-formed expression can only be one
/// of its size limits: callers treat it as fatal.
pub fn path_to_regex(pattern: &str) -> (r: Option<Matcher>)
    ensures
        r is Some <==> regex_accepts(regex_text(pattern@)),
        r matches Some(m) ==> m@ == regex_text(pattern@),
{
    compile(regex_source(pattern))
}

} // verus!
