//! Translation of one gitignore-style pattern line into a regular expression,
//! and a matcher that decides whether a candidate path is covered by it.
pub mod lemmas;
pub mod matcher;
pub mod semantics;
pub mod translate;

pub use matcher::{path_to_regex, Matcher};
pub use translate::regex_source;
