//! Regular-expression captures, by the `regex` crate.
use vstd::prelude::*;

use crate::html::opt_view;

verus! {

/// The outcome of looking for the first match of a pattern.
#[derive(Debug, PartialEq, Eq)]
pub enum Capture {
    /// `Regex::new` refused the pattern.
    BadPattern,
    /// The pattern does not match the text.
    NoMatch,
    /// The first match; the text of the asked-for group, if it took part.
    Group(Option<String>),
}

/// `regex::Regex::new(pattern)` succeeds.
pub uninterp spec fn pattern_compiles(pattern: Seq<char>) -> bool;

/// For the first match of `pattern` in `text` (`None` when there is none),
/// the text of capture group `group` if it took part in the match.
pub uninterp spec fn first_capture(pattern: Seq<char>, text: Seq<char>, group: nat) -> Option<
    Option<Seq<char>>,
>;

/// Compiles `pattern` (`regex::Regex::new`), finds its first match in `text`
/// (`Regex::captures`) and gives capture group `group` (`Captures::get`).
/// The contract names the outcome `first_capture(pattern, text, group)` and
/// says nothing of regex syntax or matching.
#[verifier::external_body]
pub(crate) fn capture(pattern: &str, text: &str, group: usize) -> (r: Capture)
    ensures
        r is BadPattern <==> !pattern_compiles(pattern@),
        r is NoMatch ==> first_capture(pattern@, text@, group as nat) is None,
        pattern_compiles(pattern@) && first_capture(pattern@, text@, group as nat) is None ==> r is NoMatch,
        r matches Capture::Group(g) ==> first_capture(pattern@, text@, group as nat) == Some(opt_view(g)),
{
    match regex::Regex::new(pattern) {
        Err(_) => Capture::BadPattern,
        Ok(re) => match re.captures(text) {
            None => Capture::NoMatch,
            Some(c) => Capture::Group(c.get(group).map(|m| m.as_str().to_string())),
        },
    }
}

} // verus!
