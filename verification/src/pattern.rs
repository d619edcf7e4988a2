//! Regular expressions, as `fancy_regex` matches them.
use vstd::prelude::*;

verus! {

/// What `fancy_regex` finds when it compiles `pattern` and searches `text`
/// for the first match: nothing where the pattern does not compile, the
/// search gives up or no part of `text` matches; else the groups of the
/// first match, the whole match as group 0 and then the groups of the
/// pattern in their order, each with the part of `text` that it matched, or
/// nothing where the group took no part in the match.
pub uninterp spec fn regex_captures(pattern: Seq<char>, text: Seq<char>) -> Option<
    Seq<Option<Seq<char>>>,
>;

/// `fancy_regex::Regex::new` on `pattern`, then `Regex::captures` on `text`,
/// with `Captures::len`, `Captures::get` and `Match::as_str` to copy the
/// groups out. The contract only gives the result its name: the same pattern
/// and text always give the same groups.
#[verifier::external_body]
pub(crate) fn captures(pattern: &str, text: &str) -> (groups: Option<Vec<Option<String>>>)
    ensures
        groups.deep_view() == regex_captures(pattern@, text@),
{
    let regex = fancy_regex::Regex::new(pattern).ok()?;
    let found = regex.captures(text).ok()??;
    Some((0..found.len()).map(|i| found.get(i).map(|m| m.as_str().to_string())).collect())
}

} // verus!
