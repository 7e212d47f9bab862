//! Searching a text for a regular expression.

use vstd::prelude::*;

verus! {

/// A compiled regular expression.
#[verifier::external_type_specification]
#[verifier::external_body]
pub struct ExExpression(regex::Regex);

/// The text of the leftmost match of a compiled expression in `haystack`;
/// `None` where nothing matches.
pub uninterp spec fn match_in(expression: regex::Regex, haystack: Seq<char>) -> Option<Seq<char>>;

/// The text of the leftmost match of the regular expression `pattern` in
/// `haystack`; `None` where nothing matches or the engine does not take the
/// pattern.
pub uninterp spec fn first_match(pattern: Seq<char>, haystack: Seq<char>) -> Option<Seq<char>>;

/// Whether `compiled` is what compiling `pattern` gives: an expression that
/// finds in every text what the pattern matches there, or nothing where the
/// pattern matches in no text.
pub open spec fn compiled_from(compiled: Option<regex::Regex>, pattern: Seq<char>) -> bool {
    match compiled {
        Some(expression) => forall|haystack: Seq<char>|
            (#[trigger] match_in(expression, haystack)) == first_match(pattern, haystack),
        None => forall|haystack: Seq<char>| (#[trigger] first_match(pattern, haystack)) is None,
    }
}

/// What an optional string holds, as text.
pub open spec fn text_of(found: Option<String>) -> Option<Seq<char>> {
    match found {
        Some(text) => Some(text@),
        None => None,
    }
}

/// Compiles `pattern` with `regex::Regex::new`. `first_match` names what
/// an expression compiled from `pattern` finds, so the expression that comes
/// back finds just that; where none comes back the engine does not take the
/// pattern, and then `first_match` is `None` for every text.
#[verifier::external_body]
pub(crate) fn compile(pattern: &str) -> (compiled: Option<regex::Regex>)
    ensures
        match compiled {
            Some(expression) => forall|haystack: Seq<char>|
                (#[trigger] match_in(expression, haystack)) == first_match(pattern@, haystack),
            None => forall|haystack: Seq<char>|
                (#[trigger] first_match(pattern@, haystack)) is None,
        },
{
    regex::Regex::new(pattern).ok()
}

/// Searches `haystack` with `regex::Regex::find` and hands back the matched
/// text (`Match::as_str`). The search keeps nothing from one call to the
/// next: what comes back depends on the expression and on the text alone.
/// The contract names it `match_in` and claims no more.
#[verifier::external_body]
pub(crate) fn find(expression: &regex::Regex, haystack: &str) -> (found: Option<String>)
    ensures
        text_of(found) == match_in(*expression, haystack@),
{
    expression.find(haystack).map(|hit| hit.as_str().to_string())
}

} // verus!
