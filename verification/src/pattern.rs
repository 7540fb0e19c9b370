use vstd::prelude::*;

use crate::check::PRICE_PATTERN;
use crate::price::{ascii_price, is_ascii_text};
use crate::text::occurs_in;

verus! {

/// The error that `regex::Regex::new` reports for a pattern it refuses.
#[verifier::external_type_specification]
#[verifier::external_body]
pub struct ExRegexError(regex::Error);

/// Whether `regex::Regex::new` accepts `pattern` (a valid pattern whose
/// compiled form stays within the default size limit).
pub uninterp spec fn regex_compiles(pattern: Seq<char>) -> bool;

/// The text of the match that `regex::Regex::find` reports for the regex
/// compiled from `pattern` when it searches `haystack`: its leftmost-first
/// match, or `None` when there is none.
pub uninterp spec fn regex_first_match(pattern: Seq<char>, haystack: Seq<char>) -> Option<
    Seq<char>,
>;

/// Compiles `pattern` with `regex::Regex::new` and searches `haystack` with
/// `regex::Regex::find`, handing back the matched text (`Match::as_str`).
///
/// Trusted: the regex crate's documentation says that `new` fails exactly
/// on invalid patterns and on patterns whose compiled form exceeds the
/// default size limit, and that `find` returns the first match, which is a
/// substring of the haystack. The receipt price pattern is valid syntax and
/// far below that limit, so it compiles. `find` reports the leftmost-first
/// match: the earliest start, and there the first alternative before the
/// second, with greedy repetitions. On a haystack of ASCII characters, where
/// the Unicode class `\d` can only match `0`-`9`, that match of the price
/// pattern is `ascii_price`. For other patterns and haystacks, which text
/// matches is left to the names `regex_compiles` and `regex_first_match`.
#[verifier::external_body]
pub(crate) fn find_first_match(pattern: &str, haystack: &str) -> (r: Result<
    Option<String>,
    regex::Error,
>)
    ensures
        r is Ok <==> regex_compiles(pattern@),
        pattern@ == PRICE_PATTERN@ ==> r is Ok,
        r matches Ok(found) ==> found.deep_view() == regex_first_match(pattern@, haystack@),
        r matches Ok(Some(t)) ==> occurs_in(t@, haystack@),
        r matches Ok(found) ==> (pattern@ == PRICE_PATTERN@ && is_ascii_text(haystack@)
            ==> found.deep_view() == ascii_price(haystack@)),
{
    match regex::Regex::new(pattern) {
        Ok(re) => Ok(re.find(haystack).map(|m| m.as_str().to_string())),
        Err(e) => Err(e),
    }
}

} // verus!
