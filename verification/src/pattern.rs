//! Regular expressions, matched by the `regex` engine that `lazy_regex`
//! hands on.

use vstd::prelude::*;
use crate::text::opt_str;

verus! {

/// The capture groups of the leftmost match of `pattern` in `text`, group 0
/// being the whole match: `None` where `pattern` does not compile,
/// `Some(None)` where nothing matches. A group that took no part in the
/// match is `None`.
pub uninterp spec fn regex_captures_of(pattern: Seq<char>, text: Seq<char>) -> Option<
    Option<Seq<Option<Seq<char>>>>,
>;

/// The contents of a list of capture groups.
pub open spec fn groups_view(groups: Seq<Option<String>>) -> Seq<Option<Seq<char>>> {
    groups.map_values(|g: Option<String>| opt_str(g))
}

/// The contents of what a search for captures returned.
pub open spec fn captures_view(caps: Option<Option<Vec<Option<String>>>>) -> Option<
    Option<Seq<Option<Seq<char>>>>,
> {
    match caps {
        None => None,
        Some(None) => Some(None),
        Some(Some(groups)) => Some(Some(groups_view(groups@))),
    }
}

/// Compiles `pattern` with `lazy_regex::Regex::new` and calls
/// `Regex::captures` on `text`, copying each group's text. Trusted: the
/// outcome depends on the two strings alone and is the one named
/// `regex_captures_of`.
#[verifier::external_body]
pub(crate) fn regex_captures(pattern: &str, text: &str) -> (r: Option<
    Option<Vec<Option<String>>>,
>)
    ensures
        captures_view(r) == regex_captures_of(pattern@, text@),
{
    match lazy_regex::Regex::new(pattern) {
        Ok(re) => Some(
            re.captures(text).map(
                |caps| caps.iter().map(|m| m.map(|g| g.as_str().to_string())).collect(),
            ),
        ),
        Err(_) => None,
    }
}

} // verus!
