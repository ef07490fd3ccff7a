//! Regular-expression matching, done by the regex crate.

use vstd::prelude::*;

verus! {

/// Capture group 1 of the leftmost match of the regular expression
/// `pattern` in `text`; `None` when nothing matches or when `pattern` is
/// not a valid expression.
pub uninterp spec fn first_capture(pattern: Seq<char>, text: Seq<char>) -> Option<Seq<char>>;

pub open spec fn opt_view(o: Option<String>) -> Option<Seq<char>> {
    match o {
        Some(s) => Some(s@),
        None => None,
    }
}

/// Relies on regex's `Regex::new` and `Regex::captures`: compiles `pattern`
/// and returns capture group 1 of the leftmost match in `text`; a pattern
/// that does not compile matches nothing.
#[verifier::external_body]
pub(crate) fn capture_first(pattern: &str, text: &str) -> (r: Option<String>)
    ensures
        opt_view(r) == first_capture(pattern@, text@),
{
    match regex::Regex::new(pattern) {
        Err(_) => None,
        Ok(re) => re.captures(text).and_then(|c| c.get(1)).map(|m| m.as_str().to_string()),
    }
}

} // verus!
