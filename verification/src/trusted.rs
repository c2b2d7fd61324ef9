//! Wrappers around the outside crates that supply identifiers, timestamps
//! and regular-expression matching. Each wrapper is a trusted item: Verus
//! believes its contract and does not read its body.

use vstd::prelude::*;

verus! {

/// Relies on uuid::Uuid::new_v4: a fresh random 128-bit identifier.
/// Nothing is promised of the value.
#[verifier::external_body]
pub fn fresh_id() -> u128 {
    uuid::Uuid::new_v4().as_u128()
}

/// Relies on chrono::Utc::now: the current time in microseconds since the
/// Unix epoch. Nothing is promised of the value.
#[verifier::external_body]
pub fn now_micros() -> i64 {
    chrono::Utc::now().timestamp_micros()
}

/// Whether the pattern is a valid regular expression.
pub uninterp spec fn regex_compiles(pattern: Seq<char>) -> bool;

/// Whether the pattern matches the text; a function of the two strings alone.
pub uninterp spec fn regex_matches(pattern: Seq<char>, text: Seq<char>) -> bool;

/// Relies on regex::Regex::new and regex::Regex::is_match: whether the
/// pattern compiles, and whether it matches the text, depend only on the
/// pattern and the text.
#[verifier::external_body]
pub(crate) fn regex_is_match(pattern: &str, text: &str) -> (r: Option<bool>)
    ensures
        r is Some <==> regex_compiles(pattern@),
        r matches Some(b) ==> b == regex_matches(pattern@, text@),
{
    regex::Regex::new(pattern).ok().map(|re| re.is_match(text))
}

} // verus!
