//! UUID-shape validation. Tag identifiers must parse as UUIDs before the
//! tag-filtered listing will read any row: malformed input is rejected
//! first, and the rejection names the offending value.

use vstd::prelude::*;

verus! {

/// Whether uuid's `Uuid::parse_str` accepts the string. The accepted
/// grammar (simple, hyphenated, urn and braced forms of hexadecimal
/// digits) is a function of the characters alone.
pub uninterp spec fn uuid_accepts(s: Seq<char>) -> bool;

/// Relies on uuid's `Uuid::parse_str`: whether a string is a syntactically
/// valid UUID depends on its characters alone.
#[verifier::external_body]
pub(crate) fn is_valid_uuid(s: &str) -> (r: bool)
    ensures
        r == uuid_accepts(s@),
{
    uuid::Uuid::parse_str(s).is_ok()
}

} // verus!
