//! Minting and formatting of UUIDs. Fresh ids come from the system clock and
//! random source, so nothing is promised of their values; the textual form of
//! an id is a function of the id alone.

use vstd::prelude::*;

verus! {

/// The hyphenated textual form of a UUID, a function of the id alone.
pub uninterp spec fn uuid_text(id: u128) -> Seq<char>;

/// Relies on uuid::Uuid::now_v7: a freshly minted, time-ordered UUID.
/// Nothing can be promised of its value. The outside call reads the system
/// clock and panics if it reads before the Unix epoch - an environment
/// condition, not a condition on any input.
#[verifier::external_body]
pub fn mint_uuid_v7() -> u128 {
    uuid::Uuid::now_v7().as_u128()
}

/// Relies on uuid::Uuid::from_u128 and its hyphenated formatter, which is
/// documented to produce 36 characters determined by the id alone.
#[verifier::external_body]
pub fn uuid_to_string(id: u128) -> (r: String)
    ensures
        r@ == uuid_text(id),
        r@.len() == 36,
{
    uuid::Uuid::from_u128(id).hyphenated().to_string()
}

} // verus!
