//! Identifiers of shards, workers and parents, held as the 128-bit value of a UUID.

use vstd::prelude::*;

verus! {

/// The 128-bit value of the UUID that `uuid::Uuid::parse_str` reads from `text`,
/// or `None` where it refuses the text.
pub uninterp spec fn uuid_parsed(text: Seq<char>) -> Option<u128>;

/// The bits that every version-4 UUID carries: version 4 and the RFC 4122 variant.
pub open spec fn is_v4_id(id: u128) -> bool {
    &&& (id >> 76u128) & 0xfu128 == 4u128
    &&& (id >> 62u128) & 3u128 == 2u128
}

/// A fresh random identifier from `uuid::Uuid::new_v4`, as its 128-bit value.
///
/// Trusted: the value is random, so nothing is claimed of it beyond the two bit
/// fields that `new_v4` always sets (version 4 and the RFC 4122 variant).
#[verifier::external_body]
pub(crate) fn new_v4_id() -> (id: u128)
    ensures
        is_v4_id(id),
{
    uuid::Uuid::new_v4().as_u128()
}

/// Parses a UUID with `uuid::Uuid::parse_str` and hands back its 128-bit value.
///
/// Trusted: the result is named by [`uuid_parsed`], a function of the text alone;
/// which texts the parser accepts is left to the `uuid` crate.
#[verifier::external_body]
pub(crate) fn parse_uuid(text: &str) -> (res: Option<u128>)
    ensures
        res == uuid_parsed(text@),
{
    match uuid::Uuid::parse_str(text) {
        Ok(u) => Some(u.as_u128()),
        Err(_) => None,
    }
}

} // verus!
