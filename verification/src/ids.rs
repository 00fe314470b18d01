//! Worker identifiers.
//!
//! A worker id is an opaque 128-bit value minted by the coordinator on
//! registration, rendered as a URN on the wire, and parsed back from the
//! `uuid` request header. Minting, rendering, and parsing go through the
//! uuid crate.

use vstd::prelude::*;

verus! {

/// The URN text of the UUID whose 128-bit value is `id`.
pub uninterp spec fn urn_text_of(id: u128) -> Seq<char>;

/// The id a UUID string denotes, `None` for a malformed one.
pub uninterp spec fn parsed_uuid(s: Seq<char>) -> Option<u128>;

/// Relies on `uuid::Uuid::new_v4` (backed by the system's random source)
/// and `Uuid::as_u128`: a freshly drawn identifier. Nothing is promised of
/// its value: it is random.
#[verifier::external_body]
pub(crate) fn mint_worker_id() -> u128 {
    uuid::Uuid::new_v4().as_u128()
}

/// Relies on `uuid::Uuid::from_u128` and the `Urn` formatter: the URN text
/// (`urn:uuid:` followed by the hyphenated lowercase digits) depends on the
/// id alone, and `Uuid::parse_str` documents that it accepts every format
/// the crate generates, the URN form included, giving back the same id.
#[verifier::external_body]
pub(crate) fn worker_id_urn(id: u128) -> (r: String)
    ensures
        r@ == urn_text_of(id),
        parsed_uuid(r@) == Some(id),
{
    uuid::Uuid::from_u128(id).urn().to_string()
}

/// Relies on `uuid::Uuid::parse_str` and `Uuid::as_u128`: parses the
/// simple, hyphenated, braced, and urn UUID forms, rejecting anything
/// else; the result depends on the string alone.
#[verifier::external_body]
pub(crate) fn parse_worker_id(s: &str) -> (r: Option<u128>)
    ensures
        r == parsed_uuid(s@),
{
    match uuid::Uuid::parse_str(s) {
        Ok(u) => Some(u.as_u128()),
        Err(_) => None,
    }
}

} // verus!
