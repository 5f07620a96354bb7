//! Creation of the opaque unique identifiers carried by every model value.

use vstd::prelude::*;

verus! {

/// Relies on `uuid::Uuid::new_v4` for a fresh random identifier and on
/// `uuid::Uuid`'s `Display` form, which is always the 36-character
/// hyphenated lowercase text.
#[verifier::external_body]
pub fn fresh_id() -> (s: String)
    ensures
        s@.len() == 36,
{
    uuid::Uuid::new_v4().to_string()
}

} // verus!
