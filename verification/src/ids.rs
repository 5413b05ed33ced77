//! Fresh short identifiers for threads and todo items.

use vstd::prelude::*;

verus! {

/// Relies on `uuid::Uuid::new_v4` and its hyphenated rendering: a random
/// UUID prints as 36 lowercase hex-and-hyphen characters, of which the
/// first 8 are hex digits; a fresh id is that prefix. Nothing more is
/// assumed of a random value.
#[verifier::external_body]
pub(crate) fn fresh_id() -> (r: String)
    ensures
        r@.len() == 8,
{
    let full = uuid::Uuid::new_v4().to_string();
    full[..8].to_string()
}

} // verus!
