//! Generation of fresh record ids.

use vstd::prelude::*;

verus! {

/// Relies on uuid::Uuid::new_v4 and its Display form: a random
/// version-4 UUID rendered as the 36-character hyphenated encoding.
/// The value is random, so nothing beyond its length is promised; the
/// operations that consume one check freshness against the store
/// themselves.
#[verifier::external_body]
pub(crate) fn fresh_uuid() -> (r: String)
    ensures
        r@.len() == 36,
{
    uuid::Uuid::new_v4().to_string()
}

} // verus!
