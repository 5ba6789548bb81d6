//! Fresh identifiers for new networks.

use vstd::prelude::*;

verus! {

/// Draws an identifier for a new record: the 128 bits of a random version-4
/// UUID, from `uuid::Uuid::new_v4` and `uuid::Uuid::as_u128`. Nothing is
/// promised of the number drawn; two calls may even give the same. The call
/// does not come back where the system has no random bytes to give:
/// `new_v4` panics then.
#[verifier::external_body]
pub(crate) fn fresh_id() -> (id: u128) {
    uuid::Uuid::new_v4().as_u128()
}

} // verus!
