//! Identifiers for newly created records.

use vstd::prelude::*;

verus! {

/// Length of an identifier produced by [`fresh_id`].
pub const GENERATED_ID_LEN: usize = 36;

/// Draws a random identifier with `uuid::Uuid::new_v4` and renders it with the
/// type's `Display` impl, which writes the hyphenated lower-case form: always
/// 36 characters. Which identifier comes back is left open, so nothing here
/// says that two calls differ. `new_v4` panics if the operating system cannot
/// supply random bytes.
#[verifier::external_body]
pub(crate) fn fresh_id() -> (id: String)
    ensures
        id@.len() == GENERATED_ID_LEN,
{
    uuid::Uuid::new_v4().to_string()
}

} // verus!
