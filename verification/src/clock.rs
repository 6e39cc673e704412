//! The wall clock.

use vstd::prelude::*;

verus! {

/// `chrono::Utc::now().to_string()`: the present moment in UTC, as text.
/// Nothing is claimed of it: two calls differ.
#[verifier::external_body]
pub(crate) fn now_text() -> String {
    chrono::Utc::now().to_string()
}

} // verus!
