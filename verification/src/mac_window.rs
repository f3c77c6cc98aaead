//! The frontmost application's identifier, logged before a capture so an
//! empty capture is traceable to the app it targeted.

use vstd::prelude::*;

verus! {

/// Reported where the frontmost application cannot be asked.
pub const NOT_AVAILABLE: &'static str = "n/a";

/// Identifier of the app that is frontmost right now.
pub fn frontmost_app() -> (id: String)
    ensures
        id@ == NOT_AVAILABLE@,
{
    NOT_AVAILABLE.to_owned()
}

} // verus!
