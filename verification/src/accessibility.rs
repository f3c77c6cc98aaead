//! Accessibility trust — may Quill post synthetic keystrokes? Where there is
//! no such permission to grant, both questions are answered "trusted".

use vstd::prelude::*;

verus! {

/// Are we already trusted? No dialog, no side effects — safe to poll.
pub fn is_trusted() -> (t: bool)
    ensures
        t,
{
    true
}

/// Like `is_trusted`, but asks for the grant when it is missing. Returns the
/// trust status at call time.
pub fn prompt() -> (t: bool)
    ensures
        t,
{
    true
}

} // verus!
