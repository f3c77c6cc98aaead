//! The decisions around the chat window: the hotkey's re-entrancy guard, and
//! what a left click on the tray icon does. Showing, hiding and timing are
//! left to the caller.

use vstd::prelude::*;

verus! {

/// True while a capture is in flight — guards against the hotkey re-firing
/// (key repeat, double-tap) before the previous run finishes.
pub struct HotkeyGate {
    busy: bool,
}

impl HotkeyGate {
    pub closed spec fn is_busy(&self) -> bool {
        self.busy
    }

    pub fn new() -> (g: HotkeyGate)
        ensures
            !g.is_busy(),
    {
        HotkeyGate { busy: false }
    }

    /// Start a capture: `true` and busy when none was in flight, `false` and
    /// unchanged when one is.
    pub fn try_begin(&mut self) -> (started: bool)
        ensures
            (started, final(self).is_busy()) == begin_outcome(old(self).is_busy()),
    {
        if self.busy {
            return false;
        }
        self.busy = true;
        true
    }

    /// The capture is over; the hotkey may fire again.
    pub fn finish(&mut self)
        ensures
            !final(self).is_busy(),
    {
        self.busy = false;
    }
}

/// A hotkey press when a capture is or is not in flight: does a new one start,
/// and is one in flight once the press is handled.
pub open spec fn begin_outcome(busy: bool) -> (bool, bool) {
    (!busy, true)
}

/// A second hotkey press while a capture is in flight starts nothing; once it
/// is finished, the next press starts one.
pub proof fn lemma_gate_refuses_reentry(busy: bool)
    ensures
        begin_outcome(begin_outcome(busy).1).0 == false,
        begin_outcome(false).0 == true,
{
}

/// How long ago (in milliseconds) the window may have hidden itself for the
/// current click to be the one that hid it.
pub const AUTO_HIDE_WINDOW_MS: u128 = 400;

/// The window auto-hid a moment ago — the click being handled is what
/// dismissed it. `None`: it never auto-hid.
pub fn just_auto_hid(ms_since_auto_hide: Option<u128>) -> (b: bool)
    ensures
        b == (ms_since_auto_hide matches Some(ms) && ms < AUTO_HIDE_WINDOW_MS),
{
    match ms_since_auto_hide {
        Some(ms) => ms < AUTO_HIDE_WINDOW_MS,
        None => false,
    }
}

/// What a left click on the tray icon does to the chat.
pub enum TrayAction {
    Hide,
    Show,
}

/// The chat drops out from under the icon, or goes away again if it was up.
/// A chat that just hid itself because this very click took the focus counts
/// as up — without that the icon could never close it.
pub fn tray_click(visible: bool, recently_auto_hid: bool) -> (a: TrayAction)
    ensures
        a is Hide <==> (visible || recently_auto_hid),
{
    if visible || recently_auto_hid {
        TrayAction::Hide
    } else {
        TrayAction::Show
    }
}

} // verus!
