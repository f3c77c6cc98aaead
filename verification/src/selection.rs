//! Capturing the selection: the clipboard is seeded with a sentinel, the Copy
//! chord is sent, and the clipboard is polled until it changes. The polling,
//! the chord and the clipboard itself are left to the caller; each poll's
//! reading is judged here.

use vstd::prelude::*;
use crate::text::{str_eq, trim, trim_str};

verus! {

/// Unlikely to ever equal a real selection (leading NUL). If Copy replaces it,
/// something was selected.
pub const SENTINEL: &'static str = "\u{0}quill::no-selection";

/// `kVK_ANSI_C`: the physical C key, so ⌘C fires whatever the layout.
pub const KEY_C: u16 = 0x08;

/// Polls before giving up: about a second at 20 ms each.
pub const POLL_LIMIT: u32 = 50;

/// What to do after a poll.
pub enum CaptureStep {
    /// The clipboard still holds the sentinel (or could not be read): poll again.
    Wait,
    /// Finished: the selection, trimmed, or empty when nothing was selected.
    Done(String),
}

pub open spec fn capture_step_spec(polls: u32, clipboard: Option<Seq<char>>) -> Option<Seq<char>> {
    match clipboard {
        Some(c) if c != SENTINEL@ => Some(trim(c)),
        _ => if polls >= POLL_LIMIT {
            Some(seq![])
        } else {
            None
        },
    }
}

/// Judge the clipboard after the `polls`-th poll: text other than the
/// sentinel is the selection; after the last poll, nothing was selected.
pub fn capture_step(polls: u32, clipboard: Option<&str>) -> (s: CaptureStep)
    ensures
        match s {
            CaptureStep::Wait => capture_step_spec(polls, crate::corrector::option_view(clipboard))
                is None,
            CaptureStep::Done(t) => capture_step_spec(
                polls,
                crate::corrector::option_view(clipboard),
            ) == Some(t@),
        },
        clipboard matches Some(c) ==> (c@ != SENTINEL@ ==> (s matches CaptureStep::Done(t)
            && t@ == trim(c@))),
        (clipboard is None || clipboard == Some(SENTINEL)) ==> (if polls >= POLL_LIMIT {
            s matches CaptureStep::Done(t) && t@.len() == 0
        } else {
            s is Wait
        }),
{
    match clipboard {
        Some(c) if !str_eq(c, SENTINEL) => CaptureStep::Done(trim_str(c)),
        _ => if polls >= POLL_LIMIT {
            CaptureStep::Done(String::new())
        } else {
            CaptureStep::Wait
        },
    }
}

/// Once the clipboard holds anything but the sentinel, that is the selection,
/// whole: the copied text with only the whitespace at its two ends taken off,
/// line breaks and all, on any poll.
pub proof fn lemma_capture_takes_the_whole_selection(polls: u32, c: Seq<char>)
    requires
        c != SENTINEL@,
    ensures
        capture_step_spec(polls, Some(c)) == Some(trim(c)),
{
}

/// While the clipboard still holds the sentinel (or cannot be read), the
/// capture waits, and after the last poll it gives up with nothing selected.
pub proof fn lemma_capture_waits_for_a_change(polls: u32, c: Option<Seq<char>>)
    requires
        c is None || c == Some(SENTINEL@),
    ensures
        capture_step_spec(polls, c) == (if polls >= POLL_LIMIT {
            Some(Seq::<char>::empty())
        } else {
            None
        }),
{
}

/// An image on the clipboard, as decoded pixels: `width` × `height`, four
/// bytes (RGBA) per pixel.
#[derive(Debug, PartialEq)]
pub struct ImageContent {
    pub width: usize,
    pub height: usize,
    pub bytes: Vec<u8>,
}

/// What the clipboard held before the capture borrowed it.
#[derive(Debug, PartialEq)]
pub enum ClipboardContent {
    /// Nothing at all.
    Empty,
    /// Plain text.
    Text(String),
    /// Rich text, with the plain-text form that came with it.
    Html { html: String, alt_text: Option<String> },
    /// An image.
    Image(ImageContent),
    /// Copied files, by path.
    Files(Vec<String>),
}

/// What to keep of the clipboard before it is borrowed, from what could be
/// read of it in each form: copied files first, then an image, then rich
/// text (with its plain text alongside), then plain text. A clipboard none of
/// these reads found anything on is empty.
pub fn saved_content(
    files: Option<Vec<String>>,
    image: Option<ImageContent>,
    html: Option<String>,
    text: Option<String>,
) -> (c: ClipboardContent)
    ensures
        match files {
            Some(f) if f@.len() > 0 => c == ClipboardContent::Files(f),
            _ => match image {
                Some(i) => c == ClipboardContent::Image(i),
                None => match html {
                    Some(h) => c == (ClipboardContent::Html { html: h, alt_text: text }),
                    None => match text {
                        Some(t) => c == ClipboardContent::Text(t),
                        None => c is Empty,
                    },
                },
            },
        },
{
    match files {
        Some(f) if f.len() > 0 => ClipboardContent::Files(f),
        _ => match image {
            Some(i) => ClipboardContent::Image(i),
            None => match html {
                Some(h) => ClipboardContent::Html { html: h, alt_text: text },
                None => match text {
                    Some(t) => ClipboardContent::Text(t),
                    None => ClipboardContent::Empty,
                },
            },
        },
    }
}

/// How the clipboard is handed back once the selection is read.
#[derive(Debug, PartialEq)]
pub enum Restore {
    /// Put back what was there, in the form it was read in.
    Put(ClipboardContent),
    /// The clipboard was empty before: empty it again, so the sentinel or the
    /// copied selection does not stay behind.
    Clear,
}

/// The clipboard is borrowed for the capture, then put back as it was: the
/// saved content, whatever its kind, goes back unchanged, and an empty
/// clipboard is left empty.
pub fn restore_plan(saved: ClipboardContent) -> (r: Restore)
    ensures
        match saved {
            ClipboardContent::Empty => r is Clear,
            _ => r == Restore::Put(saved),
        },
{
    match saved {
        ClipboardContent::Empty => Restore::Clear,
        _ => Restore::Put(saved),
    }
}

} // verus!
