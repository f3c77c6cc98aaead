use quill::accessibility::{is_trusted, prompt};
use quill::debug_log::log_tail;
use quill::mac_focus::{activate, remember_frontmost};
use quill::mac_window::frontmost_app;
use quill::selection::{
    capture_step, restore_plan, saved_content, CaptureStep, ClipboardContent, ImageContent, Restore, KEY_C,
    POLL_LIMIT, SENTINEL,
};
use quill::tray::{just_auto_hid, tray_click, HotkeyGate, TrayAction};

#[test]
fn macos_copy_keycode_is_c() {
    assert_eq!(KEY_C, 0x08, "kVK_ANSI_C must be 0x08");
}

#[test]
fn a_changed_clipboard_is_the_selection() {
    match capture_step(1, Some("  picked text \n")) {
        CaptureStep::Done(t) => assert_eq!(t, "picked text"),
        CaptureStep::Wait => panic!("the copy landed"),
    }
    assert!(matches!(capture_step(1, Some(SENTINEL)), CaptureStep::Wait));
    assert!(matches!(capture_step(POLL_LIMIT - 1, None), CaptureStep::Wait));
    match capture_step(POLL_LIMIT, Some(SENTINEL)) {
        CaptureStep::Done(t) => assert_eq!(t, ""),
        CaptureStep::Wait => panic!("the last poll ends the wait"),
    }
}

#[test]
fn the_hotkey_does_not_fire_twice_at_once() {
    let mut g = HotkeyGate::new();
    assert!(g.try_begin());
    assert!(!g.try_begin());
    g.finish();
    assert!(g.try_begin());
}

#[test]
fn the_tray_click_closes_what_it_just_hid() {
    assert!(just_auto_hid(Some(0)));
    assert!(just_auto_hid(Some(399)));
    assert!(!just_auto_hid(Some(400)));
    assert!(!just_auto_hid(None));
    assert!(matches!(tray_click(false, true), TrayAction::Hide));
    assert!(matches!(tray_click(true, false), TrayAction::Hide));
    assert!(matches!(tray_click(false, false), TrayAction::Show));
}

#[test]
fn the_debug_view_shows_the_newest_lines() {
    let contents: String = (1..=250).map(|i| format!("line {}\n", i)).collect();
    let tail = log_tail(&contents);
    assert!(tail.starts_with("line 51\n"));
    assert!(tail.ends_with("line 250"));
    assert_eq!(tail.lines().count(), 200);
    assert_eq!(log_tail("a\r\nb\n"), "a\nb");
    assert_eq!(log_tail(""), "");
}

#[test]
fn without_the_platform_services_everything_is_granted() {
    assert!(is_trusted());
    assert!(prompt());
    assert_eq!(remember_frontmost(), None);
    assert_eq!(activate(42), Ok(()));
    assert_eq!(frontmost_app(), "n/a");
}

#[test]
fn the_clipboard_is_handed_back_as_it_was() {
    let text = saved_content(None, None, None, Some("the user's own".to_string()));
    assert_eq!(text, ClipboardContent::Text("the user's own".to_string()));
    assert_eq!(
        restore_plan(text),
        Restore::Put(ClipboardContent::Text("the user's own".to_string()))
    );
    assert_eq!(restore_plan(saved_content(None, None, None, None)), Restore::Clear);
}

#[test]
fn an_image_or_files_on_the_clipboard_come_back_too() {
    let pixels = || ImageContent { width: 1, height: 1, bytes: vec![1, 2, 3, 255] };
    let img = saved_content(Some(vec![]), Some(pixels()), None, None);
    assert_eq!(img, ClipboardContent::Image(pixels()));
    assert_eq!(restore_plan(img), Restore::Put(ClipboardContent::Image(pixels())));
    let files = saved_content(
        Some(vec!["/tmp/a.txt".to_string()]),
        Some(pixels()),
        None,
        Some("a.txt".to_string()),
    );
    assert_eq!(
        restore_plan(files),
        Restore::Put(ClipboardContent::Files(vec!["/tmp/a.txt".to_string()]))
    );
    let rich = saved_content(None, None, Some("<b>hi</b>".to_string()), Some("hi".to_string()));
    assert_eq!(
        restore_plan(rich),
        Restore::Put(ClipboardContent::Html {
            html: "<b>hi</b>".to_string(),
            alt_text: Some("hi".to_string())
        })
    );
}
