//! Quill's verified core: the catalog of endpoints and the prompt sent to
//! them, the request body and the reading of a reply, the provider stack kept
//! in the settings file, the key file, and the small decisions the tray and
//! the hotkey make.

pub mod text;
pub mod json;
pub mod corrector;
pub mod config;
pub mod secrets;
pub mod debug_log;
pub mod selection;
pub mod tray;
pub mod accessibility;
pub mod mac_focus;
pub mod mac_window;
