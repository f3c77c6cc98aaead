# quill

Quill fixes the spelling, punctuation and grammar of a selection in place, in
Russian or English, through any OpenAI-compatible model, falling back along an
ordered stack of providers.

- `src/` — the verified library (Verus): the provider catalog and the system
  prompt (`corrector`), the request body and the reading of a reply, the
  provider stack and the other settings (`config`), the key file (`secrets`),
  the debug-log view (`debug_log`), the clipboard capture steps (`selection`),
  the hotkey guard and tray click (`tray`), and the platform answers where no
  platform service is asked (`accessibility`, `mac_focus`, `mac_window`).
  `text` holds the character-level helpers everything above is stated with.
- `app/` — the Tauri application around it: window, tray, hotkey, updater,
  files, environment, clipboard, HTTP and the macOS calls.
- `tests/` — tests of the library, run against the real `serde_json`.

The clipboard is borrowed for the capture and put back as it was: copied
files, an image, rich text or plain text go back in the form they were read
in, and an empty clipboard is left empty.
