# auto_mac_layout

A tray utility for macOS that saves Finder desktop icon positions per display
arrangement and restores them when the arrangement comes back.

- `src/` is the verified library (Verus):
  - `text.rs` – the character-sequence model: decimal numerals, number
    parsing, splitting and joining, trimming, lexicographic order and sorting.
  - `monitor.rs` – display fingerprints, display summaries, and the summary
    read back from a fingerprint, with the laws that tie them together.
  - `layout.rs` – the store of saved layouts (one profile per fingerprint).
  - `sync.rs` – debounce of display changes, the choice between restoring
    and capturing, profile deletion, desktop-change detection.
  - `status.rs`, `menu.rs` – the texts of the tray menu.
  - `notification.rs` – the notification switch and the AppleScript command
    that posts a notification, with the proof that it shows the text given.
  - `config.rs` – preferences and file locations.
- `app/` is the program around it: Finder and CoreGraphics access, files,
  threads, the tray menu and the event loop.
- `tests/` exercises the library on concrete values.
