# clipboard_manager

A Windows clipboard history manager (Tauri app) whose logic is a library
verified with Verus.

- `src/` — the verified library:
  - `store` — the history: captures are deduplicated by the SHA-256 of their
    dedup source; a repeated copy keeps its row and id and moves to its place
    by time; rows are kept newest first; `max_items` and `retention_days`
    prune, giving the image paths of the rows they remove; items can be
    deleted; settings are a key/value map. The store can
    be saved and restored.
  - `settings` — the settings record with its defaults, and writing it back
    (proved to read back as written).
  - `clipboard` — the item recorded for a file drop, an image, HTML
    (richtext, with its plain-text alternative) or text, and
    what writing an item back puts on the clipboard. Images are stored and
    deduplicated by the SHA-256 of their pixels.
  - `hotkey` — parsing combos like `Ctrl+Alt+V` into modifier flags and a
    key code, and the outcome of changing the hotkey.
  - `position` — where the popup goes, clamped to the screen.
  - `hold_detector` — a Ctrl+C chord held for a threshold, firing once per
    hold.
  - `size`, `commands`, `watcher` — display sizes, front-end helpers, and the
    listener's decisions.
  - `dedup`, `json`, `text` — hashing, JSON string arrays, string helpers.
- `app/` — the Tauri application: Win32 clipboard and hotkey plumbing, the
  SQLite file the store is saved to, and the command handlers.
- `tests/` — tests of the library.
