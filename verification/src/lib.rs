//! The verified core of a clipboard history manager: the history store with
//! dedup, bump-to-top and pruning; the settings record; what a clipboard
//! capture records and what selecting an item writes back; parsing of the
//! toggle hotkey; popup placement; the Ctrl+C hold detector; and the display
//! sizes of items.
//!
//! Everything that touches the operating system (the clipboard, the
//! database file, windows, hotkey registration, timers) lives in the
//! application around this library.

pub mod clipboard;
pub mod commands;
pub mod dedup;
pub mod hdrop;
pub mod hold_detector;
pub mod hotkey;
pub mod json;
pub mod position;
pub mod settings;
pub mod size;
pub mod store;
pub mod text;
pub mod watcher;
