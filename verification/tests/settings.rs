use clipboard_manager::settings::{read_settings, write_settings_after_hotkey, write_settings_before_hotkey};
use clipboard_manager::store::HistoryStore;
use clipboard_manager::watcher::{kind_is_captured, popup_settings, store_capture};
use clipboard_manager::position::{PopupPin, PopupPositionMode};
use clipboard_manager::store::NewItem;

#[test]
fn defaults_apply_when_nothing_is_set() {
    let store = HistoryStore::new();
    let s = read_settings(&store);
    assert_eq!(s.max_items, None);
    assert_eq!(s.retention_days, None);
    assert!(!s.start_with_windows);
    assert_eq!(s.hotkey, "Ctrl+Alt+V");
    assert!(s.auto_check_updates);
    assert_eq!(s.sort_mode, "last_copied");
    assert_eq!(s.capture_types, vec!["text", "image", "files", "richtext"]);
    assert_eq!(s.popup_opacity, "0.9");
    assert_eq!(s.popup_bg_color, "#1e1e22");
    assert_eq!(s.popup_accent_color, "#ffffff");
    assert_eq!(s.popup_position, "cursor");
    assert_eq!(s.popup_pin, "bottom");
    assert!(!s.clear_history_on_quit);
    assert!(!s.clear_clipboard_on_quit);
}

#[test]
fn written_settings_read_back_unchanged() {
    let mut store = HistoryStore::new();
    let mut s = read_settings(&store);
    s.max_items = Some(-7);
    s.retention_days = Some(30);
    s.start_with_windows = true;
    s.hotkey = "Ctrl+Shift+X".into();
    s.auto_check_updates = false;
    s.capture_types = vec!["text".into(), "files".into()];
    s.popup_opacity = "0.75".into();
    s.popup_position = "bottom_right".into();
    s.popup_pin = "top".into();
    s.clear_clipboard_on_quit = true;
    write_settings_before_hotkey(&mut store, &s);
    write_settings_after_hotkey(&mut store, &s);
    let r = read_settings(&store);
    assert_eq!(r.max_items, Some(-7));
    assert_eq!(r.retention_days, Some(30));
    assert!(r.start_with_windows);
    assert_eq!(r.hotkey, "Ctrl+Shift+X");
    assert!(!r.auto_check_updates);
    assert_eq!(r.capture_types, vec!["text", "files"]);
    assert_eq!(r.popup_opacity, "0.75");
    assert_eq!(r.popup_position, "bottom_right");
    assert_eq!(r.popup_pin, "top");
    assert!(r.clear_clipboard_on_quit);
    assert!(!r.clear_history_on_quit);
    assert_eq!(store.get_setting("capture_types"), Some("text,files".into()));
    assert_eq!(store.get_setting("max_items"), Some("-7".into()));
}

#[test]
fn limits_not_given_keep_their_stored_values() {
    let mut store = HistoryStore::new();
    store.set_setting("max_items", "50");
    let mut s = read_settings(&store);
    s.max_items = None;
    write_settings_before_hotkey(&mut store, &s);
    assert_eq!(read_settings(&store).max_items, Some(50));
}

#[test]
fn flags_other_than_true_read_as_off() {
    let mut store = HistoryStore::new();
    store.set_setting("auto_check_updates", "yes");
    store.set_setting("start_with_windows", "TRUE");
    let s = read_settings(&store);
    assert!(!s.auto_check_updates);
    assert!(!s.start_with_windows);
}

#[test]
fn capture_types_filter_out_empty_entries() {
    let mut store = HistoryStore::new();
    store.set_setting("capture_types", ",text,,image,");
    assert_eq!(read_settings(&store).capture_types, vec!["text", "image"]);
}

#[test]
fn kind_filter_follows_capture_types() {
    let mut store = HistoryStore::new();
    assert!(kind_is_captured(&store, "image"));
    store.set_setting("capture_types", "text,files");
    assert!(kind_is_captured(&store, "text"));
    assert!(kind_is_captured(&store, "files"));
    assert!(!kind_is_captured(&store, "image"));
    assert!(!kind_is_captured(&store, "tex"));
    store.set_setting("capture_types", "");
    assert!(kind_is_captured(&store, "image"));
}

#[test]
fn captures_of_filtered_kinds_are_not_stored() {
    let mut store = HistoryStore::new();
    store.set_setting("capture_types", "text");
    let image = NewItem { kind: "image".into(), content: None, content_alt: None, image_path: Some("a.png".into()), preview: "Image".into(), dedup_source: "image:a.png".into() };
    assert!(store_capture(&mut store, image).is_none());
    assert_eq!(store.get_history().len(), 0);
    let text = NewItem { kind: "text".into(), content: Some("t".into()), content_alt: None, image_path: None, preview: "t".into(), dedup_source: "text:t".into() };
    assert_eq!(store_capture(&mut store, text), Some(Vec::new()));
    assert_eq!(store.get_history().len(), 1);
}

#[test]
fn popup_settings_read_position_and_pin() {
    let mut store = HistoryStore::new();
    assert_eq!(popup_settings(&store), (PopupPositionMode::Cursor, PopupPin::Bottom));
    store.set_setting("popup_position", "screen_center");
    store.set_setting("popup_pin", "top");
    assert_eq!(popup_settings(&store), (PopupPositionMode::ScreenCenter, PopupPin::Top));
}
