use clipboard_manager::dedup::dedup_key;
use clipboard_manager::store::{HistoryStore, NewItem, StoreError};

fn mem_store() -> HistoryStore {
    HistoryStore::new()
}

fn text(content: &str) -> NewItem {
    NewItem {
        kind: "text".into(),
        content: Some(content.into()),
        content_alt: None,
        image_path: None,
        preview: content.into(),
        dedup_source: format!("text:{content}"),
    }
}

#[test]
fn capture_inserts_and_lists_newest_first() {
    let mut store = mem_store();
    store.capture(NewItem { kind: "text".into(), content: Some("a".into()), content_alt: None, image_path: None, preview: "a".into(), dedup_source: "text:a".into() }).unwrap();
    store.capture(NewItem { kind: "text".into(), content: Some("b".into()), content_alt: None, image_path: None, preview: "b".into(), dedup_source: "text:b".into() }).unwrap();
    let history = store.get_history();
    assert_eq!(history.len(), 2);
    assert_eq!(history[0].content.as_deref(), Some("b"));
}

#[test]
fn repeat_copy_bumps_instead_of_duplicating() {
    let mut store = mem_store();
    let id1 = store.capture(NewItem { kind: "text".into(), content: Some("a".into()), content_alt: None, image_path: None, preview: "a".into(), dedup_source: "text:a".into() }).unwrap();
    store.capture(NewItem { kind: "text".into(), content: Some("b".into()), content_alt: None, image_path: None, preview: "b".into(), dedup_source: "text:b".into() }).unwrap();
    let id2 = store.capture(NewItem { kind: "text".into(), content: Some("a".into()), content_alt: None, image_path: None, preview: "a".into(), dedup_source: "text:a".into() }).unwrap();
    assert_eq!(id1, id2, "same dedup_source must reuse the row");
    let history = store.get_history();
    assert_eq!(history.len(), 2, "no duplicate row created");
    assert_eq!(history[0].content.as_deref(), Some("a"), "repeated item bumped to top");
}

#[test]
fn delete_item_removes_row_and_returns_image_path() {
    let mut store = mem_store();
    let id = store.capture(NewItem { kind: "image".into(), content: None, content_alt: None, image_path: Some("img/1.png".into()), preview: "Image".into(), dedup_source: "image:hash1".into() }).unwrap();
    let returned_path = store.delete_item(id);
    assert_eq!(returned_path.as_deref(), Some("img/1.png"));
    assert_eq!(store.get_history().len(), 0);
}

#[test]
fn prune_respects_max_items_setting() {
    let mut store = mem_store();
    store.set_setting("max_items", "2");
    for i in 0..3 {
        store.capture(NewItem { kind: "text".into(), content: Some(i.to_string()), content_alt: None, image_path: None, preview: i.to_string(), dedup_source: format!("text:{i}") }).unwrap();
    }
    let history = store.get_history();
    assert_eq!(history.len(), 2, "oldest item pruned once over max_items");
    assert_eq!(history[0].content.as_deref(), Some("2"));
    assert_eq!(history[1].content.as_deref(), Some("1"));
}

#[test]
fn settings_round_trip() {
    let mut store = mem_store();
    assert_eq!(store.get_setting("retention_days"), None);
    store.set_setting("retention_days", "30");
    assert_eq!(store.get_setting("retention_days"), Some("30".into()));
}

#[test]
fn ids_start_at_one_and_count_up() {
    let mut store = mem_store();
    assert_eq!(store.record(text("a"), 10), Ok(1));
    assert_eq!(store.record(text("b"), 20), Ok(2));
    assert_eq!(store.record(text("c"), 30), Ok(3));
}

#[test]
fn deleted_largest_id_is_given_out_again() {
    let mut store = mem_store();
    store.record(text("a"), 10).unwrap();
    let b = store.record(text("b"), 20).unwrap();
    assert_eq!(store.delete_item(b), None);
    assert_eq!(store.record(text("c"), 30), Ok(2));
}

#[test]
fn bump_keeps_the_original_content_and_id() {
    let mut store = mem_store();
    let id = store.record(NewItem { kind: "text".into(), content: Some("first".into()), content_alt: None, image_path: None, preview: "first".into(), dedup_source: "same".into() }, 10).unwrap();
    store.record(text("other"), 20).unwrap();
    let again = store.record(NewItem { kind: "text".into(), content: Some("second".into()), content_alt: None, image_path: None, preview: "second".into(), dedup_source: "same".into() }, 30).unwrap();
    assert_eq!(again, id);
    let history = store.get_history();
    assert_eq!(history.len(), 2);
    assert_eq!(history[0].id, id);
    assert_eq!(history[0].content.as_deref(), Some("first"));
    assert_eq!(history[0].created_at, 30);
}

#[test]
fn history_is_ordered_by_capture_time_not_insertion() {
    let mut store = mem_store();
    store.record(text("late"), 300).unwrap();
    store.record(text("early"), 100).unwrap();
    store.record(text("middle"), 200).unwrap();
    let contents: Vec<_> = store.get_history().into_iter().map(|h| h.content.unwrap()).collect();
    assert_eq!(contents, vec!["late", "middle", "early"]);
}

#[test]
fn equal_times_list_the_latest_capture_first() {
    let mut store = mem_store();
    store.record(text("a"), 100).unwrap();
    store.record(text("b"), 100).unwrap();
    let history = store.get_history();
    assert_eq!(history[0].content.as_deref(), Some("b"));
    assert_eq!(history[1].content.as_deref(), Some("a"));
}

#[test]
fn retention_days_drops_rows_older_than_the_cutoff() {
    let mut store = mem_store();
    let day: i64 = 86_400_000;
    store.record(text("old"), 1_000).unwrap();
    store.record(text("recent"), 1_000 + 2 * day).unwrap();
    store.set_setting("retention_days", "1");
    store.prune(1_000 + 2 * day + 5);
    let history = store.get_history();
    assert_eq!(history.len(), 1);
    assert_eq!(history[0].content.as_deref(), Some("recent"));
}

#[test]
fn row_exactly_at_the_cutoff_is_kept() {
    let mut store = mem_store();
    let day: i64 = 86_400_000;
    store.record(text("edge"), 500).unwrap();
    store.set_setting("retention_days", "1");
    store.prune(500 + day);
    assert_eq!(store.get_history().len(), 1);
    store.prune(500 + day + 1);
    assert_eq!(store.get_history().len(), 0);
}

#[test]
fn negative_max_items_means_no_limit_and_zero_clears() {
    let mut store = mem_store();
    for i in 0..4 {
        store.record(text(&i.to_string()), i).unwrap();
    }
    store.set_setting("max_items", "-1");
    store.prune(10);
    assert_eq!(store.get_history().len(), 4);
    store.set_setting("max_items", "0");
    store.prune(10);
    assert_eq!(store.get_history().len(), 0);
}

#[test]
fn unparseable_limits_are_ignored() {
    let mut store = mem_store();
    store.record(text("a"), 1).unwrap();
    store.record(text("b"), 2).unwrap();
    store.set_setting("max_items", "one");
    store.set_setting("retention_days", " 3");
    store.prune(1_000_000_000_000);
    assert_eq!(store.get_history().len(), 2);
}

#[test]
fn delete_of_unknown_id_changes_nothing() {
    let mut store = mem_store();
    store.record(text("a"), 1).unwrap();
    assert_eq!(store.delete_item(42), None);
    assert_eq!(store.get_history().len(), 1);
}

#[test]
fn clear_all_returns_image_paths_and_empties_history() {
    let mut store = mem_store();
    store.record(NewItem { kind: "image".into(), content: None, content_alt: None, image_path: Some("a.png".into()), preview: "Image".into(), dedup_source: "image:a".into() }, 1).unwrap();
    store.record(text("t"), 2).unwrap();
    store.record(NewItem { kind: "image".into(), content: None, content_alt: None, image_path: Some("b.png".into()), preview: "Image".into(), dedup_source: "image:b".into() }, 3).unwrap();
    store.set_setting("max_items", "10");
    assert_eq!(store.clear_all(), vec!["b.png".to_string(), "a.png".to_string()]);
    assert_eq!(store.get_history().len(), 0);
    assert_eq!(store.get_setting("max_items"), Some("10".into()));
}

#[test]
fn set_setting_overwrites_and_leaves_others() {
    let mut store = mem_store();
    store.set_setting("a", "1");
    store.set_setting("b", "2");
    store.set_setting("a", "3");
    assert_eq!(store.get_setting("a"), Some("3".into()));
    assert_eq!(store.get_setting("b"), Some("2".into()));
}

#[test]
fn saved_store_restores_to_the_same_contents() {
    let mut store = mem_store();
    store.record(text("a"), 1).unwrap();
    store.record(text("b"), 2).unwrap();
    store.set_setting("max_items", "5");
    let restored = HistoryStore::restore(store.stored_rows(), store.setting_entries()).expect("consistent");
    let before: Vec<_> = store.get_history().into_iter().map(|h| (h.id, h.content, h.created_at)).collect();
    let after: Vec<_> = restored.get_history().into_iter().map(|h| (h.id, h.content, h.created_at)).collect();
    assert_eq!(before, after);
    assert_eq!(restored.get_setting("max_items"), Some("5".into()));
}

#[test]
fn restore_refuses_inconsistent_rows() {
    let mut store = mem_store();
    store.record(text("a"), 1).unwrap();
    store.record(text("b"), 2).unwrap();
    let mut rows = store.stored_rows();
    rows.swap(0, 1);
    assert!(HistoryStore::restore(rows, vec![]).is_none(), "rows out of time order");
    let rows = store.stored_rows();
    let settings = vec![("k".to_string(), "1".to_string()), ("k".to_string(), "2".to_string())];
    assert!(HistoryStore::restore(rows, settings).is_none(), "repeated setting key");
}

#[test]
fn dedup_key_is_hex_sha256_of_the_source() {
    assert_eq!(
        dedup_key(""),
        "e3b0c44298fc1c149afbf4c8996fb92427ae41e4649b934ca495991b7852b855"
    );
    assert_eq!(dedup_key("abc"), "ba7816bf8f01cfea414140de5dae2223b00361a396177a9cb410ff61f20015ad");
}

#[test]
fn ids_exhausted_is_reported() {
    let mut store = mem_store();
    let rows = vec![clipboard_manager::store::StoredItem {
        item: clipboard_manager::store::HistoryItem {
            id: i64::MAX,
            kind: "text".into(),
            content: Some("x".into()),
            content_alt: None,
            image_path: None,
            preview: "x".into(),
            created_at: 5,
        },
        dedup_key: dedup_key("text:x"),
    }];
    store = HistoryStore::restore(rows, vec![]).unwrap_or(store);
    assert_eq!(store.record(text("y"), 6), Err(StoreError::IdsExhausted));
    assert_eq!(store.record(text("x"), 7), Ok(i64::MAX));
}

fn image(path: &str, source: &str) -> NewItem {
    NewItem {
        kind: "image".into(),
        content: None,
        content_alt: None,
        image_path: Some(path.into()),
        preview: "Image".into(),
        dedup_source: source.into(),
    }
}

#[test]
fn prune_gives_the_image_paths_it_evicts() {
    let mut store = mem_store();
    store.record(image("a.png", "image:a"), 1).unwrap();
    store.record(text("t"), 2).unwrap();
    store.record(image("b.png", "image:b"), 3).unwrap();
    store.record(text("u"), 4).unwrap();
    store.set_setting("max_items", "1");
    assert_eq!(store.prune(5), vec!["b.png".to_string(), "a.png".to_string()]);
    assert_eq!(store.get_history().len(), 1);
    assert_eq!(store.prune(5), Vec::<String>::new());
}

#[test]
fn capture_evicting_reports_evicted_images() {
    let mut store = mem_store();
    store.set_setting("max_items", "1");
    let (first, evicted) = store.capture_evicting(image("a.png", "image:a")).unwrap();
    assert!(evicted.is_empty());
    let (second, evicted) = store.capture_evicting(text("t")).unwrap();
    assert_ne!(first, second);
    assert_eq!(evicted, vec!["a.png".to_string()]);
    assert_eq!(store.get_history().len(), 1);
}
