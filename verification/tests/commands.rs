use base64::Engine;
use clipboard_manager::clipboard::{plan_write, text_item, ClipboardWrite};
use clipboard_manager::commands::{select_item, size_source, thumbnail_data_url, thumbnail_path, SizeSource, UpdateStatusDto};
use clipboard_manager::store::{HistoryItem, HistoryStore, NewItem};

fn item(kind: &str, content: Option<&str>, image_path: Option<&str>) -> HistoryItem {
    HistoryItem {
        id: 1,
        kind: kind.into(),
        content: content.map(|c| c.to_string()),
        content_alt: None,
        image_path: image_path.map(|p| p.to_string()),
        preview: String::new(),
        created_at: 0,
    }
}

#[test]
fn update_status_dto_none_reports_unavailable() {
    let dto = UpdateStatusDto::none();
    assert!(!dto.available);
    assert!(dto.version.is_none());
    assert!(dto.notes.is_none());
}

#[test]
fn dto_conversion_includes_base64_thumbnail_when_thumb_path_set() {
    let bytes: &[u8] = b"fake-png-bytes";
    let expected = format!(
        "data:image/png;base64,{}",
        base64::engine::general_purpose::STANDARD.encode(b"fake-png-bytes")
    );
    assert_eq!(thumbnail_data_url(bytes), expected);
}

#[test]
fn dto_conversion_reports_file_count_for_files() {
    let it = item("files", Some(r#"["a.txt","b.txt","c.txt"]"#), None);
    match size_source(&it) {
        SizeSource::Label(l) => assert_eq!(l, "3 files"),
        _ => panic!("expected a label"),
    }
}

#[test]
fn size_of_single_file_drop_is_singular() {
    let it = item("files", Some(r#"["a.txt"]"#), None);
    match size_source(&it) {
        SizeSource::Label(l) => assert_eq!(l, "1 file"),
        _ => panic!("expected a label"),
    }
}

#[test]
fn size_of_text_counts_utf8_bytes() {
    match size_source(&item("text", Some("hello"), None)) {
        SizeSource::Bytes(n) => assert_eq!(n, 5),
        _ => panic!("expected bytes"),
    }
    match size_source(&item("richtext", Some("é"), None)) {
        SizeSource::Bytes(n) => assert_eq!(n, 2),
        _ => panic!("expected bytes"),
    }
}

#[test]
fn size_of_image_is_its_file_and_absent_otherwise() {
    match size_source(&item("image", None, Some("full.png"))) {
        SizeSource::ImageFile(p) => assert_eq!(p, "full.png"),
        _ => panic!("expected the image file"),
    }
    assert!(matches!(size_source(&item("image", None, None)), SizeSource::Nothing));
    assert!(matches!(size_source(&item("files", Some("not json"), None)), SizeSource::Nothing));
    assert!(matches!(size_source(&item("text", None, None)), SizeSource::Nothing));
}

#[test]
fn write_then_capture_round_trips_text() {
    let it = HistoryItem {
        id: 1,
        kind: "text".into(),
        content: Some("clipboard round trip".into()),
        content_alt: None,
        image_path: None,
        preview: "clipboard round trip".into(),
        created_at: 0,
    };
    let written = match plan_write(&it).unwrap() {
        ClipboardWrite::Text(t) => t,
        _ => panic!("expected text"),
    };
    let captured = text_item(&written);
    assert_eq!(captured.kind, "text");
    assert_eq!(captured.content.as_deref(), Some("clipboard round trip"));
}

#[test]
fn text_over_cap_is_truncated_on_capture() {
    let it = HistoryItem {
        id: 1,
        kind: "text".into(),
        content: Some("x".repeat(300_000)),
        content_alt: None,
        image_path: None,
        preview: String::new(),
        created_at: 0,
    };
    let written = match plan_write(&it).unwrap() {
        ClipboardWrite::Text(t) => t,
        _ => panic!("expected text"),
    };
    let captured = text_item(&written);
    assert!(captured.content.unwrap().len() <= 200_000);
}

#[test]
fn write_plans_for_each_kind() {
    assert!(matches!(plan_write(&item("text", None, None)), Ok(ClipboardWrite::Text(t)) if t.is_empty()));
    assert!(matches!(plan_write(&item("image", None, Some("p.png"))), Ok(ClipboardWrite::Image(p)) if p == "p.png"));
    assert!(matches!(plan_write(&item("image", None, None)), Err(e) if e == "missing image_path"));
    assert!(matches!(plan_write(&item("files", Some(r#"["a","b"]"#), None)), Ok(ClipboardWrite::Files(v)) if v == vec!["a", "b"]));
    assert!(matches!(plan_write(&item("files", None, None)), Ok(ClipboardWrite::Files(v)) if v.is_empty()));
    assert!(plan_write(&item("files", Some("{"), None)).is_err());
    assert!(matches!(plan_write(&item("richtext", Some("<b>x</b>"), None)), Ok(ClipboardWrite::Html(h, None)) if h == "<b>x</b>"));
    assert!(matches!(plan_write(&item("sound", Some("x"), None)), Err(e) if e == "unknown item kind: sound"));
}

#[test]
fn select_item_finds_by_id_or_reports_not_found() {
    let mut store = HistoryStore::new();
    let id = store
        .record(NewItem { kind: "text".into(), content: Some("hi".into()), content_alt: None, image_path: None, preview: "hi".into(), dedup_source: "text:hi".into() }, 5)
        .unwrap();
    assert!(matches!(select_item(&store, id), Ok(ClipboardWrite::Text(t)) if t == "hi"));
    assert!(matches!(select_item(&store, id + 1), Err(e) if e == "item not found"));
}

#[test]
fn thumbnail_sits_beside_its_image() {
    assert_eq!(thumbnail_path("C:\\img\\ab12.png").as_deref(), Some("C:\\img\\ab12_thumb.png"));
    assert_eq!(thumbnail_path("x.jpg"), None);
    assert_eq!(thumbnail_path("png"), None);
}

#[test]
fn base64_pads_short_tails() {
    assert_eq!(thumbnail_data_url(b"Man"), "data:image/png;base64,TWFu");
    assert_eq!(thumbnail_data_url(b"Ma"), "data:image/png;base64,TWE=");
    assert_eq!(thumbnail_data_url(b"M"), "data:image/png;base64,TQ==");
}
