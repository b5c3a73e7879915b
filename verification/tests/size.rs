use clipboard_manager::commands::{size_source, SizeSource};
use clipboard_manager::size::format_size;
use clipboard_manager::store::HistoryItem;

fn std_format_size(bytes: u64) -> String {
    const KB: u64 = 1024;
    const MB: u64 = KB * 1024;
    if bytes >= MB {
        format!("{:.1} MB", bytes as f64 / MB as f64)
    } else if bytes >= KB {
        format!("{:.1} KB", bytes as f64 / KB as f64)
    } else {
        format!("{bytes} B")
    }
}

fn displayed_size(item: &HistoryItem) -> Option<String> {
    match size_source(item) {
        SizeSource::Bytes(n) => Some(format_size(n)),
        SizeSource::Label(l) => Some(l),
        SizeSource::ImageFile(_) | SizeSource::Nothing => None,
    }
}

#[test]
fn dto_conversion_reports_byte_size_for_text_and_richtext() {
    let item = HistoryItem {
        id: 1,
        kind: "text".into(),
        content: Some("hello".into()),
        content_alt: None,
        image_path: None,
        preview: "hello".into(),
        created_at: 0,
    };
    assert_eq!(displayed_size(&item).as_deref(), Some("5 B"));
}

#[test]
fn dto_conversion_reports_kb_size_for_large_content() {
    let item = HistoryItem {
        id: 1,
        kind: "richtext".into(),
        content: Some("x".repeat(2048)),
        content_alt: None,
        image_path: None,
        preview: "x".into(),
        created_at: 0,
    };
    assert_eq!(displayed_size(&item).as_deref(), Some("2.0 KB"));
}

#[test]
fn format_size_matches_float_formatting() {
    let mut samples: Vec<u64> = vec![
        0, 1, 512, 1023, 1024, 1025, 1126, 1127, 1280, 1536, 1843, 3482, 10239, 10240, 102_347,
        1_048_575, 1_048_576, 1_153_433, 1_310_720, 1_258_291, 5_767_168, 999_999_999,
        (1u64 << 53) - 1, 1u64 << 53, (1u64 << 53) + 1, (1u64 << 53) + 3, (1u64 << 60) + 12345,
        u64::MAX - 1, u64::MAX,
    ];
    // values whose tenths fall exactly halfway between two decimals
    for k in 0..200u64 {
        samples.push(1024 + 51 * k + k / 5);
        samples.push((2 * k + 1) * 52_428 + 1_048_576 + k);
        samples.push((k + 1) * 1024 / 20 * 10 + 1024);
    }
    for b in samples {
        assert_eq!(format_size(b), std_format_size(b), "bytes = {b}");
    }
}

#[test]
fn format_size_examples() {
    assert_eq!(format_size(512), "512 B");
    assert_eq!(format_size(3482), "3.4 KB");
    assert_eq!(format_size(1_258_291), "1.2 MB");
}
