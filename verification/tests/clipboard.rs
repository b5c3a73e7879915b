use clipboard_manager::clipboard::{files_item, image_item, plan_write, richtext_item, strip_tags, text_item, ClipboardWrite};
use clipboard_manager::store::HistoryItem;
use clipboard_manager::dedup::image_hash;

#[test]
fn text_capture_keeps_a_short_preview() {
    let long = "a".repeat(130);
    let it = text_item(&long);
    assert_eq!(it.kind, "text");
    assert_eq!(it.content.as_deref(), Some(long.as_str()));
    assert_eq!(it.preview, "a".repeat(120));
    assert_eq!(it.dedup_source, format!("text:{long}"));
    assert!(it.image_path.is_none());
}

#[test]
fn text_capture_cuts_bytes_at_a_character_boundary() {
    let long = "é".repeat(200_005);
    let it = text_item(&long);
    let content = it.content.unwrap();
    assert_eq!(content.len(), 200_000);
    assert_eq!(content.chars().count(), 100_000);
    let euros = "€".repeat(70_000);
    let content = text_item(&euros).content.unwrap();
    assert_eq!(content.len(), 199_998);
    assert!(euros.starts_with(&content));
}

#[test]
fn text_within_the_cap_is_kept_whole() {
    let exact = "x".repeat(200_000);
    assert_eq!(text_item(&exact).content.as_deref(), Some(exact.as_str()));
}

#[test]
fn single_file_drop_previews_its_path() {
    let it = files_item(&vec!["C:\\a.txt".to_string()]);
    assert_eq!(it.kind, "files");
    assert_eq!(it.preview, "C:\\a.txt");
    assert_eq!(it.content.as_deref(), Some(r#"["C:\\a.txt"]"#));
    assert_eq!(it.dedup_source, "files:C:\\a.txt");
}

#[test]
fn multi_file_drop_counts_files_and_joins_lines() {
    let it = files_item(&vec!["a".to_string(), "b".to_string(), "c".to_string()]);
    assert_eq!(it.preview, "3 files");
    assert_eq!(it.content.as_deref(), Some(r#"["a","b","c"]"#));
    assert_eq!(it.dedup_source, "files:a\nb\nc");
}

#[test]
fn image_capture_names_its_size_and_is_keyed_by_content() {
    let hash = image_hash(&[1, 2, 3, 4]);
    let it = image_item(&hash, "C:\\img\\x.png", 1600, 900);
    assert_eq!(it.kind, "image");
    assert_eq!(it.preview, "Image (1600x900)");
    assert_eq!(it.image_path.as_deref(), Some("C:\\img\\x.png"));
    assert_eq!(it.dedup_source, format!("image:{hash}"));
    assert!(it.content.is_none());
}

#[test]
fn same_image_twice_gives_one_dedup_source() {
    let pixels = vec![10u8, 20, 30, 255, 40, 50, 60, 255];
    let first = image_item(&image_hash(&pixels), "a.png", 2, 1);
    let again = image_item(&image_hash(&pixels.clone()), "b.png", 2, 1);
    assert_eq!(first.dedup_source, again.dedup_source);
    let other = image_item(&image_hash(&[10u8, 20, 30, 255]), "a.png", 1, 1);
    assert_ne!(first.dedup_source, other.dedup_source);
}

#[test]
fn image_hash_is_the_hex_sha256_of_the_pixels() {
    assert_eq!(image_hash(b"abc"), "ba7816bf8f01cfea414140de5dae2223b00361a396177a9cb410ff61f20015ad");
}

#[test]
fn file_paths_are_escaped_in_json() {
    let it = files_item(&vec!["a\"b\\c\n\t\u{1}é".to_string(), String::new()]);
    assert_eq!(it.content.as_deref(), Some("[\"a\\\"b\\\\c\\n\\t\\u0001é\",\"\"]"));
    assert_eq!(files_item(&vec![]).content.as_deref(), Some("[]"));
}

#[test]
fn html_is_captured_as_richtext_with_plain_text_alt() {
    let it = richtext_item("<b>hello</b>", Some("hello")).unwrap();
    assert_eq!(it.kind, "richtext");
    assert_eq!(it.content.as_deref(), Some("<b>hello</b>"));
    assert_eq!(it.content_alt.as_deref(), Some("hello"));
    assert_eq!(it.preview, "hello");
    assert_eq!(it.dedup_source, "richtext:hello");
    assert!(it.image_path.is_none());
}

#[test]
fn richtext_without_plain_text_strips_tags() {
    let it = richtext_item("<p>a <i>b</i></p>", None).unwrap();
    assert_eq!(it.content_alt.as_deref(), Some("a b"));
    assert!(richtext_item("  \n ", Some("x")).is_none());
    assert_eq!(strip_tags("x<y>z<w"), "xz");
    assert_eq!(strip_tags("a>b"), "ab");
}

#[test]
fn richtext_write_back_puts_html_and_alt() {
    let item = HistoryItem {
        id: 1,
        kind: "richtext".into(),
        content: Some("<i>styled</i>".into()),
        content_alt: Some("styled".into()),
        image_path: None,
        preview: "styled".into(),
        created_at: 0,
    };
    match plan_write(&item) {
        Ok(ClipboardWrite::Html(html, alt)) => {
            assert_eq!(html, "<i>styled</i>");
            assert_eq!(alt.as_deref(), Some("styled"));
        }
        _ => panic!("expected an HTML write"),
    }
}
