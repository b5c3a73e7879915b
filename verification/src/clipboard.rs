//! What a clipboard capture records, and what writing a history item back to
//! the clipboard puts there.
use vstd::prelude::*;

use crate::dedup::spec_image_hash;
use crate::json::{from_json, json_of_strings, strings_of_json, to_json};
use crate::store::{opt_view, HistoryItem, ItemView, NewItem, NewItemView};
use crate::text::{
    chars_of, concat_str, decimal, fit_bytes, join_strings, join_with, lemma_fit_bytes_whole, lemma_fit_bytes_within,
    prefix, push_char, push_decimal, str_equal, string_views, take_chars, take_utf8_bytes, trim, trim_str,
};

verus! {

/// Captured text is cut to at most this many UTF-8 bytes.
pub const TEXT_CAP_BYTES: usize = 200_000;

/// A text item's preview is its first this many characters.
pub const PREVIEW_CHARS: usize = 120;

/// The item recorded for a file-drop of `paths`: content is the JSON array,
/// the preview the single path or `"N files"`, and the dedup source
/// `"files:"` and the paths joined by line breaks.
pub open spec fn spec_files_item(paths: Seq<Seq<char>>) -> NewItemView {
    NewItemView {
        kind: "files"@,
        content: Some(json_of_strings(paths)),
        content_alt: None,
        image_path: None,
        preview: if paths.len() == 1 { paths[0] } else { decimal(paths.len()) + " files"@ },
        dedup_source: "files:"@ + join_with(paths, "\n"@),
    }
}

/// The item recorded for an image with content hash `hash` (see
/// `spec_image_hash`), saved at `path` and scaled to `width` x `height`: it
/// is deduplicated by its content hash.
pub open spec fn spec_image_item(hash: Seq<char>, path: Seq<char>, width: u32, height: u32) -> NewItemView {
    NewItemView {
        kind: "image"@,
        content: None,
        content_alt: None,
        image_path: Some(path),
        preview: "Image ("@ + decimal(width as nat) + "x"@ + decimal(height as nat) + ")"@,
        dedup_source: "image:"@ + hash,
    }
}

/// The item recorded for copied text: the text cut at a character boundary
/// to at most `TEXT_CAP_BYTES` bytes, previewed by its first `PREVIEW_CHARS`
/// characters.
pub open spec fn spec_text_item(text: Seq<char>) -> NewItemView {
    let truncated = fit_bytes(text, TEXT_CAP_BYTES as int);
    NewItemView {
        kind: "text"@,
        content: Some(truncated),
        content_alt: None,
        image_path: None,
        preview: prefix(truncated, PREVIEW_CHARS as int),
        dedup_source: "text:"@ + truncated,
    }
}

/// The item for a file-drop of `paths` (files take priority over images and
/// text on the clipboard).
pub fn files_item(paths: &Vec<String>) -> (item: NewItem)
    ensures
        item.view() == spec_files_item(string_views(paths@)),
{
    let joined = join_strings(paths, "\n");
    let preview = if paths.len() == 1 {
        paths[0].clone()
    } else {
        let mut p = String::new();
        push_decimal(&mut p, paths.len() as u64);
        p.append(" files");
        p
    };
    let content = to_json(paths);
    let item = NewItem {
        kind: "files".to_owned(),
        content: Some(content),
        content_alt: None,
        image_path: None,
        preview,
        dedup_source: concat_str("files:", joined.as_str()),
    };
    assert(item.view() =~= spec_files_item(string_views(paths@)));
    item
}

/// The item for an image with content hash `hash`, saved at `path` and
/// scaled to `width` x `height`.
pub fn image_item(hash: &str, path: &str, width: u32, height: u32) -> (item: NewItem)
    ensures
        item.view() == spec_image_item(hash@, path@, width, height),
{
    let mut preview = "Image (".to_owned();
    push_decimal(&mut preview, width as u64);
    preview.append("x");
    push_decimal(&mut preview, height as u64);
    preview.append(")");
    let item = NewItem {
        kind: "image".to_owned(),
        content: None,
        content_alt: None,
        image_path: Some(path.to_owned()),
        preview,
        dedup_source: concat_str("image:", hash),
    };
    assert(item.view() =~= spec_image_item(hash@, path@, width, height));
    item
}

/// The item for copied `text`.
pub fn text_item(text: &str) -> (item: NewItem)
    ensures
        item.view() == spec_text_item(text@),
{
    let truncated = take_utf8_bytes(text, TEXT_CAP_BYTES);
    let preview = take_chars(truncated.as_str(), PREVIEW_CHARS);
    let item = NewItem {
        kind: "text".to_owned(),
        content: Some(truncated.clone()),
        content_alt: None,
        image_path: None,
        preview,
        dedup_source: concat_str("text:", truncated.as_str()),
    };
    item
}

/// Stripping markup: what is left of `s` after dropping every `<...>` tag,
/// read left to right, and whether the reading ends inside a tag.
pub open spec fn strip_tags_state(s: Seq<char>) -> (Seq<char>, bool)
    decreases s.len(),
{
    if s.len() == 0 {
        (Seq::empty(), false)
    } else {
        let (out, in_tag) = strip_tags_state(s.drop_last());
        let c = s.last();
        if c == '<' {
            (out, true)
        } else if c == '>' {
            (out, false)
        } else if in_tag {
            (out, true)
        } else {
            (out.push(c), false)
        }
    }
}

/// The text of `html` with its tags removed: every character between a `<`
/// and the next `>` (both included) is dropped.
pub open spec fn strip_html_tags(html: Seq<char>) -> Seq<char> {
    strip_tags_state(html).0
}

/// The item recorded for HTML on the clipboard, alongside the clipboard's
/// plain text if it has any: nothing when the HTML is blank; otherwise the
/// HTML cut to `TEXT_CAP_BYTES` bytes, with the plain text (or, without one,
/// the cut HTML with its tags removed), also cut to `TEXT_CAP_BYTES` bytes, as
/// its plain-text alternative, preview basis and dedup source.
pub open spec fn spec_richtext_item(html: Seq<char>, text: Option<Seq<char>>) -> Option<NewItemView> {
    if trim(html).len() == 0 {
        None
    } else {
        let truncated = fit_bytes(html, TEXT_CAP_BYTES as int);
        let alt = match text {
            Some(t) => fit_bytes(t, TEXT_CAP_BYTES as int),
            None => fit_bytes(strip_html_tags(truncated), TEXT_CAP_BYTES as int),
        };
        Some(
            NewItemView {
                kind: "richtext"@,
                content: Some(truncated),
                content_alt: Some(alt),
                image_path: None,
                preview: prefix(alt, PREVIEW_CHARS as int),
                dedup_source: "richtext:"@ + alt,
            },
        )
    }
}

/// `html` with its tags removed.
pub fn strip_tags(html: &str) -> (r: String)
    ensures
        r@ == strip_html_tags(html@),
{
    let v = chars_of(html);
    let n = v.len();
    let mut out = String::new();
    let mut in_tag = false;
    for i in 0..n
        invariant
            n == v@.len(),
            v@ == html@,
            (out@, in_tag) == strip_tags_state(v@.take(i as int)),
    {
        assert(v@.take(i + 1).drop_last() =~= v@.take(i as int));
        assert(v@.take(i + 1).last() == v@[i as int]);
        let c = v[i];
        if c == '<' {
            in_tag = true;
        } else if c == '>' {
            in_tag = false;
        } else if !in_tag {
            push_char(&mut out, c);
        }
    }
    assert(v@.take(n as int) =~= v@);
    out
}

/// The item for `html` on the clipboard, with the clipboard's plain `text`
/// if it has any; `None` when the HTML is blank.
pub fn richtext_item(html: &str, text: Option<&str>) -> (item: Option<NewItem>)
    ensures
        match item {
            Some(i) => spec_richtext_item(html@, opt_str_view(text)) == Some(i.view()),
            None => spec_richtext_item(html@, opt_str_view(text)) is None,
        },
{
    let trimmed = trim_str(html);
    if trimmed.as_str().is_empty() {
        return None;
    }
    let truncated = take_utf8_bytes(html, TEXT_CAP_BYTES);
    let alt = match text {
        Some(t) => take_utf8_bytes(t, TEXT_CAP_BYTES),
        None => {
            let stripped = strip_tags(truncated.as_str());
            take_utf8_bytes(stripped.as_str(), TEXT_CAP_BYTES)
        },
    };
    let preview = take_chars(alt.as_str(), PREVIEW_CHARS);
    let item = NewItem {
        kind: "richtext".to_owned(),
        content: Some(truncated),
        content_alt: Some(alt.clone()),
        image_path: None,
        preview,
        dedup_source: concat_str("richtext:", alt.as_str()),
    };
    assert(item.view() =~= spec_richtext_item(html@, opt_str_view(text))->0);
    Some(item)
}

/// The view of an optional string slice.
pub open spec fn opt_str_view(o: Option<&str>) -> Option<Seq<char>> {
    match o {
        Some(s) => Some(s@),
        None => None,
    }
}

/// What writing a history item to the clipboard puts there.
pub enum ClipboardWrite {
    /// Plain text.
    Text(String),
    /// HTML, with its plain-text alternative if there is one.
    Html(String, Option<String>),
    /// The image stored at this path.
    Image(String),
    /// A file-drop of these paths.
    Files(Vec<String>),
}

pub enum WriteView {
    Text(Seq<char>),
    Html(Seq<char>, Option<Seq<char>>),
    Image(Seq<char>),
    Files(Seq<Seq<char>>),
}

impl ClipboardWrite {
    pub open spec fn view(&self) -> WriteView {
        match self {
            ClipboardWrite::Text(t) => WriteView::Text(t@),
            ClipboardWrite::Html(h, a) => WriteView::Html(h@, opt_view(*a)),
            ClipboardWrite::Image(p) => WriteView::Image(p@),
            ClipboardWrite::Files(ps) => WriteView::Files(string_views(ps@)),
        }
    }
}

/// Writing back an item: `text` puts its content (or nothing); `richtext`
/// puts its content as HTML (or nothing) with its plain-text alternative;
/// `image` needs its image path; `files` puts the paths its JSON content
/// lists (`[]` when it has none); any other kind is refused.
pub open spec fn spec_plan_write(item: ItemView) -> Result<WriteView, Seq<char>> {
    if item.kind == "text"@ {
        Ok(WriteView::Text(
            match item.content {
                Some(c) => c,
                None => Seq::empty(),
            },
        ))
    } else if item.kind == "richtext"@ {
        Ok(WriteView::Html(
            match item.content {
                Some(c) => c,
                None => Seq::empty(),
            },
            item.content_alt,
        ))
    } else if item.kind == "image"@ {
        match item.image_path {
            Some(p) => Ok(WriteView::Image(p)),
            None => Err("missing image_path"@),
        }
    } else if item.kind == "files"@ {
        let text = match item.content {
            Some(c) => c,
            None => "[]"@,
        };
        match strings_of_json(text) {
            Ok(paths) => Ok(WriteView::Files(paths)),
            Err(e) => Err(e),
        }
    } else {
        Err("unknown item kind: "@ + item.kind)
    }
}

/// What to put on the clipboard to select `item` again.
pub fn plan_write(item: &HistoryItem) -> (r: Result<ClipboardWrite, String>)
    ensures
        match r {
            Ok(w) => spec_plan_write(item.view()) == Ok::<WriteView, Seq<char>>(w.view()),
            Err(e) => spec_plan_write(item.view()) == Err::<WriteView, Seq<char>>(e@),
        },
{
    if str_equal(item.kind.as_str(), "text") {
        let text = match &item.content {
            Some(c) => c.clone(),
            None => String::new(),
        };
        Ok(ClipboardWrite::Text(text))
    } else if str_equal(item.kind.as_str(), "richtext") {
        let html = match &item.content {
            Some(c) => c.clone(),
            None => String::new(),
        };
        let alt = match &item.content_alt {
            Some(a) => Some(a.clone()),
            None => None,
        };
        Ok(ClipboardWrite::Html(html, alt))
    } else if str_equal(item.kind.as_str(), "image") {
        match &item.image_path {
            Some(p) => Ok(ClipboardWrite::Image(p.clone())),
            None => Err("missing image_path".to_owned()),
        }
    } else if str_equal(item.kind.as_str(), "files") {
        let parsed = match &item.content {
            Some(c) => from_json(c.as_str()),
            None => from_json("[]"),
        };
        match parsed {
            Ok(paths) => Ok(ClipboardWrite::Files(paths)),
            Err(e) => Err(e),
        }
    } else {
        Err(concat_str("unknown item kind: ", item.kind.as_str()))
    }
}


/// Captured text never takes more than `TEXT_CAP_BYTES` bytes, it is a
/// prefix of the copied text, and its preview is a prefix of it no longer
/// than `PREVIEW_CHARS` characters.
pub proof fn lemma_text_item_is_capped(text: Seq<char>)
    ensures
        spec_text_item(text).content matches Some(c) && vstd::utf8::encode_utf8(c).len() <= TEXT_CAP_BYTES,
        spec_text_item(text).preview.len() <= PREVIEW_CHARS,
{
    lemma_fit_bytes_within(text, TEXT_CAP_BYTES as int);
}

/// Copying the same image twice gives the same dedup source, wherever and at
/// whatever size each copy was saved, so the second capture bumps the first
/// one's row instead of adding a row.
pub proof fn lemma_same_image_same_source(
    pixels: Seq<u8>,
    first_path: Seq<char>,
    first_size: (u32, u32),
    again_path: Seq<char>,
    again_size: (u32, u32),
)
    ensures
        spec_image_item(spec_image_hash(pixels), first_path, first_size.0, first_size.1).dedup_source
            == spec_image_item(spec_image_hash(pixels), again_path, again_size.0, again_size.1).dedup_source,
{
}

/// Writing a text item back to the clipboard and capturing the clipboard
/// again gives the same text, as long as it is within the capture cap.
pub proof fn lemma_text_write_then_capture(item: ItemView)
    requires
        item.kind == "text"@,
        item.content matches Some(c) && vstd::utf8::encode_utf8(c).len() <= TEXT_CAP_BYTES,
    ensures
        spec_plan_write(item) == Ok::<WriteView, Seq<char>>(WriteView::Text(item.content->0)),
        spec_text_item(item.content->0).content == item.content,
        spec_text_item(item.content->0).kind == item.kind,
{
    lemma_fit_bytes_whole(item.content->0, TEXT_CAP_BYTES as int);
}

/// Writing a richtext item back to the clipboard (HTML with its plain-text
/// alternative) and capturing the clipboard again gives the same HTML and
/// alternative, as long as both are within the capture cap and the HTML is
/// not blank.
pub proof fn lemma_richtext_write_then_capture(item: ItemView)
    requires
        item.kind == "richtext"@,
        item.content matches Some(h) && vstd::utf8::encode_utf8(h).len() <= TEXT_CAP_BYTES && trim(h).len() > 0,
        item.content_alt matches Some(a) && vstd::utf8::encode_utf8(a).len() <= TEXT_CAP_BYTES,
    ensures
        spec_plan_write(item) == Ok::<WriteView, Seq<char>>(WriteView::Html(item.content->0, item.content_alt)),
        spec_richtext_item(item.content->0, item.content_alt) matches Some(captured) && captured.kind == item.kind
            && captured.content == item.content && captured.content_alt == item.content_alt,
{
    reveal_strlit("text");
    reveal_strlit("richtext");
    assert("richtext"@.len() != "text"@.len());
    lemma_fit_bytes_whole(item.content->0, TEXT_CAP_BYTES as int);
    lemma_fit_bytes_whole(item.content_alt->0, TEXT_CAP_BYTES as int);
}

/// A richtext item is keyed by its plain-text alternative: its dedup source
/// is `"richtext:"` followed by that alternative, and its preview is the
/// alternative's first `PREVIEW_CHARS` characters. So two copies with the same
/// plain text give the same dedup source, whatever their HTML.
pub proof fn lemma_richtext_keyed_by_plain_text(html: Seq<char>, other_html: Seq<char>, text: Seq<char>)
    ensures
        spec_richtext_item(html, Some(text)) matches Some(i) ==> {
            &&& i.content_alt matches Some(alt) && i.dedup_source == "richtext:"@ + alt
            &&& i.preview == prefix(i.content_alt->0, PREVIEW_CHARS as int)
            &&& i.content_alt == Some(fit_bytes(text, TEXT_CAP_BYTES as int))
        },
        spec_richtext_item(html, Some(text)) matches Some(i) ==> (spec_richtext_item(other_html, Some(text)) matches Some(
            j,
        ) ==> i.dedup_source == j.dedup_source),
{
}

/// Without plain text on the clipboard, a richtext item's alternative is its
/// (cut) HTML with the tags removed, and the item is still keyed by that
/// alternative.
pub proof fn lemma_richtext_alt_without_text(html: Seq<char>)
    ensures
        spec_richtext_item(html, None) matches Some(i) ==> {
            &&& i.content_alt matches Some(alt) && i.dedup_source == "richtext:"@ + alt
            &&& i.content matches Some(h) && i.content_alt == Some(fit_bytes(strip_html_tags(h), TEXT_CAP_BYTES as int))
        },
{
}

/// Removing tags leaves no `<` or `>`, and leaves text that has no `<` or `>`
/// as it is.
pub proof fn lemma_strip_html_tags(html: Seq<char>)
    ensures
        forall|i: int| 0 <= i < strip_html_tags(html).len() ==> #[trigger] strip_html_tags(html)[i] != '<'
            && strip_html_tags(html)[i] != '>',
        (forall|i: int| 0 <= i < html.len() ==> #[trigger] html[i] != '<' && html[i] != '>') ==> strip_html_tags(html)
            == html,
    decreases html.len(),
{
    if html.len() > 0 {
        lemma_strip_html_tags(html.drop_last());
        let out = strip_html_tags(html.drop_last());
        let now = strip_html_tags(html);
        assert forall|i: int| 0 <= i < now.len() implies #[trigger] now[i] != '<' && now[i] != '>' by {
            if i < out.len() {
                assert(now[i] == out[i]);
            }
        }
        if forall|i: int| 0 <= i < html.len() ==> #[trigger] html[i] != '<' && html[i] != '>' {
            assert forall|i: int| 0 <= i < html.drop_last().len() implies #[trigger] html.drop_last()[i] != '<'
                && html.drop_last()[i] != '>' by {
                assert(html.drop_last()[i] == html[i]);
            }
            lemma_no_tags_not_in_tag(html.drop_last());
            assert(html.drop_last().push(html.last()) =~= html);
        }
    }
}

/// Reading text with no `<` never ends inside a tag.
proof fn lemma_no_tags_not_in_tag(s: Seq<char>)
    requires
        forall|i: int| 0 <= i < s.len() ==> #[trigger] s[i] != '<',
    ensures
        !strip_tags_state(s).1,
    decreases s.len(),
{
    if s.len() > 0 {
        assert forall|i: int| 0 <= i < s.drop_last().len() implies #[trigger] s.drop_last()[i] != '<' by {
            assert(s.drop_last()[i] == s[i]);
        }
        lemma_no_tags_not_in_tag(s.drop_last());
        assert(s[s.len() - 1] != '<');
    }
}

} // verus!
