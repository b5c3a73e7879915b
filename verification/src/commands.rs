//! What the front-end commands compute: the history row shown for an item,
//! the update status, and selecting an item again.
use vstd::prelude::*;

use base64::Engine;

use crate::clipboard::{plan_write, spec_plan_write, ClipboardWrite, WriteView};
use crate::json::{from_json, strings_of_json};
use crate::store::{id_position, opt_view, HistoryItem, HistoryStore, ItemView};
use crate::text::{chars_of, concat_str, decimal, push_char, push_decimal, str_equal};

verus! {

/// One history row as the front end shows it.
pub struct HistoryItemDto {
    pub id: i64,
    pub kind: String,
    pub preview: String,
    /// A `data:` URL of the item's thumbnail image, if it has one.
    pub thumbnail: Option<String>,
    /// A short display size, e.g. `"512 B"` or `"3 files"`.
    pub size: Option<String>,
    pub created_at: i64,
    pub copy_count: i64,
}

/// Whether an update is available, and which.
pub struct UpdateStatusDto {
    pub available: bool,
    pub version: Option<String>,
    pub notes: Option<String>,
}

impl UpdateStatusDto {
    /// No update available.
    pub fn none() -> (s: Self)
        ensures
            !s.available,
            s.version is None,
            s.notes is None,
    {
        UpdateStatusDto { available: false, version: None, notes: None }
    }
}

/// The character of the standard base64 alphabet for a 6-bit value.
pub open spec fn base64_char(v: int) -> char {
    if v < 26 {
        (('A' as int) + v) as char
    } else if v < 52 {
        (('a' as int) + v - 26) as char
    } else if v < 62 {
        (('0' as int) + v - 52) as char
    } else if v == 62 {
        '+'
    } else {
        '/'
    }
}

/// The standard base64 encoding of `data` (RFC 4648: alphabet `A-Z a-z 0-9
/// + /`, each 3 bytes as 4 characters, a final 1 or 2 bytes padded with
/// `=`).
pub open spec fn base64_standard(data: Seq<u8>) -> Seq<char>
    decreases data.len(),
{
    if data.len() == 0 {
        Seq::empty()
    } else if data.len() == 1 {
        let n = data[0] as int;
        seq![base64_char(n / 4), base64_char((n % 4) * 16), '=', '=']
    } else if data.len() == 2 {
        let n = (data[0] as int) * 256 + (data[1] as int);
        seq![base64_char(n / 1024), base64_char((n / 16) % 64), base64_char((n % 16) * 4), '=']
    } else {
        let n = (data[0] as int) * 65536 + (data[1] as int) * 256 + (data[2] as int);
        seq![base64_char(n / 262144), base64_char((n / 4096) % 64), base64_char((n / 64) % 64), base64_char(n % 64)]
            + base64_standard(data.subrange(3, data.len() as int))
    }
}

/// Calls `base64::engine::general_purpose::STANDARD.encode`. Trusted: the
/// result is the standard padded base64 of the input. The call panics when the
/// encoded length overflows `usize`, which the precondition excludes.
#[verifier::external_body]
fn encode_base64(data: &[u8]) -> (text: String)
    requires
        data@.len() / 3 * 4 + 4 <= usize::MAX,
    ensures
        text@ == base64_standard(data@),
{
    base64::engine::general_purpose::STANDARD.encode(data)
}

/// The `data:` URL of a PNG image with the bytes `png`.
pub fn thumbnail_data_url(png: &[u8]) -> (url: String)
    requires
        png@.len() / 3 * 4 + 4 <= usize::MAX,
    ensures
        url@ == "data:image/png;base64,"@ + base64_standard(png@),
{
    let encoded = encode_base64(png);
    concat_str("data:image/png;base64,", encoded.as_str())
}

/// The thumbnail stored beside the image file `image_path`: `<name>.png` has
/// its thumbnail in `<name>_thumb.png`; other paths have none.
pub open spec fn spec_thumbnail_path(image_path: Seq<char>) -> Option<Seq<char>> {
    if image_path.len() >= 4 && image_path.subrange(image_path.len() - 4, image_path.len() as int) == ".png"@ {
        Some(image_path.subrange(0, image_path.len() - 4) + "_thumb.png"@)
    } else {
        None
    }
}

/// The path of the thumbnail stored beside the image file `image_path`.
pub fn thumbnail_path(image_path: &str) -> (r: Option<String>)
    ensures
        opt_view(r) == spec_thumbnail_path(image_path@),
{
    proof {
        reveal_strlit(".png");
        reveal_strlit("_thumb.png");
    }
    let v = chars_of(image_path);
    let n = v.len();
    if n >= 4 && v[n - 4] == '.' && v[n - 3] == 'p' && v[n - 2] == 'n' && v[n - 1] == 'g' {
        assert(image_path@.subrange(n - 4, n as int) =~= ".png"@);
        let mut stem = String::new();
        for i in 0..n - 4
            invariant
                n == v@.len(),
                v@ == image_path@,
                n >= 4,
                stem@ == image_path@.subrange(0, i as int),
        {
            push_char(&mut stem, v[i]);
            assert(image_path@.subrange(0, i + 1) =~= image_path@.subrange(0, i as int).push(v@[i as int]));
        }
        stem.append("_thumb.png");
        Some(stem)
    } else {
        proof {
            if image_path@.len() >= 4 && image_path@.subrange(n - 4, n as int) == ".png"@ {
                assert(image_path@.subrange(n - 4, n as int)[0] == image_path@[n - 4]);
                assert(image_path@.subrange(n - 4, n as int)[1] == image_path@[n - 3]);
                assert(image_path@.subrange(n - 4, n as int)[2] == image_path@[n - 2]);
                assert(image_path@.subrange(n - 4, n as int)[3] == image_path@[n - 1]);
            }
        }
        None
    }
}

/// Where an item's display size comes from.
pub enum SizeSource {
    /// The size on disk of the image file at this path.
    ImageFile(String),
    /// This many bytes of content.
    Bytes(u64),
    /// This label, as is.
    Label(String),
    /// The item shows no size.
    Nothing,
}

pub enum SizeSourceView {
    ImageFile(Seq<char>),
    Bytes(nat),
    Label(Seq<char>),
    Nothing,
}

impl SizeSource {
    pub open spec fn view(&self) -> SizeSourceView {
        match self {
            SizeSource::ImageFile(p) => SizeSourceView::ImageFile(p@),
            SizeSource::Bytes(n) => SizeSourceView::Bytes(*n as nat),
            SizeSource::Label(l) => SizeSourceView::Label(l@),
            SizeSource::Nothing => SizeSourceView::Nothing,
        }
    }
}

/// `"N file"` or `"N files"`.
pub open spec fn file_count_label(n: nat) -> Seq<char> {
    decimal(n) + (if n == 1 { " file"@ } else { " files"@ })
}

/// An item's display size: an image's file size, a file-drop's number of
/// files (when its content lists them), and otherwise the length of the
/// content in UTF-8 bytes.
pub open spec fn spec_size_source(item: ItemView) -> SizeSourceView {
    if item.kind == "image"@ {
        match item.image_path {
            Some(p) => SizeSourceView::ImageFile(p),
            None => SizeSourceView::Nothing,
        }
    } else if item.kind == "files"@ {
        let text = match item.content {
            Some(c) => c,
            None => "[]"@,
        };
        match strings_of_json(text) {
            Ok(paths) => SizeSourceView::Label(file_count_label(paths.len())),
            Err(_) => SizeSourceView::Nothing,
        }
    } else {
        match item.content {
            Some(c) => SizeSourceView::Bytes((vstd::utf8::encode_utf8(c).len() as usize) as nat),
            None => SizeSourceView::Nothing,
        }
    }
}

/// Where `item`'s display size comes from.
pub fn size_source(item: &HistoryItem) -> (s: SizeSource)
    ensures
        s.view() == spec_size_source(item.view()),
{
    if str_equal(item.kind.as_str(), "image") {
        match &item.image_path {
            Some(p) => SizeSource::ImageFile(p.clone()),
            None => SizeSource::Nothing,
        }
    } else if str_equal(item.kind.as_str(), "files") {
        let parsed = match &item.content {
            Some(c) => from_json(c.as_str()),
            None => from_json("[]"),
        };
        match parsed {
            Ok(paths) => {
                let n = paths.len();
                let mut label = String::new();
                push_decimal(&mut label, n as u64);
                if n == 1 {
                    label.append(" file");
                } else {
                    label.append(" files");
                }
                SizeSource::Label(label)
            },
            Err(_) => SizeSource::Nothing,
        }
    } else {
        match &item.content {
            Some(c) => SizeSource::Bytes(c.as_str().len() as u64),
            None => SizeSource::Nothing,
        }
    }
}

/// Selecting history item `id`: what to put on the clipboard, or
/// `"item not found"` when no item has that id.
pub open spec fn spec_select_item(rows: Seq<crate::store::RowView>, id: i64) -> Result<WriteView, Seq<char>> {
    match id_position(rows, id) {
        Some(i) => spec_plan_write(rows[i].item),
        None => Err("item not found"@),
    }
}

/// What selecting history item `id` puts on the clipboard.
pub fn select_item(store: &HistoryStore, id: i64) -> (r: Result<ClipboardWrite, String>)
    requires
        store.wf(),
    ensures
        match r {
            Ok(w) => spec_select_item(store.view().rows, id) == Ok::<WriteView, Seq<char>>(w.view()),
            Err(e) => spec_select_item(store.view().rows, id) == Err::<WriteView, Seq<char>>(e@),
        },
{
    match store.find_item(id) {
        Some(item) => plan_write(&item),
        None => Err("item not found".to_owned()),
    }
}

} // verus!
