//! The user settings as one record: read from the store with their
//! defaults, and written back to it.
use vstd::prelude::*;

use crate::store::{HistoryStore, StoreView};
use crate::text::{
    i64_to_decimal, join_strings, join_with, parse_i64, signed_decimal, spec_parse_i64, split_chars,
    split_on, str_equal, string_views,
};

verus! {

/// All user settings. `popup_opacity` is kept as the text it is stored as.
pub struct Settings {
    pub max_items: Option<i64>,
    pub retention_days: Option<i64>,
    pub start_with_windows: bool,
    pub hotkey: String,
    pub auto_check_updates: bool,
    pub sort_mode: String,
    pub capture_types: Vec<String>,
    pub popup_opacity: String,
    pub popup_bg_color: String,
    pub popup_accent_color: String,
    pub popup_position: String,
    pub popup_pin: String,
    pub clear_history_on_quit: bool,
    pub clear_clipboard_on_quit: bool,
}

pub struct SettingsView {
    pub max_items: Option<i64>,
    pub retention_days: Option<i64>,
    pub start_with_windows: bool,
    pub hotkey: Seq<char>,
    pub auto_check_updates: bool,
    pub sort_mode: Seq<char>,
    pub capture_types: Seq<Seq<char>>,
    pub popup_opacity: Seq<char>,
    pub popup_bg_color: Seq<char>,
    pub popup_accent_color: Seq<char>,
    pub popup_position: Seq<char>,
    pub popup_pin: Seq<char>,
    pub clear_history_on_quit: bool,
    pub clear_clipboard_on_quit: bool,
}

impl Settings {
    pub open spec fn view(&self) -> SettingsView {
        SettingsView {
            max_items: self.max_items,
            retention_days: self.retention_days,
            start_with_windows: self.start_with_windows,
            hotkey: self.hotkey@,
            auto_check_updates: self.auto_check_updates,
            sort_mode: self.sort_mode@,
            capture_types: string_views(self.capture_types@),
            popup_opacity: self.popup_opacity@,
            popup_bg_color: self.popup_bg_color@,
            popup_accent_color: self.popup_accent_color@,
            popup_position: self.popup_position@,
            popup_pin: self.popup_pin@,
            clear_history_on_quit: self.clear_history_on_quit,
            clear_clipboard_on_quit: self.clear_clipboard_on_quit,
        }
    }
}

/// The setting `key`, or `default` when unset.
pub open spec fn text_or(m: Map<Seq<char>, Seq<char>>, key: Seq<char>, default: Seq<char>) -> Seq<char> {
    match m.get(key) {
        Some(v) => v,
        None => default,
    }
}

/// The setting `key` as a flag: `"true"` is on, any other value off, and
/// `default` when unset.
pub open spec fn flag_or(m: Map<Seq<char>, Seq<char>>, key: Seq<char>, default: bool) -> bool {
    match m.get(key) {
        Some(v) => v == "true"@,
        None => default,
    }
}

/// The setting `key` parsed as an `i64`, when set and well formed.
pub open spec fn number(m: Map<Seq<char>, Seq<char>>, key: Seq<char>) -> Option<i64> {
    match m.get(key) {
        Some(v) => spec_parse_i64(v),
        None => None,
    }
}

/// The non-empty pieces, in order.
pub open spec fn non_empty(parts: Seq<Seq<char>>) -> Seq<Seq<char>>
    decreases parts.len(),
{
    if parts.len() == 0 {
        Seq::empty()
    } else {
        let front = non_empty(parts.drop_last());
        if parts.last().len() > 0 {
            front.push(parts.last())
        } else {
            front
        }
    }
}

/// The settings a store holds, with the defaults for those that are unset.
pub open spec fn spec_read_settings(m: Map<Seq<char>, Seq<char>>) -> SettingsView {
    SettingsView {
        max_items: number(m, "max_items"@),
        retention_days: number(m, "retention_days"@),
        start_with_windows: flag_or(m, "start_with_windows"@, false),
        hotkey: text_or(m, "hotkey"@, "Ctrl+Alt+V"@),
        auto_check_updates: flag_or(m, "auto_check_updates"@, true),
        sort_mode: text_or(m, "sort_mode"@, "last_copied"@),
        capture_types: non_empty(split_on(text_or(m, "capture_types"@, "text,image,files,richtext"@), ',')),
        popup_opacity: text_or(m, "popup_opacity"@, "0.9"@),
        popup_bg_color: text_or(m, "popup_bg_color"@, "#1e1e22"@),
        popup_accent_color: text_or(m, "popup_accent_color"@, "#ffffff"@),
        popup_position: text_or(m, "popup_position"@, "cursor"@),
        popup_pin: text_or(m, "popup_pin"@, "bottom"@),
        clear_history_on_quit: flag_or(m, "clear_history_on_quit"@, false),
        clear_clipboard_on_quit: flag_or(m, "clear_clipboard_on_quit"@, false),
    }
}

pub open spec fn flag_text(b: bool) -> Seq<char> {
    if b {
        "true"@
    } else {
        "false"@
    }
}

/// The settings written before the hotkey is changed: the limits (those
/// given) and the start-with-Windows flag.
pub open spec fn spec_write_before_hotkey(m: Map<Seq<char>, Seq<char>>, s: SettingsView) -> Map<Seq<char>, Seq<char>> {
    let m1 = match s.max_items {
        Some(v) => m.insert("max_items"@, signed_decimal(v as int)),
        None => m,
    };
    let m2 = match s.retention_days {
        Some(v) => m1.insert("retention_days"@, signed_decimal(v as int)),
        None => m1,
    };
    m2.insert("start_with_windows"@, flag_text(s.start_with_windows))
}

/// The settings written once the hotkey has been changed: all the rest.
pub open spec fn spec_write_after_hotkey(m: Map<Seq<char>, Seq<char>>, s: SettingsView) -> Map<Seq<char>, Seq<char>> {
    m.insert("hotkey"@, s.hotkey)
        .insert("auto_check_updates"@, flag_text(s.auto_check_updates))
        .insert("sort_mode"@, s.sort_mode)
        .insert("capture_types"@, join_with(s.capture_types, ","@))
        .insert("popup_opacity"@, s.popup_opacity)
        .insert("popup_bg_color"@, s.popup_bg_color)
        .insert("popup_accent_color"@, s.popup_accent_color)
        .insert("popup_position"@, s.popup_position)
        .insert("popup_pin"@, s.popup_pin)
        .insert("clear_history_on_quit"@, flag_text(s.clear_history_on_quit))
        .insert("clear_clipboard_on_quit"@, flag_text(s.clear_clipboard_on_quit))
}

fn text_or_default(store: &HistoryStore, key: &str, default: &str) -> (r: String)
    requires
        store.wf(),
    ensures
        r@ == text_or(store.view().settings, key@, default@),
{
    match store.get_setting(key) {
        Some(v) => v,
        None => default.to_owned(),
    }
}

fn flag_or_default(store: &HistoryStore, key: &str, default: bool) -> (r: bool)
    requires
        store.wf(),
    ensures
        r == flag_or(store.view().settings, key@, default),
{
    match store.get_setting(key) {
        Some(v) => str_equal(v.as_str(), "true"),
        None => default,
    }
}

fn number_setting(store: &HistoryStore, key: &str) -> (r: Option<i64>)
    requires
        store.wf(),
    ensures
        r == number(store.view().settings, key@),
{
    match store.get_setting(key) {
        Some(v) => parse_i64(v.as_str()),
        None => None,
    }
}

/// The non-empty strings of `parts`, in order.
fn keep_non_empty(parts: Vec<String>) -> (r: Vec<String>)
    ensures
        string_views(r@) == non_empty(string_views(parts@)),
{
    let mut r: Vec<String> = Vec::new();
    let n = parts.len();
    for i in 0..n
        invariant
            n == parts@.len(),
            string_views(r@) == non_empty(string_views(parts@).take(i as int)),
    {
        assert(string_views(parts@).take(i + 1).drop_last() =~= string_views(parts@).take(i as int));
        if !parts[i].as_str().is_empty() {
            let ghost before = r@;
            r.push(parts[i].clone());
            assert(string_views(r@) =~= string_views(before).push(parts@[i as int]@));
        }
    }
    assert(string_views(parts@).take(n as int) =~= string_views(parts@));
    r
}

/// The settings `store` holds, with the defaults for those that are unset.
pub fn read_settings(store: &HistoryStore) -> (s: Settings)
    requires
        store.wf(),
    ensures
        s.view() == spec_read_settings(store.view().settings),
{
    let types = text_or_default(store, "capture_types", "text,image,files,richtext");
    let pieces = split_chars(types.as_str(), ',');
    Settings {
        max_items: number_setting(store, "max_items"),
        retention_days: number_setting(store, "retention_days"),
        start_with_windows: flag_or_default(store, "start_with_windows", false),
        hotkey: text_or_default(store, "hotkey", "Ctrl+Alt+V"),
        auto_check_updates: flag_or_default(store, "auto_check_updates", true),
        sort_mode: text_or_default(store, "sort_mode", "last_copied"),
        capture_types: keep_non_empty(pieces),
        popup_opacity: text_or_default(store, "popup_opacity", "0.9"),
        popup_bg_color: text_or_default(store, "popup_bg_color", "#1e1e22"),
        popup_accent_color: text_or_default(store, "popup_accent_color", "#ffffff"),
        popup_position: text_or_default(store, "popup_position", "cursor"),
        popup_pin: text_or_default(store, "popup_pin", "bottom"),
        clear_history_on_quit: flag_or_default(store, "clear_history_on_quit", false),
        clear_clipboard_on_quit: flag_or_default(store, "clear_clipboard_on_quit", false),
    }
}

fn flag_str(b: bool) -> (r: &'static str)
    ensures
        r@ == flag_text(b),
{
    if b {
        "true"
    } else {
        "false"
    }
}

/// Writes the settings that precede a hotkey change: `max_items` and
/// `retention_days` when given, and `start_with_windows`.
pub fn write_settings_before_hotkey(store: &mut HistoryStore, s: &Settings)
    requires
        old(store).wf(),
    ensures
        final(store).wf(),
        final(store).view().rows == old(store).view().rows,
        final(store).view().settings == spec_write_before_hotkey(old(store).view().settings, s.view()),
{
    if let Some(v) = s.max_items {
        store.set_setting("max_items", i64_to_decimal(v).as_str());
    }
    if let Some(v) = s.retention_days {
        store.set_setting("retention_days", i64_to_decimal(v).as_str());
    }
    store.set_setting("start_with_windows", flag_str(s.start_with_windows));
}

/// Writes the settings that follow a successful hotkey change: the hotkey
/// and everything else.
pub fn write_settings_after_hotkey(store: &mut HistoryStore, s: &Settings)
    requires
        old(store).wf(),
    ensures
        final(store).wf(),
        final(store).view().rows == old(store).view().rows,
        final(store).view().settings == spec_write_after_hotkey(old(store).view().settings, s.view()),
{
    store.set_setting("hotkey", s.hotkey.as_str());
    store.set_setting("auto_check_updates", flag_str(s.auto_check_updates));
    store.set_setting("sort_mode", s.sort_mode.as_str());
    store.set_setting("capture_types", join_strings(&s.capture_types, ",").as_str());
    store.set_setting("popup_opacity", s.popup_opacity.as_str());
    store.set_setting("popup_bg_color", s.popup_bg_color.as_str());
    store.set_setting("popup_accent_color", s.popup_accent_color.as_str());
    store.set_setting("popup_position", s.popup_position.as_str());
    store.set_setting("popup_pin", s.popup_pin.as_str());
    store.set_setting("clear_history_on_quit", flag_str(s.clear_history_on_quit));
    store.set_setting("clear_clipboard_on_quit", flag_str(s.clear_clipboard_on_quit));
}


proof fn lemma_split_after_separator(s: Seq<char>, sep: char)
    ensures
        split_on(s + seq![sep], sep) == split_on(s, sep).push(Seq::<char>::empty()),
{
    assert((s + seq![sep]).drop_last() =~= s);
}

proof fn lemma_split_extend(t: Seq<char>, b: Seq<char>, sep: char)
    requires
        forall|i: int| 0 <= i < b.len() ==> b[i] != sep,
    ensures
        split_on(t + b, sep).len() == split_on(t, sep).len(),
        split_on(t + b, sep).drop_last() == split_on(t, sep).drop_last(),
        split_on(t + b, sep).last() == split_on(t, sep).last() + b,
    decreases b.len(),
{
    crate::text::lemma_split_on_nonempty(t, sep);
    if b.len() == 0 {
        assert(t + b =~= t);
        assert(split_on(t, sep).last() + b =~= split_on(t, sep).last());
    } else {
        let front = b.drop_last();
        lemma_split_extend(t, front, sep);
        assert((t + b).drop_last() =~= t + front);
        assert((t + b).last() == b.last());
        crate::text::lemma_split_on_nonempty(t + front, sep);
        let p = split_on(t + front, sep);
        assert(split_on(t + b, sep) == p.update(p.len() - 1, p.last().push(b.last())));
        assert(split_on(t + b, sep).drop_last() =~= p.drop_last());
        assert(split_on(t, sep).last() + front + seq![b.last()] =~= split_on(t, sep).last() + b);
        assert(p.last().push(b.last()) =~= p.last() + seq![b.last()]);
    }
}

/// No piece contains `sep`.
pub open spec fn free_of(parts: Seq<Seq<char>>, sep: char) -> bool {
    forall|i: int, j: int| 0 <= i < parts.len() && 0 <= j < parts[i].len() ==> parts[i][j] != sep
}

proof fn lemma_split_join(parts: Seq<Seq<char>>)
    requires
        parts.len() > 0,
        free_of(parts, ','),
    ensures
        split_on(join_with(parts, ","@), ',') == parts,
    decreases parts.len(),
{
    reveal_strlit(",");
    if parts.len() == 1 {
        assert forall|j: int| 0 <= j < parts[0].len() implies parts[0][j] != ',' by {}
        lemma_split_extend(Seq::<char>::empty(), parts[0], ',');
        assert(Seq::<char>::empty() + parts[0] =~= parts[0]);
        assert(split_on(Seq::<char>::empty(), ',') =~= seq![Seq::<char>::empty()]);
        assert(Seq::<char>::empty() + parts[0] =~= parts[0]);
        assert(split_on(parts[0], ',') =~= parts);
    } else {
        let front = parts.drop_last();
        assert(free_of(front, ','));
        lemma_split_join(front);
        let j = join_with(front, ","@);
        assert(","@ =~= seq![',']);
        lemma_split_after_separator(j, ',');
        assert forall|k: int| 0 <= k < parts.last().len() implies parts.last()[k] != ',' by {
            assert(parts.last() == parts[parts.len() - 1]);
        }
        lemma_split_extend(j + seq![','], parts.last(), ',');
        assert(join_with(parts, ","@) =~= (j + seq![',']) + parts.last());
        let r = split_on(join_with(parts, ","@), ',');
        assert(Seq::<char>::empty() + parts.last() =~= parts.last());
        let t = split_on(j + seq![','], ',');
        assert(t == front.push(Seq::<char>::empty()));
        assert(t.drop_last() =~= front);
        assert(t.last() == Seq::<char>::empty());
        assert(r.drop_last() == front);
        assert(r.last() == parts.last());
        assert(r.len() == parts.len());
        assert(r =~= r.drop_last().push(r.last()));
        assert(parts =~= front.push(parts.last()));
    }
}

proof fn lemma_non_empty_all(parts: Seq<Seq<char>>)
    requires
        forall|i: int| 0 <= i < parts.len() ==> parts[i].len() > 0,
    ensures
        non_empty(parts) == parts,
    decreases parts.len(),
{
    if parts.len() > 0 {
        lemma_non_empty_all(parts.drop_last());
        assert(non_empty(parts.drop_last()).push(parts.last()) =~= parts);
    }
}

/// Capture types that survive a write and a read: each non-empty and free
/// of commas.
pub open spec fn capture_types_storable(types: Seq<Seq<char>>) -> bool {
    &&& forall|i: int| 0 <= i < types.len() ==> types[i].len() > 0
    &&& free_of(types, ',')
}

proof fn lemma_capture_types_round_trip(types: Seq<Seq<char>>)
    requires
        capture_types_storable(types),
    ensures
        non_empty(split_on(join_with(types, ","@), ',')) == types,
{
    if types.len() == 0 {
        assert(split_on(Seq::<char>::empty(), ',') =~= seq![Seq::<char>::empty()]);
        assert(seq![Seq::<char>::empty()].drop_last() =~= Seq::<Seq<char>>::empty());
        assert(non_empty(Seq::<Seq<char>>::empty()) == Seq::<Seq<char>>::empty());
        assert(non_empty(seq![Seq::<char>::empty()]) =~= Seq::<Seq<char>>::empty());
    } else {
        lemma_split_join(types);
        lemma_non_empty_all(types);
    }
}

/// Writing settings and reading them back gives the same settings: every
/// field as written, except that a limit (`max_items`, `retention_days`) not
/// given keeps its earlier value. Capture types must each be non-empty and
/// free of commas, since they are stored as one comma-separated list.
pub proof fn lemma_settings_round_trip(m: Map<Seq<char>, Seq<char>>, s: SettingsView)
    requires
        capture_types_storable(s.capture_types),
    ensures
        ({
            let r = spec_read_settings(spec_write_after_hotkey(spec_write_before_hotkey(m, s), s));
            let before = spec_read_settings(m);
            &&& r.max_items == (if s.max_items is Some { s.max_items } else { before.max_items })
            &&& r.retention_days == (if s.retention_days is Some { s.retention_days } else { before.retention_days })
            &&& r.start_with_windows == s.start_with_windows
            &&& r.hotkey == s.hotkey
            &&& r.auto_check_updates == s.auto_check_updates
            &&& r.sort_mode == s.sort_mode
            &&& r.capture_types == s.capture_types
            &&& r.popup_opacity == s.popup_opacity
            &&& r.popup_bg_color == s.popup_bg_color
            &&& r.popup_accent_color == s.popup_accent_color
            &&& r.popup_position == s.popup_position
            &&& r.popup_pin == s.popup_pin
            &&& r.clear_history_on_quit == s.clear_history_on_quit
            &&& r.clear_clipboard_on_quit == s.clear_clipboard_on_quit
        }),
{
    reveal_strlit("max_items");
    reveal_strlit("retention_days");
    reveal_strlit("start_with_windows");
    reveal_strlit("hotkey");
    reveal_strlit("auto_check_updates");
    reveal_strlit("sort_mode");
    reveal_strlit("capture_types");
    reveal_strlit("popup_opacity");
    reveal_strlit("popup_bg_color");
    reveal_strlit("popup_accent_color");
    reveal_strlit("popup_position");
    reveal_strlit("popup_pin");
    reveal_strlit("clear_history_on_quit");
    reveal_strlit("clear_clipboard_on_quit");
    reveal_strlit("true");
    reveal_strlit("false");
    lemma_capture_types_round_trip(s.capture_types);
    if let Some(v) = s.max_items {
        crate::text::lemma_parse_signed_decimal(v);
    }
    if let Some(v) = s.retention_days {
        crate::text::lemma_parse_signed_decimal(v);
    }
    let names = seq![
        "max_items"@,
        "retention_days"@,
        "start_with_windows"@,
        "hotkey"@,
        "auto_check_updates"@,
        "sort_mode"@,
        "capture_types"@,
        "popup_opacity"@,
        "popup_bg_color"@,
        "popup_accent_color"@,
        "popup_position"@,
        "popup_pin"@,
        "clear_history_on_quit"@,
        "clear_clipboard_on_quit"@
    ];
    assert forall|i: int, j: int| 0 <= i < j < names.len() implies names[i] != names[j] by {
        if names[i].len() == names[j].len() {
            assert(names[i][0] != names[j][0] || names[i][names[i].len() - 1] != names[j][names[j].len() - 1]
                || names[i][6] != names[j][6]);
        }
    }
    assert("true"@ != "false"@) by {
        assert("true"@.len() != "false"@.len());
    }
}

} // verus!
