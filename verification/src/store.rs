//! The clipboard history store: captured items with dedup-by-content and
//! bump-to-top, pruning by count and age, deletion, and key/value settings.
//!
//! The store is held in memory; the application loads it from and saves it
//! to its database file.
use vstd::prelude::*;

use crate::dedup::{dedup_key, spec_dedup_key};
use crate::text::{parse_i64, spec_parse_i64, str_equal};

verus! {

/// A stored clipboard history entry.
pub struct HistoryItem {
    pub id: i64,
    /// `"text"`, `"richtext"`, `"image"` or `"files"`.
    pub kind: String,
    /// The text itself for `text`; a JSON array of paths for `files`.
    pub content: Option<String>,
    /// Path of the stored PNG for `image`.
    /// The plain-text alternative of a `richtext` item.
    pub content_alt: Option<String>,
    pub image_path: Option<String>,
    /// Short display string.
    pub preview: String,
    /// Unix milliseconds of the latest copy of this content.
    pub created_at: i64,
}

/// A clipboard capture to be recorded.
pub struct NewItem {
    pub kind: String,
    pub content: Option<String>,
    /// The plain-text alternative of a `richtext` item.
    pub content_alt: Option<String>,
    pub image_path: Option<String>,
    pub preview: String,
    /// The text whose hash identifies repeated copies of the same content.
    pub dedup_source: String,
}

/// A history entry together with its dedup key, as persisted.
pub struct StoredItem {
    pub item: HistoryItem,
    pub dedup_key: String,
}

/// Why a capture could not be recorded.
#[derive(Clone, Copy, PartialEq, Eq, Debug, Structural)]
pub enum StoreError {
    /// The largest possible id is already taken, so a new row gets none.
    IdsExhausted,
    /// The system clock reads earlier than the Unix epoch, so the capture
    /// has no time.
    ClockBeforeEpoch,
}

pub open spec fn opt_view(o: Option<String>) -> Option<Seq<char>> {
    match o {
        Some(s) => Some(s@),
        None => None,
    }
}

pub struct ItemView {
    pub id: i64,
    pub kind: Seq<char>,
    pub content: Option<Seq<char>>,
    pub content_alt: Option<Seq<char>>,
    pub image_path: Option<Seq<char>>,
    pub preview: Seq<char>,
    pub created_at: i64,
}

pub struct RowView {
    pub item: ItemView,
    pub dedup_key: Seq<char>,
}

pub struct NewItemView {
    pub kind: Seq<char>,
    pub content: Option<Seq<char>>,
    pub content_alt: Option<Seq<char>>,
    pub image_path: Option<Seq<char>>,
    pub preview: Seq<char>,
    pub dedup_source: Seq<char>,
}

/// The store's contents: its rows, newest first, and its settings.
pub struct StoreView {
    pub rows: Seq<RowView>,
    pub settings: Map<Seq<char>, Seq<char>>,
}

impl HistoryItem {
    pub open spec fn view(&self) -> ItemView {
        ItemView {
            id: self.id,
            kind: self.kind@,
            content: opt_view(self.content),
            content_alt: opt_view(self.content_alt),
            image_path: opt_view(self.image_path),
            preview: self.preview@,
            created_at: self.created_at,
        }
    }
}

impl NewItem {
    pub open spec fn view(&self) -> NewItemView {
        NewItemView {
            kind: self.kind@,
            content: opt_view(self.content),
            content_alt: opt_view(self.content_alt),
            image_path: opt_view(self.image_path),
            preview: self.preview@,
            dedup_source: self.dedup_source@,
        }
    }
}

impl StoredItem {
    pub open spec fn view(&self) -> RowView {
        RowView { item: self.item.view(), dedup_key: self.dedup_key@ }
    }
}

struct Setting {
    key: String,
    value: String,
}

/// Whether no two settings pairs share a key.
pub open spec fn keys_unique(p: Seq<(Seq<char>, Seq<char>)>) -> bool {
    forall|i: int, j: int| 0 <= i < j < p.len() ==> p[i].0 != p[j].0
}

/// The map that a list of `(key, value)` pairs denotes.
pub open spec fn pairs_map(p: Seq<(Seq<char>, Seq<char>)>) -> Map<Seq<char>, Seq<char>>
    decreases p.len(),
{
    if p.len() == 0 {
        Map::empty()
    } else {
        pairs_map(p.drop_last()).insert(p.last().0, p.last().1)
    }
}

proof fn lemma_pairs_map_absent(p: Seq<(Seq<char>, Seq<char>)>, k: Seq<char>)
    requires
        forall|i: int| 0 <= i < p.len() ==> p[i].0 != k,
    ensures
        !pairs_map(p).contains_key(k),
    decreases p.len(),
{
    if p.len() > 0 {
        lemma_pairs_map_absent(p.drop_last(), k);
    }
}

proof fn lemma_pairs_map_present(p: Seq<(Seq<char>, Seq<char>)>, i: int)
    requires
        keys_unique(p),
        0 <= i < p.len(),
    ensures
        pairs_map(p).contains_key(p[i].0),
        pairs_map(p)[p[i].0] == p[i].1,
    decreases p.len(),
{
    if i < p.len() - 1 {
        lemma_pairs_map_present(p.drop_last(), i);
    }
}

proof fn lemma_pairs_map_update(p: Seq<(Seq<char>, Seq<char>)>, i: int, v: Seq<char>)
    requires
        keys_unique(p),
        0 <= i < p.len(),
    ensures
        pairs_map(p.update(i, (p[i].0, v))) =~= pairs_map(p).insert(p[i].0, v),
    decreases p.len(),
{
    let q = p.update(i, (p[i].0, v));
    if i == p.len() - 1 {
        assert(q.drop_last() =~= p.drop_last());
        lemma_pairs_map_absent(p.drop_last(), p[i].0);
    } else {
        assert(q.drop_last() =~= p.drop_last().update(i, (p[i].0, v)));
        lemma_pairs_map_update(p.drop_last(), i, v);
    }
}

/// The history store.
pub struct HistoryStore {
    rows: Vec<StoredItem>,
    settings: Vec<Setting>,
}

impl HistoryStore {
    closed spec fn setting_pairs(&self) -> Seq<(Seq<char>, Seq<char>)> {
        self.settings@.map_values(|s: Setting| (s.key@, s.value@))
    }

    pub closed spec fn view(&self) -> StoreView {
        StoreView {
            rows: self.rows@.map_values(|r: StoredItem| r.view()),
            settings: pairs_map(self.setting_pairs()),
        }
    }

    /// The store's internal consistency: see `store_view_wf`.
    pub closed spec fn wf(&self) -> bool {
        &&& store_view_wf(self.view())
        &&& keys_unique(self.setting_pairs())
    }

    /// A well-formed store's history is well-formed: newest first, with no
    /// two rows sharing an id or a dedup key.
    pub proof fn lemma_history_wf(&self)
        requires
            self.wf(),
        ensures
            store_view_wf(self.view()),
            newest_first(self.view().rows),
    {
    }

    /// An empty store with no settings.
    pub fn new() -> (store: Self)
        ensures
            store.wf(),
            store.view().rows == Seq::<RowView>::empty(),
            store.view().settings == Map::<Seq<char>, Seq<char>>::empty(),
    {
        let store = HistoryStore { rows: Vec::new(), settings: Vec::new() };
        assert(store.view().rows =~= Seq::<RowView>::empty());
        store
    }

    /// Index of the setting named `key`, if any.
    fn setting_index(&self, key: &str) -> (r: Option<usize>)
        requires
            self.wf(),
        ensures
            match r {
                Some(i) => i < self.settings@.len() && self.setting_pairs()[i as int].0 == key@,
                None => forall|j: int| 0 <= j < self.settings@.len() ==> self.setting_pairs()[j].0 != key@,
            },
    {
        let n = self.settings.len();
        for i in 0..n
            invariant
                n == self.settings@.len(),
                forall|j: int| 0 <= j < i ==> self.setting_pairs()[j].0 != key@,
        {
            if str_equal(self.settings[i].key.as_str(), key) {
                return Some(i);
            }
        }
        None
    }

    /// The value of setting `key`, if set.
    pub fn get_setting(&self, key: &str) -> (value: Option<String>)
        requires
            self.wf(),
        ensures
            opt_view(value) == self.view().settings.get(key@),
    {
        match self.setting_index(key) {
            Some(i) => {
                proof {
                    lemma_pairs_map_present(self.setting_pairs(), i as int);
                }
                Some(self.settings[i].value.clone())
            },
            None => {
                proof {
                    lemma_pairs_map_absent(self.setting_pairs(), key@);
                }
                None
            },
        }
    }

    /// Sets `key` to `value`, replacing any previous value.
    pub fn set_setting(&mut self, key: &str, value: &str)
        requires
            old(self).wf(),
        ensures
            final(self).wf(),
            final(self).view().rows == old(self).view().rows,
            final(self).view().settings == old(self).view().settings.insert(key@, value@),
    {
        match self.setting_index(key) {
            Some(i) => {
                proof {
                    lemma_pairs_map_update(self.setting_pairs(), i as int, value@);
                }
                let ghost before = self.setting_pairs();
                self.settings.set(i, Setting { key: key.to_owned(), value: value.to_owned() });
                assert(self.setting_pairs() =~= before.update(i as int, (before[i as int].0, value@)));
                assert(keys_unique(self.setting_pairs()));
            },
            None => {
                let ghost before = self.setting_pairs();
                self.settings.push(Setting { key: key.to_owned(), value: value.to_owned() });
                assert(self.setting_pairs().drop_last() =~= before);
                assert(self.setting_pairs() =~= before.push((key@, value@)));
                assert(keys_unique(self.setting_pairs()));
            },
        }
    }
}

/// The rows are newest first, and no two rows share an id or a dedup key.
pub open spec fn store_view_wf(v: StoreView) -> bool {
    rows_wf(v.rows)
}

/// Rows newest first, with no two sharing an id or a dedup key.
pub open spec fn rows_wf(rows: Seq<RowView>) -> bool {
    &&& newest_first(rows)
    &&& forall|i: int, j: int| 0 <= i < j < rows.len() ==> rows[i].dedup_key != rows[j].dedup_key
    &&& forall|i: int, j: int| 0 <= i < j < rows.len() ==> rows[i].item.id != rows[j].item.id
}

/// Rows ordered by `created_at`, largest first.
pub open spec fn newest_first(rows: Seq<RowView>) -> bool {
    forall|i: int, j: int| 0 <= i < j < rows.len() ==> rows[i].item.created_at >= rows[j].item.created_at
}


/// The position of the row whose dedup key is `key`, if any.
pub open spec fn key_position(rows: Seq<RowView>, key: Seq<char>) -> Option<int> {
    if exists|i: int| 0 <= i < rows.len() && rows[i].dedup_key == key {
        Some(choose|i: int| 0 <= i < rows.len() && rows[i].dedup_key == key)
    } else {
        None
    }
}

/// The position of the row whose id is `id`, if any.
pub open spec fn id_position(rows: Seq<RowView>, id: i64) -> Option<int> {
    if exists|i: int| 0 <= i < rows.len() && rows[i].item.id == id {
        Some(choose|i: int| 0 <= i < rows.len() && rows[i].item.id == id)
    } else {
        None
    }
}

/// `rows` with `r` inserted after every row newer than it (and before every
/// row at least as old).
pub open spec fn insert_by_time(rows: Seq<RowView>, r: RowView) -> Seq<RowView>
    decreases rows.len(),
{
    if rows.len() == 0 {
        seq![r]
    } else if rows[0].item.created_at > r.item.created_at {
        seq![rows[0]] + insert_by_time(rows.drop_first(), r)
    } else {
        seq![r] + rows
    }
}

/// The largest id among `rows` (0 when there are none).
pub open spec fn max_id(rows: Seq<RowView>) -> int
    decreases rows.len(),
{
    if rows.len() == 0 {
        0
    } else if rows.len() == 1 {
        rows[0].item.id as int
    } else {
        let m = max_id(rows.drop_last());
        if rows.last().item.id > m {
            rows.last().item.id as int
        } else {
            m
        }
    }
}

/// The id a new row receives: one more than the largest id in use, or 1 in
/// an empty history.
pub open spec fn next_id(rows: Seq<RowView>) -> int {
    if rows.len() == 0 {
        1
    } else {
        max_id(rows) + 1
    }
}

/// Recording a capture at time `now`: a row with the same dedup key gets its
/// `created_at` set to `now` and moves to its place by time, keeping its id
/// and contents; otherwise a new row is added with the next id. Gives the
/// new contents and the row's id.
pub open spec fn spec_record(v: StoreView, item: NewItemView, now: i64) -> Result<(StoreView, i64), StoreError> {
    let key = spec_dedup_key(item.dedup_source);
    match key_position(v.rows, key) {
        Some(i) => {
            let old_row = v.rows[i];
            let bumped = RowView { item: ItemView { created_at: now, ..old_row.item }, dedup_key: key };
            Ok((StoreView { rows: insert_by_time(v.rows.remove(i), bumped), settings: v.settings }, old_row.item.id))
        },
        None => {
            if next_id(v.rows) > i64::MAX {
                Err(StoreError::IdsExhausted)
            } else {
                let id = next_id(v.rows) as i64;
                let row = RowView {
                    item: ItemView {
                        id,
                        kind: item.kind,
                        content: item.content,
                        content_alt: item.content_alt,
                        image_path: item.image_path,
                        preview: item.preview,
                        created_at: now,
                    },
                    dedup_key: key,
                };
                Ok((StoreView { rows: insert_by_time(v.rows, row), settings: v.settings }, id))
            }
        },
    }
}

/// The setting `key` parsed as an `i64`, if it is set and parses.
pub open spec fn setting_i64(settings: Map<Seq<char>, Seq<char>>, key: Seq<char>) -> Option<i64> {
    match settings.get(key) {
        Some(v) => spec_parse_i64(v),
        None => None,
    }
}

/// Milliseconds in a day.
pub const MS_PER_DAY: i64 = 86_400_000;

/// The oldest `created_at` kept under a retention of `days` days at time
/// `now` (with wrapping arithmetic).
pub open spec fn retention_cutoff(now: i64, days: i64) -> i64 {
    now.wrapping_sub(days.wrapping_mul(MS_PER_DAY))
}

/// The rows created at or after `cutoff`, in order.
pub open spec fn kept_since(rows: Seq<RowView>, cutoff: i64) -> Seq<RowView>
    decreases rows.len(),
{
    if rows.len() == 0 {
        Seq::empty()
    } else {
        let kept = kept_since(rows.drop_last(), cutoff);
        if rows.last().item.created_at >= cutoff {
            kept.push(rows.last())
        } else {
            kept
        }
    }
}

/// The rows left by the `max_items` limit: the newest `max_items` when it is
/// a non-negative integer, all of them otherwise (a negative limit is no
/// limit).
pub open spec fn limited(rows: Seq<RowView>, settings: Map<Seq<char>, Seq<char>>) -> Seq<RowView> {
    match setting_i64(settings, "max_items"@) {
        Some(m) => if m < 0 {
            rows
        } else if m < rows.len() {
            rows.take(m as int)
        } else {
            rows
        },
        None => rows,
    }
}

/// Pruning at time `now`: first the `max_items` limit, then the removal of
/// rows older than `retention_days` days, when that setting parses.
pub open spec fn spec_prune(v: StoreView, now: i64) -> StoreView {
    let rows = limited(v.rows, v.settings);
    let rows = match setting_i64(v.settings, "retention_days"@) {
        Some(days) => kept_since(rows, retention_cutoff(now, days)),
        None => rows,
    };
    StoreView { rows, settings: v.settings }
}

/// The image paths of the rows that pruning at `now` removes, newest first.
pub open spec fn spec_evicted(v: StoreView, now: i64) -> Seq<Seq<char>> {
    image_paths(v.rows.subrange(spec_prune(v, now).rows.len() as int, v.rows.len() as int))
}

/// Deleting the row with `id`: the new contents, and that row's image path.
pub open spec fn spec_delete(v: StoreView, id: i64) -> (StoreView, Option<Seq<char>>) {
    match id_position(v.rows, id) {
        Some(i) => (StoreView { rows: v.rows.remove(i), settings: v.settings }, v.rows[i].item.image_path),
        None => (v, None),
    }
}

/// The image paths of `rows`, in order.
pub open spec fn image_paths(rows: Seq<RowView>) -> Seq<Seq<char>>
    decreases rows.len(),
{
    if rows.len() == 0 {
        Seq::empty()
    } else {
        let p = image_paths(rows.drop_last());
        match rows.last().item.image_path {
            Some(path) => p.push(path),
            None => p,
        }
    }
}

proof fn lemma_insert_by_time_at(rows: Seq<RowView>, r: RowView, k: int)
    requires
        0 <= k <= rows.len(),
        forall|j: int| 0 <= j < k ==> rows[j].item.created_at > r.item.created_at,
        k < rows.len() ==> rows[k].item.created_at <= r.item.created_at,
    ensures
        insert_by_time(rows, r) =~= rows.insert(k, r),
    decreases k,
{
    if k > 0 {
        let rest = rows.drop_first();
        assert forall|j: int| 0 <= j < k - 1 implies rest[j].item.created_at > r.item.created_at by {
            assert(rest[j] == rows[j + 1]);
        }
        lemma_insert_by_time_at(rest, r, k - 1);
        assert(rows.insert(k, r) =~= seq![rows[0]] + rest.insert(k - 1, r));
    } else {
        if rows.len() > 0 {
            assert(rows.insert(0, r) =~= seq![r] + rows);
        } else {
            assert(rows.insert(0, r) =~= seq![r]);
        }
    }
}

proof fn lemma_max_id_bounds(rows: Seq<RowView>)
    requires
        rows.len() > 0,
    ensures
        forall|i: int| 0 <= i < rows.len() ==> rows[i].item.id <= max_id(rows),
        i64::MIN <= max_id(rows) <= i64::MAX,
    decreases rows.len(),
{
    if rows.len() > 1 {
        lemma_max_id_bounds(rows.drop_last());
        assert forall|i: int| 0 <= i < rows.len() implies rows[i].item.id <= max_id(rows) by {
            if i < rows.len() - 1 {
                assert(rows[i] == rows.drop_last()[i]);
            }
        }
    }
}

proof fn lemma_kept_since_all(rows: Seq<RowView>, cutoff: i64)
    requires
        forall|i: int| 0 <= i < rows.len() ==> rows[i].item.created_at >= cutoff,
    ensures
        kept_since(rows, cutoff) =~= rows,
    decreases rows.len(),
{
    if rows.len() > 0 {
        lemma_kept_since_all(rows.drop_last(), cutoff);
    }
}

proof fn lemma_kept_since_prefix(rows: Seq<RowView>, cutoff: i64, k: int)
    requires
        newest_first(rows),
        0 <= k <= rows.len(),
        forall|j: int| 0 <= j < k ==> rows[j].item.created_at >= cutoff,
        k < rows.len() ==> rows[k].item.created_at < cutoff,
    ensures
        kept_since(rows, cutoff) =~= rows.take(k),
    decreases rows.len(),
{
    if rows.len() > 0 {
        if k == rows.len() {
            lemma_kept_since_all(rows, cutoff);
        } else {
            let last = rows.len() - 1;
            assert(rows[last].item.created_at <= rows[k].item.created_at);
            let front = rows.drop_last();
            assert forall|j: int| 0 <= j < k implies front[j].item.created_at >= cutoff by {
                assert(front[j] == rows[j]);
            }
            if k < front.len() {
                assert(front[k] == rows[k]);
            }
            lemma_kept_since_prefix(front, cutoff, k);
            assert(front.take(k) =~= rows.take(k));
        }
    }
}

/// Inserting by time keeps rows newest first.
proof fn lemma_insert_keeps_order(rows: Seq<RowView>, r: RowView, k: int)
    requires
        newest_first(rows),
        0 <= k <= rows.len(),
        forall|j: int| 0 <= j < k ==> rows[j].item.created_at > r.item.created_at,
        k < rows.len() ==> rows[k].item.created_at <= r.item.created_at,
    ensures
        newest_first(rows.insert(k, r)),
{
    let s = rows.insert(k, r);
    assert forall|i: int, j: int| 0 <= i < j < s.len() implies s[i].item.created_at >= s[j].item.created_at by {
        if i < k {
            assert(s[i] == rows[i]);
        } else if i == k {
            assert(s[i] == r);
            assert(s[j] == rows[j - 1]);
        } else {
            assert(s[i] == rows[i - 1]);
            assert(s[j] == rows[j - 1]);
        }
        if i < k && j == k {
            assert(s[j] == r);
        } else if i < k && j > k {
            assert(s[j] == rows[j - 1]);
        }
    }
}

proof fn lemma_remove_keeps_order(rows: Seq<RowView>, i: int)
    requires
        newest_first(rows),
        0 <= i < rows.len(),
    ensures
        newest_first(rows.remove(i)),
{
    let s = rows.remove(i);
    assert forall|a: int, b: int| 0 <= a < b < s.len() implies s[a].item.created_at >= s[b].item.created_at by {
        let a0 = if a < i { a } else { a + 1 };
        let b0 = if b < i { b } else { b + 1 };
        assert(s[a] == rows[a0]);
        assert(s[b] == rows[b0]);
    }
}

impl HistoryStore {
    closed spec fn row_views(rows: Seq<StoredItem>) -> Seq<RowView> {
        rows.map_values(|r: StoredItem| r.view())
    }

    /// The position of the row with dedup key `key`, if any.
    fn find_key(&self, key: &String) -> (r: Option<usize>)
        requires
            self.wf(),
        ensures
            match r {
                Some(i) => i < self.rows@.len() && key_position(self.view().rows, key@) == Some(i as int),
                None => key_position(self.view().rows, key@) is None,
            },
    {
        let n = self.rows.len();
        for i in 0..n
            invariant
                n == self.rows@.len(),
                self.wf(),
                forall|j: int| 0 <= j < i ==> self.view().rows[j].dedup_key != key@,
        {
            if self.rows[i].dedup_key == *key {
                assert(self.view().rows[i as int].dedup_key == key@);
                return Some(i);
            }
        }
        None
    }

    /// The position of the row with `id`, if any.
    fn find_id(&self, id: i64) -> (r: Option<usize>)
        requires
            self.wf(),
        ensures
            match r {
                Some(i) => i < self.rows@.len() && id_position(self.view().rows, id) == Some(i as int),
                None => id_position(self.view().rows, id) is None,
            },
    {
        let n = self.rows.len();
        for i in 0..n
            invariant
                n == self.rows@.len(),
                self.wf(),
                forall|j: int| 0 <= j < i ==> self.view().rows[j].item.id != id,
        {
            if self.rows[i].item.id == id {
                assert(self.view().rows[i as int].item.id == id);
                return Some(i);
            }
        }
        None
    }

    /// Where a row created at `t` goes: after every row newer than it.
    fn insert_position(&self, t: i64) -> (k: usize)
        ensures
            k <= self.rows@.len(),
            forall|j: int| 0 <= j < k ==> self.view().rows[j].item.created_at > t,
            k < self.rows@.len() ==> self.view().rows[k as int].item.created_at <= t,
    {
        let n = self.rows.len();
        let mut k: usize = 0;
        while k < n
            invariant
                k <= n,
                n == self.rows@.len(),
                forall|j: int| 0 <= j < k ==> self.view().rows[j].item.created_at > t,
            decreases n - k,
        {
            if self.rows[k].item.created_at <= t {
                return k;
            }
            k = k + 1;
        }
        k
    }

    /// The id for a new row, if one is left.
    fn new_id(&self) -> (r: Option<i64>)
        ensures
            match r {
                Some(id) => id == next_id(self.view().rows),
                None => next_id(self.view().rows) > i64::MAX,
            },
    {
        let n = self.rows.len();
        if n == 0 {
            return Some(1);
        }
        let ghost rows = self.view().rows;
        let mut m: i64 = self.rows[0].item.id;
        assert(rows.take(1).drop_last() =~= Seq::<RowView>::empty());
        for i in 1..n
            invariant
                n == self.rows@.len(),
                rows == self.view().rows,
                m == max_id(rows.take(i as int)),
        {
            assert(rows.take(i + 1).drop_last() =~= rows.take(i as int));
            if self.rows[i].item.id > m {
                m = self.rows[i].item.id;
            }
        }
        assert(rows.take(n as int) =~= rows);
        if m == i64::MAX {
            None
        } else {
            Some(m + 1)
        }
    }

    /// Records a capture made at time `now` (bumping a row with the same dedup
    /// key, or adding a row), without pruning. Gives the row's id.
    pub fn record(&mut self, item: NewItem, now: i64) -> (r: Result<i64, StoreError>)
        requires
            old(self).wf(),
        ensures
            final(self).wf(),
            match spec_record(old(self).view(), item.view(), now) {
                Ok((v, id)) => r == Ok::<i64, StoreError>(id) && final(self).view() == v,
                Err(e) => r == Err::<i64, StoreError>(e) && final(self).view() == old(self).view(),
            },
    {
        let key = dedup_key(item.dedup_source.as_str());
        match self.find_key(&key) {
            Some(i) => Ok(self.bump_row(i, key, now)),
            None => {
                match self.new_id() {
                    None => Err(StoreError::IdsExhausted),
                    Some(id) => {
                        let row = StoredItem {
                            item: HistoryItem {
                                id,
                                kind: item.kind,
                                content: item.content,
                                content_alt: item.content_alt,
                                image_path: item.image_path,
                                preview: item.preview,
                                created_at: now,
                            },
                            dedup_key: key,
                        };
                        self.add_row(row);
                        Ok(id)
                    },
                }
            },
        }
    }

    /// Moves row `i` to time `now`, giving its id.
    fn bump_row(&mut self, i: usize, key: String, now: i64) -> (id: i64)
        requires
            old(self).wf(),
            i < old(self).rows@.len(),
            old(self).view().rows[i as int].dedup_key == key@,
        ensures
            final(self).wf(),
            id == old(self).view().rows[i as int].item.id,
            final(self).view() == (StoreView {
                rows: insert_by_time(
                    old(self).view().rows.remove(i as int),
                    RowView {
                        item: ItemView { created_at: now, ..old(self).view().rows[i as int].item },
                        dedup_key: key@,
                    },
                ),
                settings: old(self).view().settings,
            }),
    {
        let ghost v0 = self.view();
        let mut row = self.rows.remove(i);
        let ghost removed = Self::row_views(self.rows@);
        assert(removed =~= v0.rows.remove(i as int));
        row.item.created_at = now;
        row.dedup_key = key;
        let id = row.item.id;
        let k = self.insert_position(now);
        let ghost rv = row.view();
        self.rows.insert(k, row);
        proof {
            lemma_insert_by_time_at(removed, rv, k as int);
            lemma_bump_keeps_wf(v0.rows, i as int, rv, k as int);
            assert(Self::row_views(self.rows@) =~= removed.insert(k as int, rv));
        }
        id
    }

    /// Adds a row whose dedup key and id are both new.
    fn add_row(&mut self, row: StoredItem)
        requires
            old(self).wf(),
            key_position(old(self).view().rows, row.dedup_key@) is None,
            row.item.id == next_id(old(self).view().rows),
        ensures
            final(self).wf(),
            final(self).view() == (StoreView {
                rows: insert_by_time(old(self).view().rows, row.view()),
                settings: old(self).view().settings,
            }),
    {
        let ghost v0 = self.view();
        let k = self.insert_position(row.item.created_at);
        let ghost rv = row.view();
        self.rows.insert(k, row);
        proof {
            lemma_insert_by_time_at(v0.rows, rv, k as int);
            if v0.rows.len() > 0 {
                lemma_max_id_bounds(v0.rows);
            }
            lemma_add_keeps_wf(v0.rows, rv, k as int);
            assert(Self::row_views(self.rows@) =~= v0.rows.insert(k as int, rv));
        }
    }
}

proof fn lemma_bump_keeps_wf(rows: Seq<RowView>, i: int, r: RowView, k: int)
    requires
        rows_wf(rows),
        0 <= i < rows.len(),
        r.dedup_key == rows[i].dedup_key,
        r.item.id == rows[i].item.id,
        0 <= k <= rows.len() - 1,
        forall|j: int| 0 <= j < k ==> rows.remove(i)[j].item.created_at > r.item.created_at,
        k < rows.len() - 1 ==> rows.remove(i)[k].item.created_at <= r.item.created_at,
    ensures
        rows_wf(rows.remove(i).insert(k, r)),
{
    let removed = rows.remove(i);
    lemma_remove_keeps_order(rows, i);
    lemma_insert_keeps_order(removed, r, k);
    let s = removed.insert(k, r);
    assert forall|a: int, b: int| 0 <= a < b < s.len() implies s[a].dedup_key != s[b].dedup_key
        && s[a].item.id != s[b].item.id by {
        let a0 = if a < k { a } else if a == k { -1 } else { a - 1 };
        let b0 = if b < k { b } else if b == k { -1 } else { b - 1 };
        let a1 = if a0 < 0 { i } else if a0 < i { a0 } else { a0 + 1 };
        let b1 = if b0 < 0 { i } else if b0 < i { b0 } else { b0 + 1 };
        assert(s[a] == (if a0 < 0 { r } else { removed[a0] }));
        assert(s[b] == (if b0 < 0 { r } else { removed[b0] }));
        assert(a1 != b1);
        assert(s[a].dedup_key == rows[a1].dedup_key);
        assert(s[b].dedup_key == rows[b1].dedup_key);
        assert(s[a].item.id == rows[a1].item.id);
        assert(s[b].item.id == rows[b1].item.id);
    }
}

proof fn lemma_add_keeps_wf(rows: Seq<RowView>, r: RowView, k: int)
    requires
        rows_wf(rows),
        forall|j: int| 0 <= j < rows.len() ==> rows[j].dedup_key != r.dedup_key,
        forall|j: int| 0 <= j < rows.len() ==> rows[j].item.id < r.item.id,
        0 <= k <= rows.len(),
        forall|j: int| 0 <= j < k ==> rows[j].item.created_at > r.item.created_at,
        k < rows.len() ==> rows[k].item.created_at <= r.item.created_at,
    ensures
        rows_wf(rows.insert(k, r)),
{
    lemma_insert_keeps_order(rows, r, k);
    let s = rows.insert(k, r);
    assert forall|a: int, b: int| 0 <= a < b < s.len() implies s[a].dedup_key != s[b].dedup_key
        && s[a].item.id != s[b].item.id by {
        if a != k && b != k {
            let a0 = if a < k { a } else { a - 1 };
            let b0 = if b < k { b } else { b - 1 };
            assert(s[a] == rows[a0]);
            assert(s[b] == rows[b0]);
        } else if a == k {
            assert(s[b] == rows[b - 1]);
        } else {
            assert(s[a] == rows[a]);
        }
    }
}


proof fn lemma_take_keeps_wf(rows: Seq<RowView>, k: int)
    requires
        rows_wf(rows),
        0 <= k <= rows.len(),
    ensures
        rows_wf(rows.take(k)),
{
    let t = rows.take(k);
    assert forall|a: int, b: int| 0 <= a < b < t.len() implies t[a] == rows[a] && t[b] == rows[b] by {}
}

proof fn lemma_remove_keeps_wf(rows: Seq<RowView>, i: int)
    requires
        rows_wf(rows),
        0 <= i < rows.len(),
    ensures
        rows_wf(rows.remove(i)),
{
    lemma_remove_keeps_order(rows, i);
    let s = rows.remove(i);
    assert forall|a: int, b: int| 0 <= a < b < s.len() implies s[a].dedup_key != s[b].dedup_key
        && s[a].item.id != s[b].item.id by {
        let a0 = if a < i { a } else { a + 1 };
        let b0 = if b < i { b } else { b + 1 };
        assert(s[a] == rows[a0]);
        assert(s[b] == rows[b0]);
    }
}

/// `std::time::SystemTime`, declared to Verus as an opaque value.
#[verifier::external_type_specification]
#[verifier::external_body]
pub struct ExSystemTime(std::time::SystemTime);

/// Calls `SystemTime::now`. Nothing is promised of the time it reads.
#[verifier::external_body]
fn system_now() -> std::time::SystemTime {
    std::time::SystemTime::now()
}

/// Calls `SystemTime::duration_since` on `t` with the Unix epoch: the time
/// from the epoch to `t`, or `None` where the call fails because `t` is
/// earlier. Nothing more is stated of the duration.
#[verifier::external_body]
fn since_unix_epoch(t: &std::time::SystemTime) -> Option<std::time::Duration> {
    t.duration_since(std::time::UNIX_EPOCH).ok()
}

/// Calls `Duration::as_millis` on `d`: its whole milliseconds. Nothing is
/// stated of the value, since the duration is opaque here.
#[verifier::external_body]
fn whole_millis(d: &std::time::Duration) -> u128 {
    d.as_millis()
}

/// The time now, in milliseconds since the Unix epoch, or `None` when the
/// clock reads earlier than the epoch.
fn now_ms() -> Option<i64> {
    match since_unix_epoch(&system_now()) {
        Some(elapsed) => Some(whole_millis(&elapsed) as i64),
        None => None,
    }
}

fn copy_opt_string(o: &Option<String>) -> (r: Option<String>)
    ensures
        opt_view(r) == opt_view(*o),
{
    match o {
        Some(s) => Some(s.clone()),
        None => None,
    }
}

/// A copy of `item`.
pub fn copy_item(item: &HistoryItem) -> (r: HistoryItem)
    ensures
        r.view() == item.view(),
{
    HistoryItem {
        id: item.id,
        kind: item.kind.clone(),
        content: copy_opt_string(&item.content),
        content_alt: copy_opt_string(&item.content_alt),
        image_path: copy_opt_string(&item.image_path),
        preview: item.preview.clone(),
        created_at: item.created_at,
    }
}

/// What a capture made: recorded at `recorded_at`, then pruned at
/// `pruned_at`, giving `r` and the contents `after`.
pub open spec fn capture_outcome(
    before: StoreView,
    item: NewItemView,
    recorded_at: i64,
    pruned_at: i64,
    r: Result<i64, StoreError>,
    after: StoreView,
) -> bool {
    match spec_record(before, item, recorded_at) {
        Ok((v, id)) => r == Ok::<i64, StoreError>(id) && after == spec_prune(v, pruned_at),
        Err(e) => r == Err::<i64, StoreError>(e) && after == before,
    }
}

/// The view of a capture's result that gives the evicted image paths too.
pub open spec fn evicting_view(r: Result<(i64, Vec<String>), StoreError>) -> Result<(i64, Seq<Seq<char>>), StoreError> {
    match r {
        Ok((id, paths)) => Ok((id, paths@.map_values(|p: String| p@))),
        Err(e) => Err(e),
    }
}

/// `capture_outcome`, with the image paths of the rows pruning removed.
pub open spec fn capture_evicting_outcome(
    before: StoreView,
    item: NewItemView,
    recorded_at: i64,
    pruned_at: i64,
    r: Result<(i64, Seq<Seq<char>>), StoreError>,
    after: StoreView,
) -> bool {
    match spec_record(before, item, recorded_at) {
        Ok((v, id)) => r == Ok::<(i64, Seq<Seq<char>>), StoreError>((id, spec_evicted(v, pruned_at))) && after
            == spec_prune(v, pruned_at),
        Err(e) => r == Err::<(i64, Seq<Seq<char>>), StoreError>(e) && after == before,
    }
}

impl HistoryStore {
    /// Applies the `max_items` and `retention_days` settings at time `now`.
    pub fn prune(&mut self, now: i64) -> (evicted: Vec<String>)
        requires
            old(self).wf(),
        ensures
            final(self).wf(),
            final(self).view() == spec_prune(old(self).view(), now),
            evicted@.map_values(|p: String| p@) == spec_evicted(old(self).view(), now),
    {
        let ghost v0 = self.view();
        let n = self.rows.len();
        let mut keep: usize = n;
        let max_items = match self.get_setting("max_items") {
            Some(v) => parse_i64(v.as_str()),
            None => None,
        };
        if let Some(m) = max_items {
            if m >= 0 && (m as u64) < (n as u64) {
                keep = m as usize;
            }
        }
        let ghost limited_rows = v0.rows.take(keep as int);
        assert(limited_rows =~= limited(v0.rows, v0.settings));
        let retention = match self.get_setting("retention_days") {
            Some(v) => parse_i64(v.as_str()),
            None => None,
        };
        if let Some(days) = retention {
            let cutoff = now.wrapping_sub(days.wrapping_mul(MS_PER_DAY));
            let mut k: usize = 0;
            while k < keep && self.rows[k].item.created_at >= cutoff
                invariant
                    k <= keep <= n,
                    n == self.rows@.len(),
                    v0 == self.view(),
                    limited_rows == v0.rows.take(keep as int),
                    forall|j: int| 0 <= j < k ==> limited_rows[j].item.created_at >= cutoff,
                decreases keep - k,
            {
                k = k + 1;
            }
            proof {
                lemma_kept_since_prefix(limited_rows, cutoff, k as int);
                assert(limited_rows.take(k as int) =~= v0.rows.take(k as int));
            }
            keep = k;
        }
        assert(spec_prune(v0, now).rows =~= v0.rows.take(keep as int));
        let evicted = self.image_paths_from(keep);
        proof {
            lemma_take_keeps_wf(v0.rows, keep as int);
        }
        self.rows.truncate(keep);
        assert(self.view().rows =~= v0.rows.take(keep as int));
        evicted
    }

    /// The image paths of the rows from position `from` on, in order.
    fn image_paths_from(&self, from: usize) -> (paths: Vec<String>)
        requires
            from <= self.rows@.len(),
        ensures
            paths@.map_values(|p: String| p@) == image_paths(
                self.view().rows.subrange(from as int, self.view().rows.len() as int),
            ),
    {
        let ghost rows = self.view().rows;
        let mut paths: Vec<String> = Vec::new();
        let n = self.rows.len();
        assert(rows.subrange(from as int, from as int) =~= Seq::<RowView>::empty());
        for i in from..n
            invariant
                from <= n,
                n == self.rows@.len(),
                rows == self.view().rows,
                paths@.map_values(|p: String| p@) == image_paths(rows.subrange(from as int, i as int)),
        {
            assert(rows.subrange(from as int, i + 1).drop_last() =~= rows.subrange(from as int, i as int));
            assert(rows.subrange(from as int, i + 1).last() == rows[i as int]);
            match &self.rows[i].item.image_path {
                Some(p) => {
                    paths.push(p.clone());
                    assert(paths@.map_values(|p: String| p@) =~= image_paths(
                        rows.subrange(from as int, i as int),
                    ).push(p@));
                },
                None => {},
            }
        }
        paths
    }

    /// Records the current clipboard `item` (bumping a row with the same dedup
    /// key, or adding one) at the time now, then prunes at the time now, which
    /// is never earlier than the recording time. Gives the row's id and the
    /// image paths of the rows pruning removed, newest first. A clock that
    /// reads before the Unix epoch when the item is recorded refuses the
    /// capture and changes nothing; if it reads before the epoch or before the
    /// recording time when pruning, the pruning goes by the recording time.
    pub fn capture_evicting(&mut self, item: NewItem) -> (r: Result<(i64, Vec<String>), StoreError>)
        requires
            old(self).wf(),
        ensures
            final(self).wf(),
            r == Err::<(i64, Vec<String>), StoreError>(StoreError::ClockBeforeEpoch) && final(self).view() == old(
                self,
            ).view() || exists|recorded_at: i64, pruned_at: i64|
                #[trigger] capture_evicting_outcome(
                    old(self).view(),
                    item.view(),
                    recorded_at,
                    pruned_at,
                    evicting_view(r),
                    final(self).view(),
                ) && recorded_at <= pruned_at,
    {
        let ghost before = self.view();
        let ghost iv = item.view();
        let recorded_at = match now_ms() {
            Some(t) => t,
            None => return Err(StoreError::ClockBeforeEpoch),
        };
        match self.record(item, recorded_at) {
            Ok(id) => {
                let pruned_at = match now_ms() {
                    Some(t) => if t >= recorded_at {
                        t
                    } else {
                        recorded_at
                    },
                    None => recorded_at,
                };
                let evicted = self.prune(pruned_at);
                let r = Ok((id, evicted));
                assert(capture_evicting_outcome(before, iv, recorded_at, pruned_at, evicting_view(r), self.view()));
                r
            },
            Err(e) => {
                let r = Err(e);
                assert(capture_evicting_outcome(before, iv, recorded_at, recorded_at, evicting_view(r), self.view()));
                r
            },
        }
    }

    /// Records the current clipboard `item` as `capture_evicting` does, giving
    /// only the row's id.
    pub fn capture(&mut self, item: NewItem) -> (r: Result<i64, StoreError>)
        requires
            old(self).wf(),
        ensures
            final(self).wf(),
            r == Err::<i64, StoreError>(StoreError::ClockBeforeEpoch) && final(self).view() == old(self).view()
                || exists|recorded_at: i64, pruned_at: i64|
                #[trigger] capture_outcome(old(self).view(), item.view(), recorded_at, pruned_at, r, final(self).view())
                    && recorded_at <= pruned_at,
    {
        let ghost before = self.view();
        let ghost iv = item.view();
        let full = self.capture_evicting(item);
        let r = match full {
            Ok((id, _)) => Ok(id),
            Err(e) => Err(e),
        };
        proof {
            if !(r == Err::<i64, StoreError>(StoreError::ClockBeforeEpoch) && self.view() == before) {
                let (recorded_at, pruned_at) = choose|recorded_at: i64, pruned_at: i64|
                    #[trigger] capture_evicting_outcome(
                        before,
                        iv,
                        recorded_at,
                        pruned_at,
                        evicting_view(full),
                        self.view(),
                    ) && recorded_at <= pruned_at;
                assert(capture_outcome(before, iv, recorded_at, pruned_at, r, self.view()));
            }
        }
        r
    }

    /// The history, newest first.
    pub fn get_history(&self) -> (items: Vec<HistoryItem>)
        requires
            self.wf(),
        ensures
            items@.map_values(|h: HistoryItem| h.view()) == self.view().rows.map_values(|r: RowView| r.item),
            forall|i: int, j: int| 0 <= i < j < items@.len() ==> items@[i].created_at >= items@[j].created_at,
    {
        let mut items: Vec<HistoryItem> = Vec::new();
        let n = self.rows.len();
        for i in 0..n
            invariant
                n == self.rows@.len(),
                items@.map_values(|h: HistoryItem| h.view()) == self.view().rows.take(i as int).map_values(
                    |r: RowView| r.item,
                ),
        {
            items.push(copy_item(&self.rows[i].item));
            assert(self.view().rows.take(i + 1).map_values(|r: RowView| r.item) =~= self.view().rows.take(
                i as int,
            ).map_values(|r: RowView| r.item).push(self.rows@[i as int].item.view()));
            assert(items@.map_values(|h: HistoryItem| h.view()) =~= self.view().rows.take(i + 1).map_values(
                |r: RowView| r.item,
            ));
        }
        assert(self.view().rows.take(n as int) =~= self.view().rows);
        assert forall|i: int, j: int| 0 <= i < j < items@.len() implies items@[i].created_at
            >= items@[j].created_at by {
            assert(items@.map_values(|h: HistoryItem| h.view())[i] == self.view().rows.map_values(
                |r: RowView| r.item,
            )[i]);
            assert(items@.map_values(|h: HistoryItem| h.view())[j] == self.view().rows.map_values(
                |r: RowView| r.item,
            )[j]);
        }
        items
    }

    /// A copy of the item with `id`, if there is one.
    pub fn find_item(&self, id: i64) -> (item: Option<HistoryItem>)
        requires
            self.wf(),
        ensures
            match item {
                Some(h) => id_position(self.view().rows, id) matches Some(i) && h.view() == self.view().rows[i].item,
                None => id_position(self.view().rows, id) is None,
            },
    {
        match self.find_id(id) {
            Some(i) => Some(copy_item(&self.rows[i].item)),
            None => None,
        }
    }

    /// Deletes the row with `id`, giving its image path (if it had one).
    pub fn delete_item(&mut self, id: i64) -> (image_path: Option<String>)
        requires
            old(self).wf(),
        ensures
            final(self).wf(),
            (final(self).view(), opt_view(image_path)) == spec_delete(old(self).view(), id),
    {
        let ghost v0 = self.view();
        match self.find_id(id) {
            Some(i) => {
                let row = self.rows.remove(i);
                proof {
                    lemma_remove_keeps_wf(v0.rows, i as int);
                    assert(self.view().rows =~= v0.rows.remove(i as int));
                }
                row.item.image_path
            },
            None => None,
        }
    }

    /// Deletes every row, giving their image paths, newest first.
    pub fn clear_all(&mut self) -> (paths: Vec<String>)
        requires
            old(self).wf(),
        ensures
            final(self).wf(),
            final(self).view().rows == Seq::<RowView>::empty(),
            final(self).view().settings == old(self).view().settings,
            paths@.map_values(|p: String| p@) == image_paths(old(self).view().rows),
    {
        let ghost rows = self.view().rows;
        let mut paths: Vec<String> = Vec::new();
        let n = self.rows.len();
        for i in 0..n
            invariant
                n == self.rows@.len(),
                rows == self.view().rows,
                paths@.map_values(|p: String| p@) == image_paths(rows.take(i as int)),
        {
            assert(rows.take(i + 1).drop_last() =~= rows.take(i as int));
            match &self.rows[i].item.image_path {
                Some(p) => {
                    paths.push(p.clone());
                    assert(paths@.map_values(|p: String| p@) =~= image_paths(rows.take(i as int)).push(p@));
                },
                None => {},
            }
        }
        assert(rows.take(n as int) =~= rows);
        self.rows.clear();
        assert(self.view().rows =~= Seq::<RowView>::empty());
        paths
    }
}


/// Where `insert_by_time` places a row created at `t`: after every row newer
/// than it.
pub open spec fn insert_index(rows: Seq<RowView>, t: i64) -> int
    decreases rows.len(),
{
    if rows.len() == 0 {
        0
    } else if rows[0].item.created_at > t {
        1 + insert_index(rows.drop_first(), t)
    } else {
        0
    }
}

proof fn lemma_insert_index(rows: Seq<RowView>, r: RowView)
    ensures
        ({
            let k = insert_index(rows, r.item.created_at);
            &&& 0 <= k <= rows.len()
            &&& forall|j: int| 0 <= j < k ==> rows[j].item.created_at > r.item.created_at
            &&& k < rows.len() ==> rows[k].item.created_at <= r.item.created_at
            &&& insert_by_time(rows, r) == rows.insert(k, r)
        }),
    decreases rows.len(),
{
    let k = insert_index(rows, r.item.created_at);
    if rows.len() > 0 && rows[0].item.created_at > r.item.created_at {
        let rest = rows.drop_first();
        lemma_insert_index(rest, r);
        assert forall|j: int| 0 <= j < k implies rows[j].item.created_at > r.item.created_at by {
            if j > 0 {
                assert(rows[j] == rest[j - 1]);
            }
        }
        if k < rows.len() {
            assert(rows[k] == rest[k - 1]);
        }
    }
    lemma_insert_by_time_at(rows, r, k);
}

/// What recording a capture guarantees: the contents stay well formed, and
/// the recorded row (with the item's dedup key, the returned id and time
/// `now`) is in the history.
proof fn lemma_record_result(v: StoreView, item: NewItemView, now: i64)
    requires
        store_view_wf(v),
    ensures
        spec_record(v, item, now) matches Ok((v1, id)) ==> {
            &&& store_view_wf(v1)
            &&& v1.settings == v.settings
            &&& key_position(v1.rows, spec_dedup_key(item.dedup_source)) is Some
            &&& v1.rows[key_position(v1.rows, spec_dedup_key(item.dedup_source))->0].item.id == id
            &&& v1.rows[key_position(v1.rows, spec_dedup_key(item.dedup_source))->0].item.created_at == now
            &&& key_position(v.rows, spec_dedup_key(item.dedup_source)) is None ==> {
                let row = v1.rows[key_position(v1.rows, spec_dedup_key(item.dedup_source))->0].item;
                &&& row.kind == item.kind
                &&& row.content == item.content
                &&& row.content_alt == item.content_alt
                &&& row.image_path == item.image_path
                &&& row.preview == item.preview
                &&& v1.rows.len() == v.rows.len() + 1
            }
            &&& key_position(v.rows, spec_dedup_key(item.dedup_source)) matches Some(i) ==> {
                let row = v1.rows[key_position(v1.rows, spec_dedup_key(item.dedup_source))->0].item;
                &&& row.kind == v.rows[i].item.kind
                &&& row.content == v.rows[i].item.content
                &&& row.content_alt == v.rows[i].item.content_alt
                &&& row.image_path == v.rows[i].item.image_path
                &&& row.preview == v.rows[i].item.preview
                &&& row.id == v.rows[i].item.id
                &&& v1.rows.len() == v.rows.len()
            }
        },
{
    let key = spec_dedup_key(item.dedup_source);
    match spec_record(v, item, now) {
        Ok((v1, id)) => {
            match key_position(v.rows, key) {
                Some(i) => {
                    let old_row = v.rows[i];
                    let bumped = RowView { item: ItemView { created_at: now, ..old_row.item }, dedup_key: key };
                    let removed = v.rows.remove(i);
                    lemma_insert_index(removed, bumped);
                    let k = insert_index(removed, now);
                    lemma_bump_keeps_wf(v.rows, i, bumped, k);
                    assert(v1.rows[k] == bumped);
                    let j = key_position(v1.rows, key)->0;
                    assert(v1.rows[j].dedup_key == key);
                    if j != k {
                        assert(v1.rows[k].dedup_key == key);
                    }
                    assert(j == k);
                },
                None => {
                    let row = v1.rows[insert_index(v.rows, now)];
                    let r = RowView {
                        item: ItemView {
                            id,
                            kind: item.kind,
                            content: item.content,
                            content_alt: item.content_alt,
                            image_path: item.image_path,
                            preview: item.preview,
                            created_at: now,
                        },
                        dedup_key: key,
                    };
                    lemma_insert_index(v.rows, r);
                    let k = insert_index(v.rows, now);
                    if v.rows.len() > 0 {
                        lemma_max_id_bounds(v.rows);
                    }
                    lemma_add_keeps_wf(v.rows, r, k);
                    assert(v1.rows[k] == r);
                    let j = key_position(v1.rows, key)->0;
                    assert(v1.rows[j].dedup_key == key);
                    if j != k {
                        assert(v1.rows[k].dedup_key == key);
                    }
                    assert(j == k);
                },
            }
            let p = key_position(v1.rows, key);
            assert(p is Some);
        },
        Err(_) => {},
    }
}

/// Recording an item whose dedup key is new adds exactly one row, and the
/// row holding that key carries the item: its kind, content, plain-text
/// alternative, image path and preview, with the returned id and the
/// recording time. Recording a repeated copy adds no row: the row holding the
/// key keeps its id and every field but the time, which becomes the
/// recording time.
pub proof fn lemma_record_keeps_item(v: StoreView, item: NewItemView, now: i64)
    requires
        store_view_wf(v),
        spec_record(v, item, now) is Ok,
    ensures
        ({
            let (v1, id) = spec_record(v, item, now)->Ok_0;
            let key = spec_dedup_key(item.dedup_source);
            &&& key_position(v1.rows, key) matches Some(j) && {
                let row = v1.rows[j].item;
                &&& row.id == id
                &&& row.created_at == now
                &&& key_position(v.rows, key) is None ==> {
                    &&& row.kind == item.kind
                    &&& row.content == item.content
                    &&& row.content_alt == item.content_alt
                    &&& row.image_path == item.image_path
                    &&& row.preview == item.preview
                    &&& v1.rows.len() == v.rows.len() + 1
                }
                &&& key_position(v.rows, key) matches Some(i) ==> {
                    &&& row.id == v.rows[i].item.id
                    &&& row.kind == v.rows[i].item.kind
                    &&& row.content == v.rows[i].item.content
                    &&& row.content_alt == v.rows[i].item.content_alt
                    &&& row.image_path == v.rows[i].item.image_path
                    &&& row.preview == v.rows[i].item.preview
                    &&& v1.rows.len() == v.rows.len()
                }
            }
        }),
{
    lemma_record_result(v, item, now);
}

/// Without overflow, the retention cutoff is `days` whole days before `now`.
proof fn lemma_retention_cutoff_exact(now: i64, days: i64)
    requires
        i64::MIN <= days * MS_PER_DAY <= i64::MAX,
        i64::MIN <= now - days * MS_PER_DAY <= i64::MAX,
    ensures
        retention_cutoff(now, days) == now - days * MS_PER_DAY,
{
    let x: int = days * MS_PER_DAY;
    let r: int = 0x1_0000_0000_0000_0000;
    assert(x % r == if x >= 0 { x } else { x + r }) by (nonlinear_arith)
        requires
            i64::MIN <= x <= i64::MAX,
            r == 0x1_0000_0000_0000_0000int,
    ;
    assert(days.wrapping_mul(MS_PER_DAY) == x);
}

/// A capture leaves no row older than the retention period before the time
/// it recorded the item: with `retention_days` set to `days`, and no
/// overflow in the arithmetic, every remaining row was created at or after
/// `recorded_at - days` days. (Pruning goes by a time no earlier than the
/// recording time.)
pub proof fn lemma_capture_respects_retention(
    before: StoreView,
    item: NewItemView,
    recorded_at: i64,
    pruned_at: i64,
    r: Result<(i64, Seq<Seq<char>>), StoreError>,
    after: StoreView,
    days: i64,
)
    requires
        store_view_wf(before),
        recorded_at <= pruned_at,
        capture_evicting_outcome(before, item, recorded_at, pruned_at, r, after),
        r is Ok,
        setting_i64(before.settings, "retention_days"@) == Some(days),
        i64::MIN <= days * MS_PER_DAY <= i64::MAX,
        i64::MIN <= recorded_at - days * MS_PER_DAY,
        pruned_at - days * MS_PER_DAY <= i64::MAX,
    ensures
        forall|j: int|
            0 <= j < after.rows.len() ==> after.rows[j].item.created_at >= recorded_at - days * MS_PER_DAY,
{
    lemma_record_result(before, item, recorded_at);
    let (v1, id) = spec_record(before, item, recorded_at)->Ok_0;
    lemma_prune_enforces_limits(v1, pruned_at);
    lemma_retention_cutoff_exact(pruned_at, days);
}

/// Copying the same content again reuses its row: the second capture of the
/// same dedup source returns the first capture's id and adds no row.
pub proof fn lemma_repeat_copy_reuses_row(
    v: StoreView,
    first: NewItemView,
    first_at: i64,
    again: NewItemView,
    again_at: i64,
)
    requires
        store_view_wf(v),
        again.dedup_source == first.dedup_source,
        spec_record(v, first, first_at) is Ok,
    ensures
        ({
            let (v1, id1) = spec_record(v, first, first_at)->Ok_0;
            &&& spec_record(v1, again, again_at) is Ok
            &&& spec_record(v1, again, again_at)->Ok_0.1 == id1
            &&& spec_record(v1, again, again_at)->Ok_0.0.rows.len() == v1.rows.len()
        }),
{
    lemma_record_result(v, first, first_at);
    let (v1, id1) = spec_record(v, first, first_at)->Ok_0;
    let key = spec_dedup_key(again.dedup_source);
    let i = key_position(v1.rows, key)->0;
    let bumped = RowView { item: ItemView { created_at: again_at, ..v1.rows[i].item }, dedup_key: key };
    lemma_insert_index(v1.rows.remove(i), bumped);
}

/// A capture made no earlier than every row in the history puts its row
/// first (a repeated copy is bumped to the top).
pub proof fn lemma_capture_at_latest_time_is_first(v: StoreView, item: NewItemView, now: i64)
    requires
        store_view_wf(v),
        forall|j: int| 0 <= j < v.rows.len() ==> v.rows[j].item.created_at <= now,
        spec_record(v, item, now) is Ok,
    ensures
        spec_record(v, item, now)->Ok_0.0.rows[0].item.id == spec_record(v, item, now)->Ok_0.1,
        spec_record(v, item, now)->Ok_0.0.rows[0].dedup_key == spec_dedup_key(item.dedup_source),
{
    lemma_record_result(v, item, now);
    let key = spec_dedup_key(item.dedup_source);
    let (v1, id) = spec_record(v, item, now)->Ok_0;
    match key_position(v.rows, key) {
        Some(i) => {
            let bumped = RowView { item: ItemView { created_at: now, ..v.rows[i].item }, dedup_key: key };
            let removed = v.rows.remove(i);
            lemma_insert_index(removed, bumped);
            if removed.len() > 0 {
                assert(removed[0].item.created_at <= now);
            }
            assert(insert_index(removed, now) == 0);
        },
        None => {
            let r = RowView {
                item: ItemView {
                    id,
                    kind: item.kind,
                    content: item.content,
                    content_alt: item.content_alt,
                    image_path: item.image_path,
                    preview: item.preview,
                    created_at: now,
                },
                dedup_key: key,
            };
            lemma_insert_index(v.rows, r);
            assert(insert_index(v.rows, now) == 0);
        },
    }
}

/// Recording and pruning keep the history well formed: newest first, with
/// no two rows sharing an id or a dedup key.
pub proof fn lemma_capture_keeps_history_well_formed(v: StoreView, item: NewItemView, recorded_at: i64, pruned_at: i64)
    requires
        store_view_wf(v),
    ensures
        spec_record(v, item, recorded_at) matches Ok((v1, id)) ==> store_view_wf(v1)
            && store_view_wf(spec_prune(v1, pruned_at)),
{
    lemma_record_result(v, item, recorded_at);
    if let Ok((v1, id)) = spec_record(v, item, recorded_at) {
        lemma_prune_keeps_wf(v1, pruned_at);
    }
}

proof fn lemma_prune_keeps_wf(v: StoreView, now: i64)
    requires
        store_view_wf(v),
    ensures
        store_view_wf(spec_prune(v, now)),
        spec_prune(v, now).settings == v.settings,
{
    let rows = limited(v.rows, v.settings);
    if let Some(m) = setting_i64(v.settings, "max_items"@) {
        if 0 <= m < v.rows.len() {
            lemma_take_keeps_wf(v.rows, m as int);
        }
    }
    if let Some(days) = setting_i64(v.settings, "retention_days"@) {
        let cutoff = retention_cutoff(now, days);
        lemma_first_older_exists(rows, cutoff);
        let k = choose|k: int| 0 <= k <= rows.len() && (forall|j: int| 0 <= j < k ==> rows[j].item.created_at >= cutoff)
            && (k < rows.len() ==> rows[k].item.created_at < cutoff);
        lemma_kept_since_prefix(rows, cutoff, k);
        lemma_take_keeps_wf(rows, k);
    }
}

proof fn lemma_first_older_exists(rows: Seq<RowView>, cutoff: i64)
    ensures
        exists|k: int| 0 <= k <= rows.len() && (forall|j: int| 0 <= j < k ==> rows[j].item.created_at >= cutoff)
            && (k < rows.len() ==> rows[k].item.created_at < cutoff),
    decreases rows.len(),
{
    if rows.len() > 0 {
        if rows[0].item.created_at < cutoff {
            assert(0 <= 0 <= rows.len() && (forall|j: int| 0 <= j < 0 ==> rows[j].item.created_at >= cutoff)
                && (0 < rows.len() ==> rows[0].item.created_at < cutoff));
        } else {
            let rest = rows.drop_first();
            lemma_first_older_exists(rest, cutoff);
            let k = choose|k: int| 0 <= k <= rest.len() && (forall|j: int| 0 <= j < k ==> rest[j].item.created_at >= cutoff)
                && (k < rest.len() ==> rest[k].item.created_at < cutoff);
            assert forall|j: int| 0 <= j < k + 1 implies rows[j].item.created_at >= cutoff by {
                if j > 0 {
                    assert(rows[j] == rest[j - 1]);
                }
            }
            if k + 1 < rows.len() {
                assert(rows[k + 1] == rest[k]);
            }
        }
    } else {
        assert(0 <= 0 <= rows.len());
    }
}

/// Pruning enforces both limits: with `max_items` set to `m >= 0` at most `m`
/// rows remain, and with `retention_days` set no remaining row is older than
/// the retention cutoff. Every remaining row was already in the history.
pub proof fn lemma_prune_enforces_limits(v: StoreView, now: i64)
    requires
        store_view_wf(v),
    ensures
        setting_i64(v.settings, "max_items"@) matches Some(m) ==> (m >= 0 ==> spec_prune(v, now).rows.len() <= m),
        setting_i64(v.settings, "retention_days"@) matches Some(days) ==> forall|j: int|
            0 <= j < spec_prune(v, now).rows.len() ==> spec_prune(v, now).rows[j].item.created_at
                >= retention_cutoff(now, days),
        forall|j: int| 0 <= j < spec_prune(v, now).rows.len() ==> spec_prune(v, now).rows[j] == v.rows[j],
        forall|j: int, k: int|
            0 <= j < spec_prune(v, now).rows.len() <= k < v.rows.len() ==> v.rows[j].item.created_at
                >= v.rows[k].item.created_at,
{
    let rows = limited(v.rows, v.settings);
    if let Some(days) = setting_i64(v.settings, "retention_days"@) {
        if let Some(m) = setting_i64(v.settings, "max_items"@) {
            if 0 <= m < v.rows.len() {
                lemma_take_keeps_wf(v.rows, m as int);
            }
        }
        let cutoff = retention_cutoff(now, days);
        lemma_first_older_exists(rows, cutoff);
        let k = choose|k: int| 0 <= k <= rows.len() && (forall|j: int| 0 <= j < k ==> rows[j].item.created_at >= cutoff)
            && (k < rows.len() ==> rows[k].item.created_at < cutoff);
        lemma_kept_since_prefix(rows, cutoff, k);
    }
}

/// Deleting an item leaves no row with its id, gives back that row's image
/// path, and keeps every other row.
pub proof fn lemma_delete_removes_item(v: StoreView, id: i64)
    requires
        store_view_wf(v),
    ensures
        forall|j: int| 0 <= j < spec_delete(v, id).0.rows.len() ==> spec_delete(v, id).0.rows[j].item.id != id,
        id_position(v.rows, id) matches Some(i) ==> spec_delete(v, id).1 == v.rows[i].item.image_path
            && spec_delete(v, id).0.rows.len() == v.rows.len() - 1,
        id_position(v.rows, id) is None ==> spec_delete(v, id) == (v, None::<Seq<char>>),
{
    if let Some(i) = id_position(v.rows, id) {
        let s = v.rows.remove(i);
        assert forall|j: int| 0 <= j < s.len() implies s[j].item.id != id by {
            let j0 = if j < i { j } else { j + 1 };
            assert(s[j] == v.rows[j0]);
        }
    }
}

/// A setting reads back as the value last written to it, and writing one
/// setting leaves every other setting as it was.
pub proof fn lemma_setting_read_after_write(
    settings: Map<Seq<char>, Seq<char>>,
    key: Seq<char>,
    value: Seq<char>,
    other: Seq<char>,
)
    requires
        other != key,
    ensures
        settings.insert(key, value).get(key) == Some(value),
        settings.insert(key, value).get(other) == settings.get(other),
{
}


/// The view of a list of `(key, value)` string pairs.
pub open spec fn pair_views(p: Seq<(String, String)>) -> Seq<(Seq<char>, Seq<char>)> {
    p.map_values(|e: (String, String)| (e.0@, e.1@))
}

/// The view of a list of stored rows.
pub open spec fn stored_views(rows: Seq<StoredItem>) -> Seq<RowView> {
    rows.map_values(|r: StoredItem| r.view())
}

proof fn lemma_adjacent_order(rows: Seq<RowView>)
    requires
        forall|i: int| 0 <= i < rows.len() - 1 ==> rows[i].item.created_at >= #[trigger] rows[i + 1].item.created_at,
    ensures
        newest_first(rows),
    decreases rows.len(),
{
    if rows.len() > 1 {
        let front = rows.drop_last();
        assert forall|i: int| 0 <= i < front.len() - 1 implies front[i].item.created_at
            >= #[trigger] front[i + 1].item.created_at by {
            assert(front[i] == rows[i]);
            assert(front[i + 1] == rows[i + 1]);
        }
        lemma_adjacent_order(front);
        assert forall|i: int, j: int| 0 <= i < j < rows.len() implies rows[i].item.created_at
            >= rows[j].item.created_at by {
            if j < rows.len() - 1 {
                assert(front[i] == rows[i] && front[j] == rows[j]);
            } else {
                let k = j - 1;
                assert(rows[k].item.created_at >= rows[k + 1].item.created_at);
                if i < k {
                    assert(front[i] == rows[i] && front[k] == rows[k]);
                }
            }
        }
    }
}

fn copy_stored(r: &StoredItem) -> (c: StoredItem)
    ensures
        c.view() == r.view(),
{
    StoredItem { item: copy_item(&r.item), dedup_key: r.dedup_key.clone() }
}

/// Whether the rows are newest first with no id or dedup key repeated.
fn rows_are_consistent(rows: &Vec<StoredItem>) -> (b: bool)
    ensures
        b == rows_wf(stored_views(rows@)),
{
    let ghost v = stored_views(rows@);
    let n = rows.len();
    let mut i: usize = 0;
    while n > 0 && i < n - 1
        invariant
            n == rows@.len(),
            v == stored_views(rows@),
            i < n || n == 0,
            forall|a: int| 0 <= a < i ==> v[a].item.created_at >= #[trigger] v[a + 1].item.created_at,
        decreases n - i,
    {
        if rows[i].item.created_at < rows[i + 1].item.created_at {
            assert(v[i as int].item.created_at < v[i + 1].item.created_at);
            return false;
        }
        i = i + 1;
    }
    proof {
        lemma_adjacent_order(v);
    }
    for a in 0..n
        invariant
            n == rows@.len(),
            v == stored_views(rows@),
            forall|x: int, y: int| 0 <= x < a && x < y < n ==> v[x].dedup_key != v[y].dedup_key && v[x].item.id != v[y].item.id,
    {
        for b in a + 1..n
            invariant
                n == rows@.len(),
                v == stored_views(rows@),
                a < n,
                forall|y: int| a < y < b ==> v[a as int].dedup_key != v[y].dedup_key && v[a as int].item.id != v[y].item.id,
        {
            if rows[a].dedup_key == rows[b].dedup_key || rows[a].item.id == rows[b].item.id {
                assert(v[a as int].dedup_key == v[b as int].dedup_key || v[a as int].item.id == v[b as int].item.id);
                return false;
            }
        }
    }
    true
}

/// Whether no key occurs twice among `pairs`.
fn pair_keys_unique(pairs: &Vec<(String, String)>) -> (b: bool)
    ensures
        b == keys_unique(pair_views(pairs@)),
{
    let ghost p = pair_views(pairs@);
    let n = pairs.len();
    for a in 0..n
        invariant
            n == pairs@.len(),
            p == pair_views(pairs@),
            forall|x: int, y: int| 0 <= x < a && x < y < n ==> p[x].0 != p[y].0,
    {
        for b in a + 1..n
            invariant
                n == pairs@.len(),
                p == pair_views(pairs@),
                a < n,
                forall|y: int| a < y < b ==> p[a as int].0 != p[y].0,
        {
            if pairs[a].0 == pairs[b].0 {
                assert(p[a as int].0 == p[b as int].0);
                return false;
            }
        }
    }
    true
}

impl HistoryStore {
    /// A store holding `rows` (newest first) and `settings`, as saved from an
    /// earlier store; `None` when they are inconsistent: rows out of order, an
    /// id or a dedup key repeated, or a setting key repeated.
    pub fn restore(rows: Vec<StoredItem>, settings: Vec<(String, String)>) -> (r: Option<HistoryStore>)
        ensures
            r is Some <==> rows_wf(stored_views(rows@)) && keys_unique(pair_views(settings@)),
            r matches Some(store) ==> {
                &&& store.wf()
                &&& store.view().rows == stored_views(rows@)
                &&& store.view().settings == pairs_map(pair_views(settings@))
            },
    {
        if !rows_are_consistent(&rows) || !pair_keys_unique(&settings) {
            return None;
        }
        let mut entries: Vec<Setting> = Vec::new();
        let n = settings.len();
        for i in 0..n
            invariant
                n == settings@.len(),
                entries@.len() == i,
                entries@.map_values(|s: Setting| (s.key@, s.value@)) == pair_views(settings@).take(i as int),
        {
            let ghost before = entries@;
            entries.push(Setting { key: settings[i].0.clone(), value: settings[i].1.clone() });
            assert(entries@ == before.push(entries@[i as int]));
            assert(pair_views(settings@).take(i + 1) =~= pair_views(settings@).take(i as int).push(
                pair_views(settings@)[i as int],
            ));
            assert(entries@.map_values(|s: Setting| (s.key@, s.value@)) =~= before.map_values(
                |s: Setting| (s.key@, s.value@),
            ).push((entries@[i as int].key@, entries@[i as int].value@)));
        }
        assert(pair_views(settings@).take(n as int) =~= pair_views(settings@));
        let store = HistoryStore { rows, settings: entries };
        assert(store.view().rows =~= stored_views(store.rows@));
        Some(store)
    }

    /// Copies of the rows, newest first, for saving.
    pub fn stored_rows(&self) -> (rows: Vec<StoredItem>)
        requires
            self.wf(),
        ensures
            stored_views(rows@) == self.view().rows,
    {
        let mut rows: Vec<StoredItem> = Vec::new();
        let n = self.rows.len();
        for i in 0..n
            invariant
                n == self.rows@.len(),
                stored_views(rows@) == self.view().rows.take(i as int),
        {
            let ghost before = rows@;
            rows.push(copy_stored(&self.rows[i]));
            assert(self.view().rows.take(i + 1) =~= self.view().rows.take(i as int).push(self.view().rows[i as int]));
            assert(stored_views(rows@) =~= stored_views(before).push(rows@[i as int].view()));
        }
        assert(self.view().rows.take(n as int) =~= self.view().rows);
        rows
    }

    /// Copies of the settings as `(key, value)` pairs, for saving.
    pub fn setting_entries(&self) -> (pairs: Vec<(String, String)>)
        requires
            self.wf(),
        ensures
            keys_unique(pair_views(pairs@)),
            pairs_map(pair_views(pairs@)) == self.view().settings,
    {
        let mut pairs: Vec<(String, String)> = Vec::new();
        let n = self.settings.len();
        for i in 0..n
            invariant
                n == self.settings@.len(),
                pair_views(pairs@) == self.setting_pairs().take(i as int),
        {
            let ghost before = pairs@;
            pairs.push((self.settings[i].key.clone(), self.settings[i].value.clone()));
            assert(self.setting_pairs().take(i + 1) =~= self.setting_pairs().take(i as int).push(
                self.setting_pairs()[i as int],
            ));
            assert(pair_views(pairs@) =~= pair_views(before).push((pairs@[i as int].0@, pairs@[i as int].1@)));
        }
        assert(self.setting_pairs().take(n as int) =~= self.setting_pairs());
        pairs
    }
}


/// Saving a store and restoring what was saved gives a store with the same
/// contents: the saved rows and settings always pass `restore`'s checks.
pub proof fn lemma_saved_store_restores(
    v: StoreView,
    saved_rows: Seq<RowView>,
    saved_settings: Seq<(Seq<char>, Seq<char>)>,
)
    requires
        store_view_wf(v),
        saved_rows == v.rows,
        keys_unique(saved_settings),
        pairs_map(saved_settings) == v.settings,
    ensures
        rows_wf(saved_rows) && keys_unique(saved_settings),
        (StoreView { rows: saved_rows, settings: pairs_map(saved_settings) }) == v,
{
}

} // verus!
