//! The decisions of the clipboard listener and the popup toggle: which
//! captures are kept, and how the popup's placement settings are read.
use vstd::prelude::*;

use crate::position::{spec_parse_mode, spec_parse_pin, PopupPin, PopupPositionMode};
use crate::store::{capture_evicting_outcome, HistoryStore, NewItem, StoreError};
use crate::text::{split_chars, split_on, str_equal, string_views};

verus! {

/// Whether items of `kind` are captured under the `capture_types` setting (a
/// comma-separated list of kinds); everything is captured when it is unset
/// or empty.
pub open spec fn spec_kind_is_captured(settings: Map<Seq<char>, Seq<char>>, kind: Seq<char>) -> bool {
    match settings.get("capture_types"@) {
        Some(types) => if types.len() > 0 {
            exists|i: int| 0 <= i < split_on(types, ',').len() && split_on(types, ',')[i] == kind
        } else {
            true
        },
        None => true,
    }
}

/// Whether the `capture_types` setting lets items of `kind` be captured.
pub fn kind_is_captured(store: &HistoryStore, kind: &str) -> (r: bool)
    requires
        store.wf(),
    ensures
        r == spec_kind_is_captured(store.view().settings, kind@),
{
    match store.get_setting("capture_types") {
        Some(types) => {
            if types.as_str().is_empty() {
                return true;
            }
            let pieces = split_chars(types.as_str(), ',');
            let ghost views = string_views(pieces@);
            let n = pieces.len();
            for i in 0..n
                invariant
                    n == pieces@.len(),
                    views == string_views(pieces@),
                    views == split_on(types@, ','),
                    store.view().settings.get("capture_types"@) == Some(types@),
                    types@.len() > 0,
                    forall|j: int| 0 <= j < i ==> views[j] != kind@,
            {
                if str_equal(pieces[i].as_str(), kind) {
                    assert(views[i as int] == kind@);
                    return true;
                }
            }
            false
        },
        None => true,
    }
}

/// The `capture_types` setting decides by exact entries: when it is set and
/// not empty, a kind is captured exactly when one of its comma-separated
/// entries equals the kind; when it is unset or empty, every kind is.
pub proof fn lemma_captured_kinds_are_listed(settings: Map<Seq<char>, Seq<char>>, kind: Seq<char>, types: Seq<char>)
    ensures
        settings.get("capture_types"@) == Some(types) && types.len() > 0 ==> (spec_kind_is_captured(settings, kind)
            <==> exists|i: int| 0 <= i < split_on(types, ',').len() && #[trigger] split_on(types, ',')[i] == kind),
        (settings.get("capture_types"@) is None || settings.get("capture_types"@) == Some(Seq::<char>::empty()))
            ==> spec_kind_is_captured(settings, kind),
{
}

/// A kind missing from a non-empty `capture_types` list is never captured,
/// whatever other kinds are listed.
pub proof fn lemma_unlisted_kind_is_not_captured(settings: Map<Seq<char>, Seq<char>>, kind: Seq<char>)
    requires
        settings.get("capture_types"@) matches Some(types) && types.len() > 0 && forall|i: int|
            0 <= i < split_on(types, ',').len() ==> #[trigger] split_on(types, ',')[i] != kind,
    ensures
        !spec_kind_is_captured(settings, kind),
{
}

/// Handles one clipboard capture: stores `item` when its kind is captured.
/// Gives, when it was stored (and listeners should hear of it), the image
/// paths of the rows that pruning removed, whose files are to be deleted.
pub fn store_capture(store: &mut HistoryStore, item: NewItem) -> (stored: Option<Vec<String>>)
    requires
        old(store).wf(),
    ensures
        final(store).wf(),
        !spec_kind_is_captured(old(store).view().settings, item.kind@) ==> stored is None && final(store).view()
            == old(store).view(),
        spec_kind_is_captured(old(store).view().settings, item.kind@) ==> (stored is None && final(store).view()
            == old(store).view()) || exists|
            recorded_at: i64,
            pruned_at: i64,
            r: Result<(i64, Seq<Seq<char>>), StoreError>,
        |
            #[trigger] capture_evicting_outcome(
                old(store).view(),
                item.view(),
                recorded_at,
                pruned_at,
                r,
                final(store).view(),
            ) && recorded_at <= pruned_at && match r {
                Ok((_, paths)) => stored matches Some(v) && v@.map_values(|p: String| p@) == paths,
                Err(_) => stored is None,
            },
{
    if !kind_is_captured(store, item.kind.as_str()) {
        return None;
    }
    let r = store.capture_evicting(item);
    match r {
        Ok((_, evicted)) => Some(evicted),
        Err(_) => None,
    }
}

/// The popup placement mode and pin named by the `popup_position` and
/// `popup_pin` settings (an unset setting reads as empty text).
pub fn popup_settings(store: &HistoryStore) -> (r: (PopupPositionMode, PopupPin))
    requires
        store.wf(),
    ensures
        r.0 == spec_parse_mode(
            match store.view().settings.get("popup_position"@) {
                Some(v) => v,
                None => Seq::empty(),
            },
        ),
        r.1 == spec_parse_pin(
            match store.view().settings.get("popup_pin"@) {
                Some(v) => v,
                None => Seq::empty(),
            },
        ),
{
    let position = match store.get_setting("popup_position") {
        Some(v) => v,
        None => String::new(),
    };
    let pin = match store.get_setting("popup_pin") {
        Some(v) => v,
        None => String::new(),
    };
    (PopupPositionMode::parse(position.as_str()), PopupPin::parse(pin.as_str()))
}

} // verus!
