//! Parsing of toggle-hotkey combos such as `"Ctrl+Alt+V"` into the modifier
//! flags and virtual-key code that the system hotkey registration takes.
use vstd::prelude::*;

use crate::text::{
    ascii_upper, concat_str, upper_char, split_chars, split_on, str_equal, to_ascii_upper, trim, trim_str,
};

verus! {

/// Modifier flag: either Alt key.
pub const MOD_ALT: u32 = 0x1;

/// Modifier flag: either Ctrl key.
pub const MOD_CONTROL: u32 = 0x2;

/// Modifier flag: either Shift key.
pub const MOD_SHIFT: u32 = 0x4;

/// Modifier flag: either Windows key.
pub const MOD_WIN: u32 = 0x8;

/// Flag that keeps a held hotkey from repeating.
pub const MOD_NOREPEAT: u32 = 0x4000;

/// The modifiers and key seen so far while reading a combo.
pub struct Chord {
    pub alt: bool,
    pub ctrl: bool,
    pub shift: bool,
    pub win: bool,
    pub key: Option<char>,
}

pub open spec fn no_chord() -> Chord {
    Chord { alt: false, ctrl: false, shift: false, win: false, key: None }
}

pub open spec fn is_ascii_alphanumeric(c: char) -> bool {
    ('0' <= c <= '9') || ('A' <= c <= 'Z') || ('a' <= c <= 'z')
}

pub open spec fn quoted(s: Seq<char>) -> Seq<char> {
    seq!['"'] + s + seq!['"']
}

pub open spec fn multiple_keys_message(combo: Seq<char>) -> Seq<char> {
    "multiple keys in "@ + quoted(combo) + " -- only one non-modifier key is supported"@
}

pub open spec fn unsupported_key_message(token: Seq<char>, combo: Seq<char>) -> Seq<char> {
    "unsupported key "@ + quoted(token) + " in "@ + quoted(combo)
}

pub open spec fn no_key_message(combo: Seq<char>) -> Seq<char> {
    quoted(combo) + " has no key, only modifiers"@
}

pub open spec fn no_modifier_message(combo: Seq<char>) -> Seq<char> {
    quoted(combo) + " needs at least one modifier (Ctrl/Alt/Shift/Win)"@
}

pub open spec fn modifier_after_key_message(combo: Seq<char>) -> Seq<char> {
    "modifier after the key in "@ + quoted(combo) + " -- the key must come last"@
}

/// The upper-cased names of the modifiers.
pub open spec fn is_modifier(token: Seq<char>) -> bool {
    token == "CTRL"@ || token == "CONTROL"@ || token == "ALT"@ || token == "SHIFT"@ || token == "WIN"@
        || token == "SUPER"@ || token == "META"@
}

/// Reading one upper-cased, trimmed, non-empty token of `combo`. The key is
/// the trailing part, so a modifier after it is an error.
pub open spec fn spec_apply_token(c: Chord, token: Seq<char>, combo: Seq<char>) -> Result<Chord, Seq<char>> {
    if is_modifier(token) && c.key is Some {
        Err(modifier_after_key_message(combo))
    } else if token == "CTRL"@ || token == "CONTROL"@ {
        Ok(Chord { ctrl: true, ..c })
    } else if token == "ALT"@ {
        Ok(Chord { alt: true, ..c })
    } else if token == "SHIFT"@ {
        Ok(Chord { shift: true, ..c })
    } else if token == "WIN"@ || token == "SUPER"@ || token == "META"@ {
        Ok(Chord { win: true, ..c })
    } else if token.len() == 1 && is_ascii_alphanumeric(token[0]) {
        if c.key is Some {
            Err(multiple_keys_message(combo))
        } else {
            Ok(Chord { key: Some(token[0]), ..c })
        }
    } else {
        Err(unsupported_key_message(token, combo))
    }
}

/// Reading the `+`-separated pieces of `combo`, in order, skipping those that
/// are empty once trimmed; the first error stops the reading.
pub open spec fn spec_read_pieces(pieces: Seq<Seq<char>>, combo: Seq<char>) -> Result<Chord, Seq<char>>
    decreases pieces.len(),
{
    if pieces.len() == 0 {
        Ok(no_chord())
    } else {
        match spec_read_pieces(pieces.drop_last(), combo) {
            Err(e) => Err(e),
            Ok(c) => {
                let part = trim(pieces.last());
                if part.len() == 0 {
                    Ok(c)
                } else {
                    spec_apply_token(c, ascii_upper(part), combo)
                }
            },
        }
    }
}

/// The modifier flags of a chord, always including `MOD_NOREPEAT`.
pub open spec fn chord_modifiers(c: Chord) -> u32 {
    (MOD_NOREPEAT + (if c.alt { MOD_ALT } else { 0 }) + (if c.ctrl { MOD_CONTROL } else { 0 }) + (if c.shift {
        MOD_SHIFT
    } else {
        0
    }) + (if c.win { MOD_WIN } else { 0 })) as u32
}

/// The registration a combo denotes: its modifier flags and the virtual-key
/// code of its key (the key's upper-case character code), or why it is not
/// a usable combo.
pub open spec fn spec_parse_hotkey(combo: Seq<char>) -> Result<(u32, u32), Seq<char>> {
    match spec_read_pieces(split_on(combo, '+'), combo) {
        Err(e) => Err(e),
        Ok(c) => match c.key {
            None => Err(no_key_message(combo)),
            Some(k) => if !c.alt && !c.ctrl && !c.shift && !c.win {
                Err(no_modifier_message(combo))
            } else {
                Ok((chord_modifiers(c), k as u32))
            },
        },
    }
}

fn quote(s: &str) -> (r: String)
    ensures
        r@ == quoted(s@),
{
    let mut r = concat_str("\"", s);
    r.append("\"");
    proof {
        reveal_strlit("\"");
    }
    assert(r@ =~= quoted(s@));
    r
}

fn apply_token(c: Chord, token: &str, combo: &str) -> (r: Result<Chord, String>)
    ensures
        match r {
            Ok(next) => spec_apply_token(c, token@, combo@) == Ok::<Chord, Seq<char>>(next),
            Err(e) => spec_apply_token(c, token@, combo@) == Err::<Chord, Seq<char>>(e@),
        },
{
    let is_ctrl = str_equal(token, "CTRL") || str_equal(token, "CONTROL");
    let is_alt = str_equal(token, "ALT");
    let is_shift = str_equal(token, "SHIFT");
    let is_win = str_equal(token, "WIN") || str_equal(token, "SUPER") || str_equal(token, "META");
    if (is_ctrl || is_alt || is_shift || is_win) && c.key.is_some() {
        let mut msg = concat_str("modifier after the key in ", quote(combo).as_str());
        msg.append(" -- the key must come last");
        Err(msg)
    } else if is_ctrl {
        Ok(Chord { ctrl: true, ..c })
    } else if is_alt {
        Ok(Chord { alt: true, ..c })
    } else if is_shift {
        Ok(Chord { shift: true, ..c })
    } else if is_win {
        Ok(Chord { win: true, ..c })
    } else {
        let chars = crate::text::chars_of(token);
        if chars.len() == 1 && (('0' <= chars[0] && chars[0] <= '9') || ('A' <= chars[0] && chars[0] <= 'Z') || (
        'a' <= chars[0] && chars[0] <= 'z')) {
            if c.key.is_some() {
                let mut msg = concat_str("multiple keys in ", quote(combo).as_str());
                msg.append(" -- only one non-modifier key is supported");
                Err(msg)
            } else {
                Ok(Chord { key: Some(chars[0]), ..c })
            }
        } else {
            let mut msg = concat_str("unsupported key ", quote(token).as_str());
            msg.append(" in ");
            msg.append(quote(combo).as_str());
            Err(msg)
        }
    }
}

/// Parses a combo string like `"Ctrl+Alt+V"` into modifier flags and a
/// virtual-key code. Requires at least one modifier (Ctrl/Alt/Shift/Win) plus
/// exactly one trailing A-Z/0-9 key; pieces are trimmed and matched
/// case-insensitively, and empty pieces are skipped.
pub fn parse_hotkey(combo: &str) -> (r: Result<(u32, u32), String>)
    ensures
        match r {
            Ok(v) => spec_parse_hotkey(combo@) == Ok::<(u32, u32), Seq<char>>(v),
            Err(e) => spec_parse_hotkey(combo@) == Err::<(u32, u32), Seq<char>>(e@),
        },
{
    let pieces = split_chars(combo, '+');
    let ghost views = crate::text::string_views(pieces@);
    let mut chord = Chord { alt: false, ctrl: false, shift: false, win: false, key: None };
    let n = pieces.len();
    for i in 0..n
        invariant
            n == pieces@.len(),
            views == crate::text::string_views(pieces@),
            views == split_on(combo@, '+'),
            spec_read_pieces(views.take(i as int), combo@) == Ok::<Chord, Seq<char>>(chord),
    {
        assert(views.take(i + 1).drop_last() =~= views.take(i as int));
        let part = trim_str(pieces[i].as_str());
        if !part.as_str().is_empty() {
            let token = to_ascii_upper(part.as_str());
            match apply_token(chord, token.as_str(), combo) {
                Ok(next) => {
                    chord = next;
                },
                Err(e) => {
                    proof {
                        assert(views.take(i + 1).last() == views[i as int]);
                        assert(views[i as int] == pieces@[i as int]@);
                        lemma_read_pieces_error_sticks(views, i as int + 1, combo@);
                    }
                    return Err(e);
                },
            }
        }
    }
    assert(views.take(n as int) =~= views);
    match chord.key {
        None => {
            let mut msg = quote(combo);
            msg.append(" has no key, only modifiers");
            Err(msg)
        },
        Some(k) => {
            if !chord.alt && !chord.ctrl && !chord.shift && !chord.win {
                let mut msg = quote(combo);
                msg.append(" needs at least one modifier (Ctrl/Alt/Shift/Win)");
                Err(msg)
            } else {
                let mods: u32 = MOD_NOREPEAT + (if chord.alt { MOD_ALT } else { 0 }) + (if chord.ctrl {
                    MOD_CONTROL
                } else {
                    0
                }) + (if chord.shift { MOD_SHIFT } else { 0 }) + (if chord.win { MOD_WIN } else { 0 });
                Ok((mods, k as u32))
            }
        },
    }
}

proof fn lemma_read_pieces_error_sticks(pieces: Seq<Seq<char>>, k: int, combo: Seq<char>)
    requires
        0 <= k <= pieces.len(),
        spec_read_pieces(pieces.take(k), combo) is Err,
    ensures
        spec_read_pieces(pieces, combo) == spec_read_pieces(pieces.take(k), combo),
    decreases pieces.len() - k,
{
    if k < pieces.len() {
        assert(pieces.take(k + 1).drop_last() =~= pieces.take(k));
        lemma_read_pieces_error_sticks(pieces, k + 1, combo);
    } else {
        assert(pieces.take(k) =~= pieces);
    }
}


/// Once a key has been read, every longer reading either fails or still has
/// a key.
proof fn lemma_key_stays_read(pieces: Seq<Seq<char>>, i: int, k: int, combo: Seq<char>)
    requires
        0 <= i < k <= pieces.len(),
        spec_read_pieces(pieces.take(i), combo) matches Ok(c) && c.key is Some,
    ensures
        spec_read_pieces(pieces.take(k), combo) matches Ok(c) ==> c.key is Some,
    decreases k - i,
{
    assert(pieces.take(i + 1).drop_last() =~= pieces.take(i));
    if i + 1 < k {
        if spec_read_pieces(pieces.take(i + 1), combo) is Err {
            assert(pieces.take(k).take(i + 1) =~= pieces.take(i + 1));
            lemma_read_pieces_error_sticks(pieces.take(k), i + 1, combo);
            assert(pieces.take(k).take(k) =~= pieces.take(k));
        } else {
            lemma_key_stays_read(pieces, i + 1, k, combo);
        }
    }
}

/// The key is the trailing part of a combo: a combo in which a modifier
/// follows the key is refused.
pub proof fn lemma_key_must_be_trailing(combo: Seq<char>, i: int, j: int)
    requires
        0 <= i < j < split_on(combo, '+').len(),
        ascii_upper(trim(split_on(combo, '+')[i])).len() == 1,
        is_ascii_alphanumeric(ascii_upper(trim(split_on(combo, '+')[i]))[0]),
        is_modifier(ascii_upper(trim(split_on(combo, '+')[j]))),
    ensures
        spec_parse_hotkey(combo) is Err,
{
    reveal_strlit("CTRL");
    reveal_strlit("CONTROL");
    reveal_strlit("ALT");
    reveal_strlit("SHIFT");
    reveal_strlit("WIN");
    reveal_strlit("SUPER");
    reveal_strlit("META");
    let pieces = split_on(combo, '+');
    assert(pieces.take(i + 1).drop_last() =~= pieces.take(i));
    assert(pieces.take(i + 1).last() == pieces[i]);
    assert(pieces.take(j + 1).drop_last() =~= pieces.take(j));
    assert(pieces.take(j + 1).last() == pieces[j]);
    let key_token = ascii_upper(trim(pieces[i]));
    assert(!is_modifier(key_token));
    assert(trim(pieces[i]).len() == 1);
    if spec_read_pieces(pieces.take(i + 1), combo) is Err {
        lemma_read_pieces_error_sticks(pieces, i + 1, combo);
    } else {
        assert(spec_read_pieces(pieces.take(i), combo) is Ok);
        assert(spec_read_pieces(pieces.take(i + 1), combo)->Ok_0.key is Some);
        if i + 1 < j {
            lemma_key_stays_read(pieces, i + 1, j, combo);
        }
        assert(spec_read_pieces(pieces.take(j), combo) matches Ok(c) ==> c.key is Some);
        assert(ascii_upper(trim(pieces[j])).len() == trim(pieces[j]).len());
        assert(trim(pieces[j]).len() > 0);
        assert(spec_read_pieces(pieces.take(j + 1), combo) is Err);
        lemma_read_pieces_error_sticks(pieces, j + 1, combo);
    }
}

/// A key is an upper-case ASCII letter or a digit.
pub open spec fn is_key_code(c: char) -> bool {
    ('0' <= c <= '9') || ('A' <= c <= 'Z')
}

proof fn lemma_read_pieces_key(pieces: Seq<Seq<char>>, combo: Seq<char>)
    ensures
        spec_read_pieces(pieces, combo) matches Ok(c) ==> (c.key matches Some(k) ==> is_key_code(k)),
    decreases pieces.len(),
{
    if pieces.len() > 0 {
        lemma_read_pieces_key(pieces.drop_last(), combo);
        let part = trim(pieces.last());
        let token = ascii_upper(part);
        if part.len() == 1 {
            assert(token[0] == upper_char(part[0]));
        }
    }
}

/// A successfully parsed combo always carries `MOD_NOREPEAT` and at least one
/// of Alt, Ctrl, Shift and Win, and its key code is that of an upper-case
/// ASCII letter or a digit.
pub proof fn lemma_parsed_hotkey_shape(combo: Seq<char>)
    ensures
        spec_parse_hotkey(combo) matches Ok((mods, vk)) ==> {
            &&& MOD_NOREPEAT < mods <= MOD_NOREPEAT + MOD_ALT + MOD_CONTROL + MOD_SHIFT + MOD_WIN
            &&& (('0' as u32) <= vk <= ('9' as u32) || ('A' as u32) <= vk <= ('Z' as u32))
        },
{
    lemma_read_pieces_key(split_on(combo, '+'), combo);
}


/// Where a hotkey change ends: the registered combo, whether the toggle is
/// registered at all, and the answer to the request.
pub struct RebindOutcome {
    pub binding: (u32, u32),
    pub active: bool,
    pub reply: Result<(), String>,
}

pub open spec fn rebind_failed_message(combo: Seq<char>, error: Seq<char>) -> Seq<char> {
    "couldn't register "@ + quoted(combo) + ": "@ + error + " (reverted to the previous hotkey)"@
}

/// After the old combo was unregistered and `requested` was registered,
/// failing with `register_error` if it failed (in which case `current` was
/// registered again, succeeding when `restored`): on success the requested
/// combo is current and active; on failure the previous combo stays current,
/// active only if it could be restored, and the request is answered with the
/// error.
pub fn finish_rebind(
    current: (u32, u32),
    requested: (u32, u32),
    combo: &str,
    register_error: Option<String>,
    restored: bool,
) -> (out: RebindOutcome)
    ensures
        match register_error {
            None => out.binding == requested && out.active && out.reply is Ok,
            Some(e) => {
                &&& out.binding == current
                &&& out.active == restored
                &&& (out.reply matches Err(m) && m@ == rebind_failed_message(combo@, e@))
            },
        },
{
    match register_error {
        None => RebindOutcome { binding: requested, active: true, reply: Ok(()) },
        Some(e) => {
            let mut msg = concat_str("couldn't register ", quote(combo).as_str());
            msg.append(": ");
            msg.append(e.as_str());
            msg.append(" (reverted to the previous hotkey)");
            RebindOutcome { binding: current, active: restored, reply: Err(msg) }
        },
    }
}

/// A whole rebind to `combo` from the registered `current` (active or not):
/// the combo is parsed; if it parses, its registration fails with
/// `register_error` or succeeds, and on failure `current` is registered again,
/// succeeding when `restored`. The result is the registered combo, whether it
/// is active, and the answer to the request (as `parse_hotkey` and
/// `finish_rebind` give them).
pub open spec fn spec_rebind(
    current: (u32, u32),
    active: bool,
    combo: Seq<char>,
    register_error: Option<Seq<char>>,
    restored: bool,
) -> ((u32, u32), bool, Result<(), Seq<char>>) {
    match spec_parse_hotkey(combo) {
        Err(e) => (current, active, Err(e)),
        Ok(requested) => match register_error {
            None => (requested, true, Ok(())),
            Some(e) => (current, restored, Err(rebind_failed_message(combo, e))),
        },
    }
}

/// A rebind succeeds exactly when the combo parses and registering it
/// succeeds, and then the new combo is the registered, active toggle. A combo
/// that does not parse changes nothing; a failed registration reverts to the
/// previous combo, active only if it could be registered again.
pub proof fn lemma_rebind_outcome(
    current: (u32, u32),
    active: bool,
    combo: Seq<char>,
    register_error: Option<Seq<char>>,
    restored: bool,
)
    ensures
        ({
            let (binding, now_active, reply) = spec_rebind(current, active, combo, register_error, restored);
            &&& reply is Ok <==> spec_parse_hotkey(combo) is Ok && register_error is None
            &&& reply is Ok ==> binding == spec_parse_hotkey(combo)->Ok_0 && now_active
            &&& spec_parse_hotkey(combo) is Err ==> binding == current && now_active == active
            &&& (spec_parse_hotkey(combo) is Ok && register_error is Some) ==> binding == current && now_active
                == restored
        }),
{
}

} // verus!
