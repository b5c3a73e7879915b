//! The file list of a file-drop clipboard payload: each path in UTF-16,
//! terminated by a NUL, and the whole list closed by one more NUL.
use vstd::prelude::*;

use crate::text::{chars_of, string_views};

verus! {

/// The UTF-16 code units of `c`: one unit below U+10000, a surrogate pair
/// above.
pub open spec fn utf16_units(c: char) -> Seq<u16> {
    let v = c as u32;
    if v < 0x10000 {
        seq![v as u16]
    } else {
        let u = v - 0x10000;
        seq![(0xD800 + u / 0x400) as u16, (0xDC00 + u % 0x400) as u16]
    }
}

/// The UTF-16 encoding of `s` (`str::encode_utf16`).
pub open spec fn utf16(s: Seq<char>) -> Seq<u16>
    decreases s.len(),
{
    if s.len() == 0 {
        Seq::empty()
    } else {
        utf16(s.drop_last()) + utf16_units(s.last())
    }
}

/// Each path in UTF-16 followed by a NUL, in order.
pub open spec fn nul_terminated(paths: Seq<Seq<char>>) -> Seq<u16>
    decreases paths.len(),
{
    if paths.len() == 0 {
        Seq::empty()
    } else {
        nul_terminated(paths.drop_last()) + utf16(paths.last()) + seq![0u16]
    }
}

/// The file list of a file-drop payload for `paths`: the NUL-terminated
/// paths and a final NUL that ends the list.
pub open spec fn spec_file_list(paths: Seq<Seq<char>>) -> Seq<u16> {
    nul_terminated(paths).push(0u16)
}

fn push_utf16(out: &mut Vec<u16>, c: char)
    ensures
        final(out)@ == old(out)@ + utf16_units(c),
{
    let v = c as u32;
    if v < 0x10000 {
        out.push(v as u16);
    } else {
        let u = v - 0x10000;
        proof {
            vstd::utf8::char_is_scalar(c);
        }
        out.push((0xD800 + u / 0x400) as u16);
        out.push((0xDC00 + u % 0x400) as u16);
    }
}

fn push_path(out: &mut Vec<u16>, path: &str)
    ensures
        final(out)@ == old(out)@ + utf16(path@) + seq![0u16],
{
    let v = chars_of(path);
    let n = v.len();
    let ghost start = out@;
    for i in 0..n
        invariant
            n == v@.len(),
            v@ == path@,
            out@ == start + utf16(v@.take(i as int)),
    {
        push_utf16(out, v[i]);
        assert(v@.take(i + 1).drop_last() =~= v@.take(i as int));
        assert(out@ =~= start + utf16(v@.take(i + 1)));
    }
    assert(v@.take(n as int) =~= v@);
    out.push(0);
    assert(out@ =~= start + utf16(path@) + seq![0u16]);
}

/// The file list of a file-drop payload listing `paths`.
pub fn file_list(paths: &Vec<String>) -> (list: Vec<u16>)
    ensures
        list@ == spec_file_list(string_views(paths@)),
{
    let mut list: Vec<u16> = Vec::new();
    let n = paths.len();
    for i in 0..n
        invariant
            n == paths@.len(),
            list@ == nul_terminated(string_views(paths@).take(i as int)),
    {
        push_path(&mut list, paths[i].as_str());
        assert(string_views(paths@).take(i + 1).drop_last() =~= string_views(paths@).take(i as int));
    }
    assert(string_views(paths@).take(n as int) =~= string_views(paths@));
    list.push(0);
    list
}

} // verus!
