//! Dedup keys: the lowercase hex SHA-256 digest of an item's dedup source.
use vstd::prelude::*;

use sha2::Digest;

use crate::text::push_char;

verus! {

/// The SHA-256 digest of `data`.
pub uninterp spec fn sha256_digest(data: Seq<u8>) -> Seq<u8>;

/// Calls `sha2::Sha256` (`new`, `update`, `finalize`) on `data`. Trusted: the
/// result is the digest of `data`, 32 bytes long.
#[verifier::external_body]
fn sha256(data: &[u8]) -> (digest: Vec<u8>)
    ensures
        digest@ == sha256_digest(data@),
        digest@.len() == 32,
{
    let mut hasher = sha2::Sha256::new();
    hasher.update(data);
    hasher.finalize().to_vec()
}

/// The lowercase hexadecimal digit for `d < 16`.
pub open spec fn hex_digit(d: int) -> char {
    if d < 10 {
        (('0' as int) + d) as char
    } else {
        (('a' as int) + d - 10) as char
    }
}

/// Each byte as two lowercase hex digits, most significant first (the
/// `{:x}` format of a digest).
pub open spec fn hex_lower(bytes: Seq<u8>) -> Seq<char>
    decreases bytes.len(),
{
    if bytes.len() == 0 {
        Seq::empty()
    } else {
        hex_lower(bytes.drop_last()) + seq![
            hex_digit(bytes.last() as int / 16),
            hex_digit(bytes.last() as int % 16),
        ]
    }
}

/// The dedup key of a dedup source: the hex SHA-256 of its UTF-8 bytes.
pub open spec fn spec_dedup_key(source: Seq<char>) -> Seq<char> {
    hex_lower(sha256_digest(vstd::utf8::encode_utf8(source)))
}

fn hex_char(d: u8) -> (c: char)
    requires
        d < 16,
    ensures
        c == hex_digit(d as int),
{
    let c: char = match d {
        0 => '0',
        1 => '1',
        2 => '2',
        3 => '3',
        4 => '4',
        5 => '5',
        6 => '6',
        7 => '7',
        8 => '8',
        9 => '9',
        10 => 'a',
        11 => 'b',
        12 => 'c',
        13 => 'd',
        14 => 'e',
        _ => 'f',
    };
    c
}

/// `bytes` written as lowercase hex.
pub fn to_hex_lower(bytes: &[u8]) -> (s: String)
    ensures
        s@ == hex_lower(bytes@),
{
    let mut s = String::new();
    let n = bytes.len();
    for i in 0..n
        invariant
            n == bytes@.len(),
            s@ == hex_lower(bytes@.take(i as int)),
    {
        let b = bytes[i];
        push_char(&mut s, hex_char(b / 16));
        push_char(&mut s, hex_char(b % 16));
        assert(bytes@.take(i + 1).drop_last() =~= bytes@.take(i as int));
    }
    assert(bytes@.take(n as int) =~= bytes@);
    s
}

/// The content hash of an image: the hex SHA-256 of its pixel bytes. Stored
/// images are named by it and deduplicated by it, so copying the same image
/// twice refers to one stored file and one history row.
pub open spec fn spec_image_hash(pixels: Seq<u8>) -> Seq<char> {
    hex_lower(sha256_digest(pixels))
}

/// The content hash of the image whose pixel bytes are `pixels`.
pub fn image_hash(pixels: &[u8]) -> (hash: String)
    ensures
        hash@ == spec_image_hash(pixels@),
{
    let digest = sha256(pixels);
    to_hex_lower(digest.as_slice())
}

/// The dedup key of `source`.
pub fn dedup_key(source: &str) -> (key: String)
    ensures
        key@ == spec_dedup_key(source@),
{
    let digest = sha256(source.as_bytes());
    to_hex_lower(digest.as_slice())
}

} // verus!
