//! Cryptographic content digests: SHA-256 over a byte string, written as
//! 64 lower-case hexadecimal digits.

use vstd::prelude::*;
use crate::text::string_push;

verus! {

/// The SHA-256 digest of a byte string, as computed by the `sha2` crate.
pub uninterp spec fn sha256(data: Seq<u8>) -> Seq<u8>;

/// Number of bytes in a SHA-256 digest.
pub const DIGEST_BYTES: usize = 32;

/// The hexadecimal digit for a value below sixteen.
pub open spec fn hex_digit(n: int) -> char {
    seq!['0', '1', '2', '3', '4', '5', '6', '7', '8', '9', 'a', 'b', 'c', 'd', 'e', 'f'][n]
}

/// Lower-case hexadecimal rendering: two digits per byte, high half first.
pub open spec fn lower_hex(bytes: Seq<u8>) -> Seq<char> {
    Seq::new(
        2 * bytes.len(),
        |i: int|
            if i % 2 == 0 {
                hex_digit(bytes[i / 2] as int / 16)
            } else {
                hex_digit(bytes[i / 2] as int % 16)
            },
    )
}

/// The digest of a byte string in the form in which it is stored and
/// compared.
pub open spec fn digest_hex(data: Seq<u8>) -> Seq<char> {
    lower_hex(sha256(data))
}

/// Calls `sha2::Sha256::digest` and copies the 32 bytes it returns.
#[verifier::external_body]
pub(crate) fn sha256_bytes(data: &[u8]) -> (r: Vec<u8>)
    ensures
        r@ == sha256(data@),
        r@.len() == DIGEST_BYTES,
{
    <sha2::Sha256 as sha2::Digest>::digest(data).to_vec()
}

fn hex_char(n: u8) -> (c: char)
    requires
        n < 16,
    ensures
        c == hex_digit(n as int),
{
    match n {
        0 => '0',
        1 => '1',
        2 => '2',
        3 => '3',
        4 => '4',
        5 => '5',
        6 => '6',
        7 => '7',
        8 => '8',
        9 => '9',
        10 => 'a',
        11 => 'b',
        12 => 'c',
        13 => 'd',
        14 => 'e',
        _ => 'f',
    }
}

/// Renders bytes as lower-case hexadecimal text.
pub fn to_hex(bytes: &[u8]) -> (r: String)
    ensures
        r@ == lower_hex(bytes@),
{
    let mut out = String::new();
    let mut i: usize = 0;
    while i < bytes.len()
        invariant
            i <= bytes.len(),
            out@ == lower_hex(bytes@.take(i as int)),
        decreases bytes.len() - i,
    {
        let b: u8 = bytes[i];
        let ghost before = out@;
        string_push(&mut out, hex_char(b / 16));
        string_push(&mut out, hex_char(b % 16));
        proof {
            let prev = bytes@.take(i as int);
            let next = bytes@.take(i as int + 1);
            assert(before.len() == 2 * i);
            assert forall|k: int| 0 <= k < out@.len() implies out@[k] == lower_hex(next)[k] by {
                if k < 2 * i {
                    assert(before[k] == lower_hex(prev)[k]);
                    assert(prev[k / 2] == next[k / 2]);
                } else {
                    assert(k / 2 == i);
                    assert(next[k / 2] == b);
                }
            }
            assert(out@ =~= lower_hex(next));
        }
        i += 1;
    }
    assert(bytes@.take(i as int) =~= bytes@);
    out
}

/// The stored form of the SHA-256 digest of `data`.
pub fn content_digest(data: &[u8]) -> (r: String)
    ensures
        r@ == digest_hex(data@),
        r@.len() == 2 * DIGEST_BYTES,
{
    let raw = sha256_bytes(data);
    to_hex(raw.as_slice())
}

} // verus!
