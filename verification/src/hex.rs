//! Hex encoding and decoding of byte strings, used for agent identifiers,
//! public keys, signatures and persisted hashes.

use vstd::prelude::*;
use crate::strutil::push_char;
use vstd::string::StringSliceAdditionalSpecFns;

verus! {

/// The value of one hex digit (`0-9`, `a-f`, `A-F`), or `None` for any other
/// byte.  Byte values are ASCII: 48 is `'0'`, 97 is `'a'`, 65 is `'A'`.
pub open spec fn spec_hex_val(b: u8) -> Option<u8> {
    if 48 <= b && b <= 57 {
        Some((b - 48) as u8)
    } else if 97 <= b && b <= 102 {
        Some((10 + (b - 97)) as u8)
    } else if 65 <= b && b <= 70 {
        Some((10 + (b - 65)) as u8)
    } else {
        None
    }
}

/// Every byte of `s` is a hex digit.
pub open spec fn all_hex(s: Seq<u8>) -> bool {
    forall|i: int| 0 <= i < s.len() ==> (#[trigger] spec_hex_val(s[i])) is Some
}

/// The bytes denoted by a sequence of hex digits, two digits per byte, the
/// high nibble first.
pub open spec fn spec_hex_decode(s: Seq<u8>) -> Seq<u8> {
    Seq::new((s.len() / 2) as nat, |i: int|
        (spec_hex_val(s[2 * i])->0 * 16 + spec_hex_val(s[2 * i + 1])->0) as u8)
}

/// The character for one nibble, lower case: 48 is `'0'`, 87 + 10 is `'a'`.
pub open spec fn spec_nibble_char(n: u8) -> char {
    if n < 10 {
        ((48 + n) as u8) as char
    } else {
        ((87 + n) as u8) as char
    }
}

/// The lower-case hex text of a byte string, two characters per byte.
pub open spec fn spec_to_hex(bytes: Seq<u8>) -> Seq<char> {
    Seq::new((bytes.len() * 2) as nat, |i: int|
        if i % 2 == 0 {
            spec_nibble_char((bytes[i / 2] >> 4) as u8)
        } else {
            spec_nibble_char((bytes[i / 2] & 0x0f) as u8)
        })
}

/// Decodes one hex digit (either case); rejects every other byte.
pub fn hex_val(b: u8) -> (r: Result<u8, String>)
    ensures
        r is Ok <==> spec_hex_val(b) is Some,
        r is Ok ==> r->Ok_0 == spec_hex_val(b)->0,
{
    if 48 <= b && b <= 57 {
        Ok(b - 48)
    } else if 97 <= b && b <= 102 {
        Ok(10 + (b - 97))
    } else if 65 <= b && b <= 70 {
        Ok(10 + (b - 65))
    } else {
        Err(String::from_str("invalid hex"))
    }
}

/// Decodes a hex string of exactly `2 * n` digits into `n` bytes; any other
/// length and any non-hex digit are rejected.
pub fn parse_hex_bytes(hex: &str, n: usize) -> (r: Result<Vec<u8>, String>)
    requires
        n <= usize::MAX / 2,
    ensures
        r is Ok <==> hex.spec_bytes().len() == 2 * n && all_hex(hex.spec_bytes()),
        r is Ok ==> r->Ok_0@ == spec_hex_decode(hex.spec_bytes()) && r->Ok_0@.len() == n,
{
    let bytes = hex.as_bytes_vec();
    if bytes.len() != 2 * n {
        return Err(String::from_str("wrong hex length"));
    }
    let mut out: Vec<u8> = Vec::new();
    let mut i: usize = 0;
    while i < n
        invariant
            n <= usize::MAX / 2,
            bytes@ == hex.spec_bytes(),
            bytes@.len() == 2 * n,
            i <= n,
            out@.len() == i,
            forall|k: int| 0 <= k < 2 * i ==> (#[trigger] spec_hex_val(bytes@[k])) is Some,
            forall|k: int| 0 <= k < i ==> out@[k] == spec_hex_decode(bytes@)[k],
        decreases n - i,
    {
        let high = match hex_val(bytes[2 * i]) {
            Ok(v) => v,
            Err(e) => {
                return Err(e);
            },
        };
        let low = match hex_val(bytes[2 * i + 1]) {
            Ok(v) => v,
            Err(e) => {
                return Err(e);
            },
        };
        out.push(high * 16 + low);
        i = i + 1;
    }
    assert(out@ =~= spec_hex_decode(bytes@));
    Ok(out)
}

/// Encodes bytes as lower-case hex text, two characters per byte.
pub fn to_hex(bytes: &Vec<u8>) -> (r: String)
    requires
        bytes@.len() <= usize::MAX / 2,
    ensures
        r@ == spec_to_hex(bytes@),
{
    let mut s = String::new();
    let mut i: usize = 0;
    while i < bytes.len()
        invariant
            bytes@.len() <= usize::MAX / 2,
            i <= bytes@.len(),
            s@.len() == 2 * i,
            forall|k: int| 0 <= k < 2 * i ==> s@[k] == spec_to_hex(bytes@)[k],
        decreases bytes@.len() - i,
    {
        let b = bytes[i];
        assert(b >> 4 < 16 && b & 0x0f < 16) by (bit_vector);
        let high = b >> 4;
        let low = b & 0x0f;
        push_char(&mut s, nibble_char(high));
        push_char(&mut s, nibble_char(low));
        i = i + 1;
    }
    assert(s@ =~= spec_to_hex(bytes@));
    s
}

/// The lower-case hex character for a nibble.
fn nibble_char(n: u8) -> (c: char)
    requires
        n < 16,
    ensures
        c == spec_nibble_char(n),
{
    if n < 10 {
        (48 + n) as char
    } else {
        (87 + n) as char
    }
}

} // verus!
