//! Lowercase hex encoding and decoding of byte strings, with the
//! round-trip law.  Content references serialize through this codec, and
//! the discovered write-ahead-log label is validated with it.

use vstd::prelude::*;

verus! {

/// ASCII code of the lowercase hex digit for a value below 16.
pub open spec fn nibble_char(n: u8) -> u8
    recommends
        n < 16,
{
    if n < 10 {
        (48 + n) as u8
    } else {
        (87 + n) as u8
    }
}

/// Lowercase hex encoding of a byte string: two digits per byte, high
/// nibble first.
pub open spec fn hex_seq(s: Seq<u8>) -> Seq<u8> {
    Seq::new(
        2 * s.len(),
        |i: int| if i % 2 == 0 { nibble_char(s[i / 2] / 16) } else { nibble_char(s[i / 2] % 16) },
    )
}

/// Whether an ASCII code is a hex digit, in either case.
pub open spec fn is_hex_digit(c: u8) -> bool {
    (48 <= c && c <= 57) || (97 <= c && c <= 102) || (65 <= c && c <= 70)
}

/// Value of a hex digit, in either case.
pub open spec fn hex_digit_val(c: u8) -> u8
    recommends
        is_hex_digit(c),
{
    if 48 <= c && c <= 57 {
        (c - 48) as u8
    } else if 97 <= c && c <= 102 {
        (c - 87) as u8
    } else {
        (c - 55) as u8
    }
}

/// Whether a byte string is a well-formed hex encoding: even length,
/// every character a hex digit.
pub open spec fn valid_hex(h: Seq<u8>) -> bool {
    h.len() % 2 == 0 && forall|i: int| 0 <= i < h.len() ==> is_hex_digit(#[trigger] h[i])
}

/// The byte string encoded by a well-formed hex string.
pub open spec fn bytes_of_hex(h: Seq<u8>) -> Seq<u8> {
    Seq::new(h.len() / 2, |i: int| (hex_digit_val(h[2 * i]) * 16 + hex_digit_val(h[2 * i + 1])) as u8)
}

/// Encodes a byte string as lowercase hex.
pub fn hex_encode(data: &Vec<u8>) -> (r: Vec<u8>)
    ensures
        r@ == hex_seq(data@),
{
    let mut out: Vec<u8> = Vec::new();
    let mut i: usize = 0;
    while i < data.len()
        invariant
            i <= data.len(),
            out@.len() == 2 * i,
            forall|j: int| 0 <= j < out@.len() ==> out@[j] == hex_seq(data@)[j],
        decreases data.len() - i,
    {
        let b = data[i];
        let hi = b / 16;
        let lo = b % 16;
        out.push(if hi < 10 { 48 + hi } else { 87 + hi });
        out.push(if lo < 10 { 48 + lo } else { 87 + lo });
        i = i + 1;
    }
    assert(out@ =~= hex_seq(data@));
    out
}

/// Decodes a hex string; `None` exactly when the input is not a
/// well-formed hex encoding.
pub fn hex_decode(h: &Vec<u8>) -> (r: Option<Vec<u8>>)
    ensures
        r is Some <==> valid_hex(h@),
        r is Some ==> r->0@ == bytes_of_hex(h@),
{
    if h.len() % 2 != 0 {
        return None;
    }
    let mut out: Vec<u8> = Vec::new();
    let mut i: usize = 0;
    while i < h.len()
        invariant
            h@.len() % 2 == 0,
            i % 2 == 0,
            i <= h.len(),
            out@.len() == i / 2,
            forall|j: int| 0 <= j < i ==> is_hex_digit(#[trigger] h@[j]),
            forall|j: int| 0 <= j < out@.len() ==> out@[j] == bytes_of_hex(h@)[j],
        decreases h.len() - i,
    {
        let c0 = h[i];
        let c1 = h[i + 1];
        let v0 = match hex_val(c0) {
            Some(v) => v,
            None => {
                return None;
            },
        };
        let v1 = match hex_val(c1) {
            Some(v) => v,
            None => {
                return None;
            },
        };
        out.push(v0 * 16 + v1);
        i = i + 2;
    }
    assert(out@ =~= bytes_of_hex(h@));
    Some(out)
}

/// Value of one hex character; `None` exactly when it is not a hex
/// digit.
fn hex_val(c: u8) -> (r: Option<u8>)
    ensures
        r is Some <==> is_hex_digit(c),
        r is Some ==> r->0 == hex_digit_val(c),
{
    if 48 <= c && c <= 57 {
        Some(c - 48)
    } else if 97 <= c && c <= 102 {
        Some(c - 87)
    } else if 65 <= c && c <= 70 {
        Some(c - 55)
    } else {
        None
    }
}

/// Law: encoding any byte string yields a well-formed hex string of
/// twice the length, and decoding it gives back the original bytes.
pub proof fn lemma_hex_round_trip(s: Seq<u8>)
    ensures
        hex_seq(s).len() == 2 * s.len(),
        valid_hex(hex_seq(s)),
        bytes_of_hex(hex_seq(s)) == s,
{
    assert forall|i: int| 0 <= i < hex_seq(s).len() implies is_hex_digit(#[trigger] hex_seq(s)[i]) by {
        let b = s[i / 2];
        assert(b / 16 < 16 && b % 16 < 16);
    }
    assert(bytes_of_hex(hex_seq(s)) =~= s) by {
        assert forall|i: int| 0 <= i < s.len() implies bytes_of_hex(hex_seq(s))[i] == s[i] by {
            let b = s[i];
            assert(hex_seq(s)[2 * i] == nibble_char(b / 16));
            assert(hex_seq(s)[2 * i + 1] == nibble_char(b % 16));
            assert(hex_digit_val(nibble_char(b / 16)) == b / 16);
            assert(hex_digit_val(nibble_char(b % 16)) == b % 16);
        }
    }
}

} // verus!
