//! Hex encoding helpers, base16 text encoding, and a short one-byte XOR
//! checksum of data in hex.
use vstd::prelude::*;
use vstd::string::StringSliceAdditionalSpecFns;
use vstd::utf8::*;

use std::string::FromUtf8Error;

use crate::util::text::{push_char, string_from_utf8};

verus! {

broadcast use vstd::utf8::group_utf8_lib;

/// The ASCII code of the lower-case hex digit for a value below 16.
pub open spec fn hex_digit(nibble: u8) -> u8 {
    if nibble < 10 {
        (nibble + 0x30) as u8
    } else {
        (nibble + 0x57) as u8
    }
}

/// Whether a byte is the ASCII code of a hex digit, in either case.
pub open spec fn is_hex_digit(c: u8) -> bool {
    ||| 0x30 <= c <= 0x39
    ||| 0x61 <= c <= 0x66
    ||| 0x41 <= c <= 0x46
}

/// The value of a hex digit given by its ASCII code.
pub open spec fn hex_value(c: u8) -> u8 {
    if 0x30 <= c <= 0x39 {
        (c - 0x30) as u8
    } else if 0x61 <= c <= 0x66 {
        (c - 0x57) as u8
    } else {
        (c - 0x37) as u8
    }
}

/// The lower-case hex digit (as a character) at position `i` of the hex
/// text of `bytes`: two digits per byte, high nibble first.
pub open spec fn hex_char_at(bytes: Seq<u8>, i: int) -> char {
    if i % 2 == 0 {
        hex_digit(bytes[i / 2] >> 4) as char
    } else {
        hex_digit(bytes[i / 2] & 0xF) as char
    }
}

/// Lower-case hex text of a byte sequence.
pub open spec fn hex_text(bytes: Seq<u8>) -> Seq<char> {
    Seq::new(2 * bytes.len(), |i: int| hex_char_at(bytes, i))
}

/// Whether every byte that base16 decoding reads is a hex digit: all bytes
/// but a final odd one.
pub open spec fn decodable_hex(text: Seq<u8>) -> bool {
    forall|i: int| 0 <= i < 2 * (text.len() / 2) ==> is_hex_digit(#[trigger] text[i])
}

/// The bytes that base16 decoding reads from hex text: one per pair of
/// digits, a final odd digit being ignored.
pub open spec fn hex_bytes(text: Seq<u8>) -> Seq<u8> {
    Seq::new(
        text.len() / 2,
        |k: int| (hex_value(text[2 * k]) * 16 + hex_value(text[2 * k + 1])) as u8,
    )
}

/// Rotates a byte left by `k` bits, `k` below 8.
pub open spec fn rotate_left(b: u8, k: u8) -> u8 {
    if k == 0 {
        b
    } else {
        (b << k) | (b >> ((8 - k) as u8))
    }
}

/// The one-byte checksum behind `xor_byte_hash`: the XOR of all bytes, the
/// byte at index `i` rotated left by `i % 8` bits.
pub open spec fn xor_hash_byte(data: Seq<u8>) -> u8
    decreases data.len(),
{
    if data.len() == 0 {
        0
    } else {
        xor_hash_byte(data.drop_last()) ^ rotate_left(data.last(), ((data.len() - 1) % 8) as u8)
    }
}

/// Returns the ASCII code of the lower-case hex digit for `nibble`.
pub fn nibble_char(nibble: u8) -> (c: u8)
    requires
        nibble <= 0xF,
    ensures
        c == hex_digit(nibble),
{
    if nibble < 0xA {
        nibble + 0x30
    } else {
        nibble - 0xA + 0x61
    }
}

/// Returns the value of the hex digit whose ASCII code is `nibble`
/// (upper or lower case).
pub fn nibble_value(nibble: u8) -> (v: u8)
    requires
        is_hex_digit(nibble),
    ensures
        v == hex_value(nibble),
        v <= 0xF,
{
    if nibble >= 0x30 && nibble <= 0x39 {
        nibble - 0x30
    } else if nibble >= 0x61 && nibble <= 0x66 {
        nibble - 0x61 + 0xA
    } else {
        nibble - 0x41 + 0xA
    }
}

proof fn lemma_nibbles(b: u8)
    ensures
        b >> 4 <= 0xF,
        b & 0xF <= 0xF,
{
    assert(b >> 4 <= 0xF) by (bit_vector);
    assert(b & 0xF <= 0xF) by (bit_vector);
}

/// Appends the two lower-case hex digits of `byte` to `output`.
fn push_hex_byte(output: &mut String, byte: u8)
    ensures
        final(output)@ == old(output)@ + hex_text(seq![byte]),
{
    proof {
        lemma_nibbles(byte);
    }
    proof {
        assert((byte >> 4) & 0xF == byte >> 4) by (bit_vector);
    }
    let high = nibble_char((byte >> 4) & 0xF);
    let low = nibble_char(byte & 0xF);
    push_char(output, high as char);
    push_char(output, low as char);
    assert(final(output)@ =~= old(output)@ + hex_text(seq![byte]));
}

/// Lower-case hex text of a byte slice, two digits per byte.
pub fn encode_hex(data: &[u8]) -> (s: String)
    ensures
        s@ == hex_text(data@),
{
    let mut output = String::new();
    let mut i: usize = 0;
    while i < data.len()
        invariant
            0 <= i <= data.len(),
            output@ == hex_text(data@.take(i as int)),
        decreases data.len() - i,
    {
        push_hex_byte(&mut output, data[i]);
        assert(hex_text(data@.take(i + 1)) =~= hex_text(data@.take(i as int)) + hex_text(
            seq![data@[i as int]],
        ));
        i = i + 1;
    }
    assert(data@.take(data.len() as int) =~= data@);
    output
}

/// Returns a two-digit lower-case hex checksum of `data`.
pub fn xor_byte_hash(data: &[u8]) -> (s: String)
    ensures
        s@ == hex_text(seq![xor_hash_byte(data@)]),
{
    let mut output: u8 = 0;
    let mut i: usize = 0;
    while i < data.len()
        invariant
            0 <= i <= data.len(),
            output == xor_hash_byte(data@.take(i as int)),
        decreases data.len() - i,
    {
        let k: u8 = (i % 8) as u8;
        let b = data[i];
        let ghost before = output;
        output ^= b << k;
        if k != 0 {
            output ^= b >> (8 - k);
            proof {
                assert((before ^ (b << k)) ^ (b >> ((8 - k) as u8)) == before ^ ((b << k) | (b >> ((
                8 - k) as u8)))) by (bit_vector)
                    requires
                        1 <= k < 8,
                ;
            }
        }
        proof {
            if k == 0 {
                assert(b << 0u8 == b) by (bit_vector);
            }
            let t = data@.take(i + 1);
            assert(t.drop_last() =~= data@.take(i as int));
            assert(t.last() == b);
            assert(output == xor_hash_byte(t));
        }
        i = i + 1;
    }
    assert(data@.take(data.len() as int) =~= data@);
    let mut hex = String::new();
    push_hex_byte(&mut hex, output);
    hex
}

/// Base16 (lower-case hex) encoding of the UTF-8 bytes of `data`.
pub fn base16_encode(data: &str) -> (s: String)
    ensures
        s@ == hex_text(data.spec_bytes()),
{
    encode_hex(data.as_bytes())
}

proof fn lemma_pack_nibbles(high: u8, low: u8)
    requires
        high <= 0xF,
        low <= 0xF,
    ensures
        (high << 4) | low == high * 16 + low,
{
    assert((high << 4) | low == high * 16 + low) by (bit_vector)
        requires
            high <= 0xF,
            low <= 0xF,
    ;
}

/// Decodes base16 text (hex digits of either case) into bytes and returns
/// them as a `String` when they are valid UTF-8. A final odd digit is
/// ignored.
pub fn base16_decode(str: &str) -> (res: Result<String, FromUtf8Error>)
    requires
        decodable_hex(str.spec_bytes()),
    ensures
        res is Ok <==> valid_utf8(hex_bytes(str.spec_bytes())),
        res matches Ok(s) ==> s@ == decode_utf8(hex_bytes(str.spec_bytes())),
{
    let chars = str.as_bytes();
    let half = chars.len() / 2;
    let mut output: Vec<u8> = Vec::with_capacity(half);
    let mut i: usize = 0;
    while i < half
        invariant
            chars@ == str.spec_bytes(),
            half == chars@.len() / 2,
            chars.len() == chars@.len(),
            decodable_hex(chars@),
            0 <= i <= half,
            output@ =~= hex_bytes(chars@).take(i as int),
        decreases half - i,
    {
        let high = nibble_value(chars[i * 2]);
        let low = nibble_value(chars[i * 2 + 1]);
        proof {
            lemma_pack_nibbles(high, low);
        }
        output.push((high << 4) | low);
        i = i + 1;
    }
    assert(hex_bytes(chars@).take(half as int) =~= hex_bytes(chars@));
    string_from_utf8(output)
}

proof fn lemma_hex_digit_value(n: u8)
    requires
        n <= 0xF,
    ensures
        is_hex_digit(hex_digit(n)),
        hex_value(hex_digit(n)) == n,
        hex_digit(n) <= 0x7F,
{
}

proof fn lemma_split_byte(b: u8)
    ensures
        (b >> 4) * 16 + (b & 0xF) == b,
{
    assert((b >> 4) * 16 + (b & 0xF) == b) by (bit_vector);
}

/// The UTF-8 bytes of hex text are the ASCII codes of its digits, every one
/// of them a hex digit, and decoding them gives back the bytes encoded.
pub proof fn lemma_hex_text_decodes(bytes: Seq<u8>)
    ensures
        encode_utf8(hex_text(bytes)).len() == 2 * bytes.len(),
        decodable_hex(encode_utf8(hex_text(bytes))),
        hex_bytes(encode_utf8(hex_text(bytes))) == bytes,
{
    let text = hex_text(bytes);
    assert forall|i: int| 0 <= i < text.len() implies '\0' <= #[trigger] text[i] <= '\u{7f}' by {
        lemma_nibbles(bytes[i / 2]);
        lemma_hex_digit_value(bytes[i / 2] >> 4);
        lemma_hex_digit_value(bytes[i / 2] & 0xF);
    }
    assert(is_ascii_chars(text));
    is_ascii_chars_encode_utf8(text);
    let enc = encode_utf8(text);
    assert forall|i: int| 0 <= i < 2 * (enc.len() / 2) implies is_hex_digit(#[trigger] enc[i]) by {
        lemma_nibbles(bytes[i / 2]);
        lemma_hex_digit_value(bytes[i / 2] >> 4);
        lemma_hex_digit_value(bytes[i / 2] & 0xF);
        assert(text[i] as u8 == enc[i]);
    }
    assert forall|k: int| 0 <= k < bytes.len() implies #[trigger] hex_bytes(enc)[k] == bytes[k] by {
        let b = bytes[k];
        lemma_nibbles(b);
        lemma_hex_digit_value(b >> 4);
        lemma_hex_digit_value(b & 0xF);
        lemma_split_byte(b);
        assert(text[2 * k] as u8 == enc[2 * k]);
        assert(text[2 * k + 1] as u8 == enc[2 * k + 1]);
        assert((2 * k) / 2 == k);
        assert((2 * k + 1) / 2 == k);
    }
    assert(hex_bytes(enc) =~= bytes);
}

/// Base16 round trip: for any text, the base16 encoding of its UTF-8 bytes is
/// accepted by `base16_decode`, whose result is `Ok` with the same text.
pub proof fn lemma_base16_round_trip(text: Seq<char>)
    ensures
        decodable_hex(encode_utf8(hex_text(encode_utf8(text)))),
        valid_utf8(hex_bytes(encode_utf8(hex_text(encode_utf8(text))))),
        decode_utf8(hex_bytes(encode_utf8(hex_text(encode_utf8(text))))) == text,
{
    lemma_hex_text_decodes(encode_utf8(text));
}

/// ASCII upper-casing of a byte sequence: `a`..`z` become `A`..`Z`.
pub open spec fn ascii_upper(text: Seq<u8>) -> Seq<u8> {
    text.map_values(|c: u8| if 0x61 <= c <= 0x7A { (c - 0x20) as u8 } else { c })
}

/// Base16 decoding ignores the case of the hex digits: upper-casing
/// decodable hex text keeps it decodable and gives the same bytes.
pub proof fn lemma_base16_case_insensitive(text: Seq<u8>)
    requires
        decodable_hex(text),
    ensures
        decodable_hex(ascii_upper(text)),
        hex_bytes(ascii_upper(text)) == hex_bytes(text),
{
    let up = ascii_upper(text);
    assert forall|i: int| 0 <= i < 2 * (up.len() / 2) implies is_hex_digit(#[trigger] up[i]) by {
        assert(is_hex_digit(text[i]));
    }
    assert forall|k: int| 0 <= k < text.len() / 2 implies #[trigger] hex_bytes(up)[k]
        == hex_bytes(text)[k] by {
        assert(is_hex_digit(text[2 * k]));
        assert(is_hex_digit(text[2 * k + 1]));
    }
    assert(hex_bytes(up) =~= hex_bytes(text));
}

} // verus!
