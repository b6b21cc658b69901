//! Small string helpers shared by the encoders.
use vstd::prelude::*;
use vstd::utf8::*;

use std::string::FromUtf8Error;

verus! {

#[verifier::external_type_specification]
#[verifier::external_body]
pub struct ExFromUtf8Error(FromUtf8Error);

/// Appends one character to a `String`.
///
/// Trusted: calls `String::push`, which, as its documentation says, appends
/// the given `char` to the end of the string.
#[verifier::external_body]
pub(crate) fn push_char(s: &mut String, c: char)
    ensures
        final(s)@ == old(s)@.push(c),
{
    s.push(c)
}

/// Turns a byte vector into a `String` when it holds valid UTF-8.
///
/// Trusted: calls `String::from_utf8`, which, as its documentation says,
/// returns `Ok` with the decoded text exactly when the bytes are valid UTF-8,
/// and an error otherwise. Validity and decoding are vstd's `valid_utf8` and
/// `decode_utf8`.
#[verifier::external_body]
pub(crate) fn string_from_utf8(bytes: Vec<u8>) -> (res: Result<String, FromUtf8Error>)
    ensures
        res is Ok <==> valid_utf8(bytes@),
        res matches Ok(s) ==> s@ == decode_utf8(bytes@),
{
    String::from_utf8(bytes)
}

/// Whether a byte is the ASCII code of a decimal digit.
pub open spec fn is_ascii_digit(c: u8) -> bool {
    0x30 <= c <= 0x39
}

/// Whether every byte of a sequence is a decimal digit.
pub open spec fn all_digits(d: Seq<u8>) -> bool {
    forall|i: int| 0 <= i < d.len() ==> is_ascii_digit(#[trigger] d[i])
}

/// The number that a sequence of decimal digits stands for.
pub open spec fn decimal_value(d: Seq<u8>) -> nat
    decreases d.len(),
{
    if d.len() == 0 {
        0
    } else {
        decimal_value(d.drop_last()) * 10 + (d.last() - 0x30) as nat
    }
}

/// The digits of unsigned decimal text: the text without a leading `+`.
pub open spec fn unsigned_digits(text: Seq<u8>) -> Seq<u8> {
    if text.len() > 0 && text[0] == 0x2B {
        text.drop_first()
    } else {
        text
    }
}

/// The `u32` that text stands for when parsed as `str::parse::<u32>` does:
/// an optional `+`, then one or more decimal digits, with a value that fits.
pub open spec fn parsed_u32(text: Seq<u8>) -> Option<u32> {
    let d = unsigned_digits(text);
    if d.len() > 0 && all_digits(d) && decimal_value(d) <= u32::MAX {
        Some(decimal_value(d) as u32)
    } else {
        None
    }
}

/// The decimal text of a number, without leading zeros.
pub open spec fn decimal_text(n: nat) -> Seq<char>
    decreases n,
{
    if n < 10 {
        seq![(n + 0x30) as char]
    } else {
        decimal_text(n / 10).push(((n % 10) + 0x30) as char)
    }
}

proof fn lemma_decimal_value_prefix(d: Seq<u8>, k: int)
    requires
        all_digits(d),
        0 <= k <= d.len(),
    ensures
        decimal_value(d.take(k)) <= decimal_value(d),
    decreases d.len(),
{
    if k < d.len() {
        assert(d.drop_last().take(k) =~= d.take(k));
        lemma_decimal_value_prefix(d.drop_last(), k);
    } else {
        assert(d.take(k) =~= d);
    }
}

/// Parses UTF-8 text as an unsigned 32-bit decimal number, accepting what
/// `str::parse::<u32>` accepts.
pub fn parse_u32(text: &[u8]) -> (r: Option<u32>)
    ensures
        r == parsed_u32(text@),
{
    let len = text.len();
    let start: usize = if len > 0 && text[0] == 0x2B {
        1
    } else {
        0
    };
    let ghost d = unsigned_digits(text@);
    assert(d =~= text@.skip(start as int));
    if start == len {
        return None;
    }
    let mut value: u64 = 0;
    let mut i: usize = start;
    while i < len
        invariant
            len == text@.len(),
            start <= i <= len,
            start < len,
            d == text@.skip(start as int),
            d == unsigned_digits(text@),
            all_digits(d.take(i - start)),
            value == decimal_value(d.take(i - start)),
            value <= u32::MAX,
        decreases len - i,
    {
        let c = text[i];
        if c < 0x30 || c > 0x39 {
            assert(d[i - start] == c);
            assert(!is_ascii_digit(d[i - start]));
            return None;
        }
        let ghost prev = d.take(i - start);
        value = value * 10 + (c - 0x30) as u64;
        proof {
            let next = d.take(i + 1 - start);
            assert(next.drop_last() =~= prev);
            assert(next.last() == c);
            assert(all_digits(next));
            assert(decimal_value(next) == decimal_value(prev) * 10 + (c - 0x30) as nat);
            assert(value == decimal_value(next));
        }
        if value > 0xFFFF_FFFF {
            proof {
                if all_digits(d) {
                    lemma_decimal_value_prefix(d, i + 1 - start);
                }
            }
            return None;
        }
        i = i + 1;
    }
    assert(d.take(len - start) =~= d);
    Some(value as u32)
}

/// Appends the decimal text of `n` to `out`.
pub fn push_decimal(out: &mut String, n: u32)
    ensures
        final(out)@ == old(out)@ + decimal_text(n as nat),
    decreases n,
{
    if n >= 10 {
        push_decimal(out, n / 10);
    }
    let digit: u8 = (n % 10) as u8 + 0x30;
    push_char(out, digit as char);
    assert(final(out)@ =~= old(out)@ + decimal_text(n as nat));
}

/// The UTF-8 encoding of a concatenation is the concatenation of the
/// encodings.
pub proof fn lemma_encode_utf8_concat(a: Seq<char>, b: Seq<char>)
    ensures
        encode_utf8(a + b) == encode_utf8(a) + encode_utf8(b),
    decreases a.len(),
{
    if a.len() == 0 {
        assert(a + b =~= b);
    } else {
        assert((a + b).drop_first() =~= a.drop_first() + b);
        lemma_encode_utf8_concat(a.drop_first(), b);
        assert(encode_utf8(a + b) =~= encode_utf8(a) + encode_utf8(b));
    }
}

/// Decimal text is ASCII digits, at least one, and its value is the number.
pub proof fn lemma_decimal_text(n: nat)
    ensures
        encode_utf8(decimal_text(n)).len() > 0,
        all_digits(encode_utf8(decimal_text(n))),
        decimal_value(encode_utf8(decimal_text(n))) == n,
    decreases n,
{
    if n < 10 {
        assert(encode_utf8(decimal_text(n)) =~= seq![(n + 0x30) as u8]) by {
            assert(is_ascii_chars(decimal_text(n)));
            is_ascii_chars_encode_utf8(decimal_text(n));
        }
        let one = seq![(n + 0x30) as u8];
        assert(one.drop_last() =~= Seq::<u8>::empty());
        assert(decimal_value(one.drop_last()) == 0);
        assert(decimal_value(one) == n);
    } else {
        let prefix = decimal_text(n / 10);
        let c = ((n % 10) + 0x30) as char;
        lemma_decimal_text(n / 10);
        lemma_encode_utf8_concat(prefix, seq![c]);
        assert(prefix.push(c) =~= prefix + seq![c]);
        assert(encode_utf8(seq![c]) =~= seq![((n % 10) + 0x30) as u8]) by {
            assert(is_ascii_chars(seq![c]));
            is_ascii_chars_encode_utf8(seq![c]);
        }
        let bytes = encode_utf8(decimal_text(n));
        assert(bytes =~= encode_utf8(prefix).push(((n % 10) + 0x30) as u8));
        assert(bytes.drop_last() =~= encode_utf8(prefix));
        assert(bytes.last() == ((n % 10) + 0x30) as u8);
        assert(decimal_value(bytes) == decimal_value(encode_utf8(prefix)) * 10 + (n % 10));
        assert((n / 10) * 10 + n % 10 == n);
    }
}

/// Lexicographic order of byte sequences, the order of `str` and
/// `String`: `a` comes before or equals `b`.
pub open spec fn bytes_le(a: Seq<u8>, b: Seq<u8>) -> bool
    decreases a.len(),
{
    if a.len() == 0 {
        true
    } else if b.len() == 0 {
        false
    } else if a[0] != b[0] {
        a[0] < b[0]
    } else {
        bytes_le(a.drop_first(), b.drop_first())
    }
}

/// Any two byte sequences are ordered one way or the other.
pub proof fn lemma_bytes_le_total(a: Seq<u8>, b: Seq<u8>)
    ensures
        bytes_le(a, b) || bytes_le(b, a),
    decreases a.len(),
{
    if a.len() > 0 && b.len() > 0 && a[0] == b[0] {
        lemma_bytes_le_total(a.drop_first(), b.drop_first());
    }
}

/// The order of byte sequences is transitive.
pub proof fn lemma_bytes_le_transitive(a: Seq<u8>, b: Seq<u8>, c: Seq<u8>)
    requires
        bytes_le(a, b),
        bytes_le(b, c),
    ensures
        bytes_le(a, c),
    decreases a.len(),
{
    if a.len() > 0 && b.len() > 0 && c.len() > 0 && a[0] == b[0] && b[0] == c[0] {
        lemma_bytes_le_transitive(a.drop_first(), b.drop_first(), c.drop_first());
    }
}

/// Where two byte sequences first differ, at index `i`, their order is that
/// of the two bytes there as unsigned numbers.
pub proof fn lemma_bytes_le_first_difference(a: Seq<u8>, b: Seq<u8>, i: int)
    requires
        0 <= i < a.len(),
        i < b.len(),
        a.take(i) == b.take(i),
        a[i] != b[i],
    ensures
        bytes_le(a, b) == (a[i] < b[i]),
    decreases i,
{
    if i > 0 {
        assert(a[0] == b[0]) by {
            assert(a.take(i)[0] == a[0]);
            assert(b.take(i)[0] == b[0]);
        }
        assert(a.drop_first().take(i - 1) =~= b.drop_first().take(i - 1)) by {
            assert forall|k: int| 0 <= k < i - 1 implies a.drop_first()[k] == b.drop_first()[k] by {
                assert(a.take(i)[k + 1] == a[k + 1]);
                assert(b.take(i)[k + 1] == b[k + 1]);
            }
        }
        lemma_bytes_le_first_difference(a.drop_first(), b.drop_first(), i - 1);
    }
}

/// A byte sequence comes before every sequence that begins with it, and a
/// longer sequence never comes before one of its own beginnings.
pub proof fn lemma_bytes_le_prefix(a: Seq<u8>, b: Seq<u8>)
    requires
        a.len() <= b.len(),
        b.take(a.len() as int) == a,
    ensures
        bytes_le(a, b),
        a.len() < b.len() ==> !bytes_le(b, a),
    decreases a.len(),
{
    if a.len() > 0 {
        assert(a[0] == b[0]) by {
            assert(b.take(a.len() as int)[0] == b[0]);
        }
        assert(b.drop_first().take(a.len() - 1) =~= a.drop_first()) by {
            assert forall|k: int| 0 <= k < a.len() - 1 implies b.drop_first()[k] == a.drop_first()[k] by {
                assert(b.take(a.len() as int)[k + 1] == b[k + 1]);
            }
        }
        lemma_bytes_le_prefix(a.drop_first(), b.drop_first());
    }
}

/// Whether `a` comes before or equals `b` in lexicographic byte order.
pub fn bytes_in_order(a: &[u8], b: &[u8]) -> (r: bool)
    ensures
        r == bytes_le(a@, b@),
{
    let mut i: usize = 0;
    assert(a@.skip(0) =~= a@);
    assert(b@.skip(0) =~= b@);
    while i < a.len()
        invariant
            0 <= i <= a@.len(),
            i <= b@.len(),
            bytes_le(a@, b@) == bytes_le(a@.skip(i as int), b@.skip(i as int)),
        decreases a@.len() - i,
    {
        if i == b.len() {
            return false;
        }
        if a[i] != b[i] {
            return a[i] < b[i];
        }
        assert(a@.skip(i as int).drop_first() =~= a@.skip(i + 1));
        assert(b@.skip(i as int).drop_first() =~= b@.skip(i + 1));
        i = i + 1;
    }
    true
}

/// Whether two byte slices are equal.
pub fn bytes_equal(a: &[u8], b: &[u8]) -> (r: bool)
    ensures
        r == (a@ == b@),
{
    if a.len() != b.len() {
        return false;
    }
    let mut i: usize = 0;
    while i < a.len()
        invariant
            0 <= i <= a@.len(),
            a@.len() == b@.len(),
            forall|k: int| 0 <= k < i ==> a@[k] == b@[k],
        decreases a@.len() - i,
    {
        if a[i] != b[i] {
            return false;
        }
        i = i + 1;
    }
    assert(a@ =~= b@);
    true
}

} // verus!
