use vstd::prelude::*;
use vstd::string::StringExecFns;

use crate::decimal::digit_char;

verus! {

/// The lowercase hexadecimal digit of a value below sixteen.
pub open spec fn hex_char(d: nat) -> char {
    if d < 10 {
        digit_char(d)
    } else {
        ((d - 10 + 'a' as int) as u32) as char
    }
}

/// Two lowercase hexadecimal digits per byte, high nibble first, with no prefix.
pub open spec fn lower_hex(b: Seq<u8>) -> Seq<char> {
    Seq::new(
        2 * b.len(),
        |i: int|
            if i % 2 == 0 {
                hex_char((b[i / 2] / 16) as nat)
            } else {
                hex_char((b[i / 2] % 16) as nat)
            },
    )
}

/// `0x` followed by the lowercase hexadecimal digits of `b`: how a 32-byte hash is
/// written with `{:?}`.
pub open spec fn prefixed_hex(b: Seq<u8>) -> Seq<char> {
    seq!['0', 'x'] + lower_hex(b)
}

/// A hexadecimal digit of either case.
pub open spec fn is_hex_digit(c: char) -> bool {
    ('0' <= c && c <= '9') || ('a' <= c && c <= 'f') || ('A' <= c && c <= 'F')
}

/// The value of a hexadecimal digit.
pub open spec fn hex_value(c: char) -> nat {
    if '0' <= c && c <= '9' {
        (c as int - '0' as int) as nat
    } else if 'a' <= c && c <= 'f' {
        (c as int - 'a' as int + 10) as nat
    } else {
        (c as int - 'A' as int + 10) as nat
    }
}

/// Every character of `s` is a hexadecimal digit.
pub open spec fn all_hex_digits(s: Seq<char>) -> bool {
    forall|i: int| 0 <= i < s.len() ==> is_hex_digit(#[trigger] s[i])
}

/// The bytes that the digit pairs of `d` write.
pub open spec fn hex_pairs(d: Seq<char>) -> Seq<u8> {
    Seq::new(d.len() / 2, |i: int| (16 * hex_value(d[2 * i]) + hex_value(d[2 * i + 1])) as u8)
}

/// What is left of `s` once a leading `0x` or `0X` is taken off.
pub open spec fn without_hex_prefix(s: Seq<char>) -> Seq<char> {
    if s.len() >= 2 && s[0] == '0' && (s[1] == 'x' || s[1] == 'X') {
        s.subrange(2, s.len() as int)
    } else {
        s
    }
}

/// Decoding of a hexadecimal text with an optional `0x`/`0X` prefix: the whole
/// text has even length and the rest are hexadecimal digits.
pub open spec fn decode_prefixed_hex(s: Seq<char>) -> Option<Seq<u8>> {
    let d = without_hex_prefix(s);
    if s.len() % 2 == 0 && all_hex_digits(d) {
        Some(hex_pairs(d))
    } else {
        None
    }
}

/// Decoding of a hexadecimal text with no prefix: even length, all digits.
pub open spec fn decode_plain_hex(s: Seq<char>) -> Option<Seq<u8>> {
    if s.len() % 2 == 0 && all_hex_digits(s) {
        Some(hex_pairs(s))
    } else {
        None
    }
}

/// The Keccak-256 digest of `data`.
pub uninterp spec fn spec_keccak256(data: Seq<u8>) -> Seq<u8>;

/// Calls `hex::encode`, which writes each byte as two lowercase hexadecimal digits,
/// high nibble first (hex 0.4 source: `BytesToHexChars` over `HEX_CHARS_LOWER`).
/// Trusted: the contract states exactly that output.
#[verifier::external_body]
pub(crate) fn hex_encode(data: &[u8]) -> (r: String)
    ensures
        r@ == lower_hex(data@),
{
    hex::encode(data)
}

/// Calls `hex::decode` (hex 0.4), which accepts no prefix, refuses an odd length and
/// any character that is not a hexadecimal digit, and otherwise gives one byte per
/// digit pair. Trusted: the contract states exactly that.
#[verifier::external_body]
pub(crate) fn hex_decode(s: &str) -> (r: Option<Vec<u8>>)
    ensures
        decode_plain_hex(s@) == (match r {
            Some(v) => Some(v@),
            None => None,
        }),
{
    match hex::decode(s) {
        Ok(v) => Some(v),
        Err(_) => None,
    }
}

/// Calls `<alloy_primitives::Bytes as FromStr>::from_str`, which is `const_hex::decode`:
/// an odd length of the whole text is refused, then one leading `0x` or `0X` is
/// taken off, and the rest must be hexadecimal digits, one byte per pair.
/// Trusted: the contract states exactly that.
#[verifier::external_body]
pub(crate) fn parse_hex_bytes(s: &str) -> (r: Option<Vec<u8>>)
    ensures
        decode_prefixed_hex(s@) == (match r {
            Some(v) => Some(v@),
            None => None,
        }),
{
    match s.parse::<alloy_primitives::Bytes>() {
        Ok(b) => Some(b.to_vec()),
        Err(_) => None,
    }
}

/// Calls `alloy_primitives::keccak256`. Trusted: the digest is named, not computed
/// here; the contract says only that it is the digest of exactly these bytes.
#[verifier::external_body]
pub(crate) fn keccak256(data: &[u8]) -> (r: [u8; 32])
    ensures
        r@ == spec_keccak256(data@),
{
    alloy_primitives::keccak256(data).0
}

/// Writes `bytes` as `0x` followed by lowercase hexadecimal digits, the form that
/// `{:?}` gives a 32-byte hash.
pub fn format_prefixed_hex(bytes: &[u8]) -> (r: String)
    ensures
        r@ == prefixed_hex(bytes@),
{
    let mut r = String::new();
    r.push('0');
    r.push('x');
    let h = hex_encode(bytes);
    r.append(h.as_str());
    r
}

proof fn lemma_hex_char(d: nat)
    requires
        d < 16,
    ensures
        is_hex_digit(hex_char(d)),
        hex_value(hex_char(d)) == d,
{
}

/// Reading back the lowercase hexadecimal writing of some bytes gives those bytes.
pub proof fn lemma_decode_lower_hex(b: Seq<u8>)
    ensures
        decode_plain_hex(lower_hex(b)) == Some(b),
{
    let h = lower_hex(b);
    assert forall|i: int| 0 <= i < h.len() implies is_hex_digit(#[trigger] h[i]) by {
        lemma_hex_char((b[i / 2] / 16) as nat);
        lemma_hex_char((b[i / 2] % 16) as nat);
    }
    assert forall|i: int| 0 <= i < b.len() implies #[trigger] hex_pairs(h)[i] == b[i] by {
        lemma_hex_char((b[i] / 16) as nat);
        lemma_hex_char((b[i] % 16) as nat);
        assert(h[2 * i] == hex_char((b[i] / 16) as nat));
        assert(h[2 * i + 1] == hex_char((b[i] % 16) as nat));
    }
    assert(hex_pairs(h) =~= b);
}

/// What `format_prefixed_hex` writes decodes, through the `0x`-aware decoder, back to
/// the same bytes.
pub proof fn lemma_decode_prefixed_hex(b: Seq<u8>)
    ensures
        decode_prefixed_hex(prefixed_hex(b)) == Some(b),
{
    lemma_decode_lower_hex(b);
    let s = prefixed_hex(b);
    assert(without_hex_prefix(s) =~= lower_hex(b));
}

} // verus!
