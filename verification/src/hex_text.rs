//! Bytes as hexadecimal text.

use vstd::prelude::*;
use vstd::string::*;

verus! {

/// A hexadecimal digit, lowercase.
pub open spec fn hex_digit(d: nat) -> char {
    if d < 10 {
        ('0' as u32 + d) as char
    } else {
        ('a' as u32 + d - 10) as char
    }
}

/// A hexadecimal digit of either case.
pub open spec fn is_hex_digit(c: char) -> bool {
    '0' <= c <= '9' || 'a' <= c <= 'f' || 'A' <= c <= 'F'
}

/// The value of a hexadecimal digit.
pub open spec fn hex_value(c: char) -> nat {
    if '0' <= c <= '9' {
        (c as u32 - '0' as u32) as nat
    } else if 'a' <= c <= 'f' {
        (c as u32 - 'a' as u32 + 10) as nat
    } else {
        (c as u32 - 'A' as u32 + 10) as nat
    }
}

/// Two lowercase digits for each byte.
pub open spec fn hex_chars(b: Seq<u8>) -> Seq<char> {
    Seq::new(
        2 * b.len(),
        |i: int|
            if i % 2 == 0 {
                hex_digit(b[i / 2] as nat / 16)
            } else {
                hex_digit(b[i / 2] as nat % 16)
            },
    )
}

/// An even number of hexadecimal digits.
pub open spec fn is_hex_text(s: Seq<char>) -> bool {
    &&& s.len() % 2 == 0
    &&& forall|i: int| 0 <= i < s.len() ==> is_hex_digit(#[trigger] s[i])
}

/// One byte for each two digits.
pub open spec fn hex_bytes(s: Seq<char>) -> Seq<u8> {
    Seq::new(s.len() / 2, |i: int| (16 * hex_value(s[2 * i]) + hex_value(s[2 * i + 1])) as u8)
}

/// What `hex::decode` says of a text that is not hexadecimal.
pub uninterp spec fn hex_fault(s: Seq<char>) -> Seq<char>;

/// `hex::encode`: two lowercase digits for each byte.
#[verifier::external_body]
pub(crate) fn encode_hex(bytes: &[u8]) -> (out: String)
    ensures
        out@ == hex_chars(bytes@),
{
    hex::encode(bytes)
}

/// `hex::decode`: the bytes of an even number of digits of either case; for
/// any other text an error, here as the text it displays.
#[verifier::external_body]
pub(crate) fn decode_hex(s: &str) -> (out: Result<Vec<u8>, String>)
    ensures
        out is Ok <==> is_hex_text(s@),
        out matches Ok(b) ==> b@ == hex_bytes(s@),
        out matches Err(e) ==> e@ == hex_fault(s@),
{
    hex::decode(s).map_err(|e| e.to_string())
}

proof fn lemma_hex_digit(d: nat)
    requires
        d < 16,
    ensures
        is_hex_digit(hex_digit(d)),
        hex_value(hex_digit(d)) == d,
{
}

/// The hexadecimal text of bytes is read back as these bytes.
pub proof fn law_hex_round_trip(b: Seq<u8>)
    ensures
        is_hex_text(hex_chars(b)),
        hex_bytes(hex_chars(b)) == b,
        hex_chars(b).len() == 2 * b.len(),
{
    let s = hex_chars(b);
    assert forall|i: int| 0 <= i < s.len() implies is_hex_digit(#[trigger] s[i]) by {
        lemma_hex_digit(b[i / 2] as nat / 16);
        lemma_hex_digit(b[i / 2] as nat % 16);
    }
    assert forall|i: int| 0 <= i < b.len() implies hex_bytes(s)[i] == b[i] by {
        lemma_hex_digit(b[i] as nat / 16);
        lemma_hex_digit(b[i] as nat % 16);
        assert((2 * i) / 2 == i);
        assert((2 * i + 1) / 2 == i);
        assert(s[2 * i] == hex_digit(b[i] as nat / 16));
        assert(s[2 * i + 1] == hex_digit(b[i] as nat % 16));
    }
    assert(hex_bytes(s) =~= b);
}

/// Different bytes have different hexadecimal texts.
pub proof fn law_hex_is_injective(a: Seq<u8>, b: Seq<u8>)
    requires
        hex_chars(a) == hex_chars(b),
    ensures
        a == b,
{
    law_hex_round_trip(a);
    law_hex_round_trip(b);
}

/// Whether `c` is a hexadecimal digit of either case.
pub fn is_hex_char(c: char) -> (found: bool)
    ensures
        found == is_hex_digit(c),
{
    ('0' <= c && c <= '9') || ('a' <= c && c <= 'f') || ('A' <= c && c <= 'F')
}

/// A hexadecimal digit, lowercase.
pub fn hex_digit_of(d: u8) -> (c: char)
    requires
        d < 16,
    ensures
        c == hex_digit(d as nat),
{
    if d < 10 {
        (48 + d) as char
    } else {
        (87 + d) as char
    }
}

/// The value of a hexadecimal digit.
pub fn hex_value_of(c: char) -> (v: u8)
    requires
        is_hex_digit(c),
    ensures
        v == hex_value(c),
        v < 16,
{
    if c <= '9' {
        (c as u32 - 48) as u8
    } else if c >= 'a' {
        (c as u32 - 87) as u8
    } else {
        (c as u32 - 55) as u8
    }
}

/// Each byte is two digits, the high half first, with lower-case letters;
/// letters of either case are read.
pub proof fn law_hex_digits(b: Seq<u8>, i: int, c: char)
    requires
        0 <= i < b.len(),
    ensures
        hex_chars(b)[2 * i] == "0123456789abcdef"@[b[i] as int / 16],
        hex_chars(b)[2 * i + 1] == "0123456789abcdef"@[b[i] as int % 16],
        is_hex_text(seq![c, c]) <==> '0' <= c <= '9' || 'a' <= c <= 'f' || 'A' <= c <= 'F',
        '0' <= c <= '9' ==> hex_bytes(seq![c, c]) == seq![(17 * (c as u32 - '0' as u32)) as u8],
        'a' <= c <= 'f' ==> hex_bytes(seq![c, c]) == seq![
            (17 * (c as u32 - 'a' as u32 + 10)) as u8,
        ],
        'A' <= c <= 'F' ==> hex_bytes(seq![c, c]) == seq![
            (17 * (c as u32 - 'A' as u32 + 10)) as u8,
        ],
{
    lemma_hex_letters(b[i] as nat / 16);
    lemma_hex_letters(b[i] as nat % 16);
    assert((2 * i) / 2 == i);
    assert((2 * i + 1) / 2 == i);
    let two = seq![c, c];
    if is_hex_text(two) {
        assert(is_hex_digit(two[0]));
    }
    assert(two[0] == c && two[1] == c);
    assert(hex_bytes(two) =~= seq![(16 * hex_value(c) + hex_value(c)) as u8]);
}

proof fn lemma_hex_letters(d: nat)
    requires
        d < 16,
    ensures
        hex_digit(d) == "0123456789abcdef"@[d as int],
{
    reveal_strlit("0123456789abcdef");
}

} // verus!
