//! Content ids: `b3:` and the BLAKE3 hash in hexadecimal.

use crate::hex_text::{
    encode_hex, hex_chars, is_hex_char, is_hex_digit, law_hex_is_injective, law_hex_round_trip,
};
use crate::text::chars_of;
use vstd::prelude::*;
use vstd::string::*;

verus! {

/// What `blake3::hash` makes of some bytes.
pub uninterp spec fn blake3_hash(bytes: Seq<u8>) -> [u8; 32];

/// `blake3::hash`: the 32 bytes of the hash, which depends on the input
/// bytes alone.
#[verifier::external_body]
pub(crate) fn blake3_digest(bytes: &[u8]) -> (out: [u8; 32])
    ensures
        out == blake3_hash(bytes@),
{
    *blake3::hash(bytes).as_bytes()
}

/// The content id of some bytes.
pub open spec fn content_id(bytes: Seq<u8>) -> Seq<char> {
    "b3:"@ + hex_chars(blake3_hash(bytes)@)
}

/// `b3:` and 64 hexadecimal digits.
pub open spec fn valid_content_id(s: Seq<char>) -> bool {
    &&& s.len() == 67
    &&& s.take(3) == "b3:"@
    &&& forall|i: int| 3 <= i < 67 ==> is_hex_digit(#[trigger] s[i])
}

/// The content id of any bytes is a content id.
pub proof fn law_content_id_is_valid(bytes: Seq<u8>)
    ensures
        valid_content_id(content_id(bytes)),
{
    reveal_strlit("b3:");
    let text = hex_chars(blake3_hash(bytes)@);
    law_hex_round_trip(blake3_hash(bytes)@);
    let id = content_id(bytes);
    assert(id.take(3) =~= "b3:"@);
    assert forall|i: int| 3 <= i < 67 implies is_hex_digit(#[trigger] id[i]) by {
        assert(id[i] == text[i - 3]);
    }
}

/// Content ids are as apart as the hashes: equal ids mean equal hashes.
pub proof fn law_content_id_carries_the_hash(a: Seq<u8>, b: Seq<u8>)
    ensures
        content_id(a) == content_id(b) <==> blake3_hash(a)@ == blake3_hash(b)@,
{
    if content_id(a) == content_id(b) {
        reveal_strlit("b3:");
        assert(content_id(a).skip(3) =~= hex_chars(blake3_hash(a)@));
        assert(content_id(b).skip(3) =~= hex_chars(blake3_hash(b)@));
        law_hex_is_injective(blake3_hash(a)@, blake3_hash(b)@);
    }
}

/// The content id of some bytes.
pub fn content_id_of(bytes: &[u8]) -> (id: String)
    ensures
        id@ == content_id(bytes@),
{
    let digest = blake3_digest(bytes);
    let text = encode_hex(digest.as_slice());
    "b3:".to_owned().concat(text.as_str())
}

/// Whether `s` is `b3:` and 64 hexadecimal digits.
pub fn is_content_id(s: &str) -> (found: bool)
    ensures
        found == valid_content_id(s@),
{
    proof {
        reveal_strlit("b3:");
    }
    let chars = chars_of(s);
    if chars.len() != 67 {
        return false;
    }
    if chars[0] != 'b' || chars[1] != '3' || chars[2] != ':' {
        assert(s@.take(3)[0] == s@[0] && s@.take(3)[1] == s@[1] && s@.take(3)[2] == s@[2]);
        return false;
    }
    assert(s@.take(3) =~= "b3:"@);
    let mut i: usize = 3;
    while i < 67
        invariant
            3 <= i <= 67,
            chars@ == s@,
            s@.len() == 67,
            forall|j: int| 3 <= j < i ==> is_hex_digit(#[trigger] s@[j]),
        decreases 67 - i,
    {
        if !is_hex_char(chars[i]) {
            assert(!is_hex_digit(s@[i as int]));
            return false;
        }
        i = i + 1;
    }
    true
}

/// A content id is `b3:` and the hash of the content in hexadecimal.
pub proof fn law_content_id_form(bytes: Seq<u8>, s: Seq<char>)
    ensures
        content_id(bytes) == "b3:"@ + hex_chars(blake3_hash(bytes)@),
        valid_content_id(s) <==> {
            &&& s.len() == 67
            &&& s[0] == 'b'
            &&& s[1] == '3'
            &&& s[2] == ':'
            &&& forall|i: int|
                3 <= i < 67 ==> ('0' <= #[trigger] s[i] <= '9' || 'a' <= s[i] <= 'f' || 'A' <= s[i]
                    <= 'F')
        },
{
    reveal_strlit("b3:");
    if s.len() == 67 {
        if s[0] == 'b' && s[1] == '3' && s[2] == ':' {
            assert(s.take(3) =~= "b3:"@);
        }
        if s.take(3) == "b3:"@ {
            assert(s.take(3)[0] == s[0]);
            assert(s.take(3)[1] == s[1]);
            assert(s.take(3)[2] == s[2]);
        }
    }
    if valid_content_id(s) {
        assert forall|i: int| 3 <= i < 67 implies ('0' <= #[trigger] s[i] <= '9' || 'a' <= s[i]
            <= 'f' || 'A' <= s[i] <= 'F') by {
            assert(is_hex_digit(s[i]));
        }
    }
}

} // verus!
