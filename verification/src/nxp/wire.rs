//! Bounds-checked big-endian and LEB128 varint reader and writer.
//!
//! Reading is modelled by functions from the bytes that are left to the
//! value read, or the error, and the bytes left then.

use crate::bytes::{
    be_bytes, be_number, be_value, lemma_be_round_trip, lemma_be_value, lemma_pow256, pow256,
    push_be,
};
use crate::hex_text::{hex_chars, hex_digit, hex_digit_of};
use crate::text::{dec_chars, decimal, utf8_str};
use vstd::prelude::*;
use vstd::string::*;
use vstd::utf8::*;

verus! {

/// Every way in which reading can fail.
#[derive(Debug, Clone, Copy, PartialEq, Eq)]
pub enum WireError {
    /// The bytes end too early.
    UnexpectedEof,
    /// The varint is too long, or longer than it needs to be.
    VarintOverflow,
    /// A declared length exceeds its bound.
    LengthOverflow { max: usize, got: usize },
    /// The bytes are not UTF-8.
    BadUtf8,
    /// The byte is no known tag.
    InvalidTag(u8),
    /// Bytes follow the record.
    TrailingData,
}

/// What a [`WireError`] says to a reader.
pub open spec fn error_text(e: WireError) -> Seq<char> {
    match e {
        WireError::UnexpectedEof => "unexpected end of input"@,
        WireError::VarintOverflow => "varint too long or non-minimal"@,
        WireError::LengthOverflow { max, got } => "length "@ + dec_chars(got as nat)
            + " exceeds max "@ + dec_chars(max as nat),
        WireError::BadUtf8 => "invalid utf-8"@,
        WireError::InvalidTag(b) => "invalid tag 0x"@ + seq![
            hex_digit(b as nat / 16),
            hex_digit(b as nat % 16),
        ],
        WireError::TrailingData => "trailing bytes after record"@,
    }
}

/// A value read, or the error, and the bytes left.
pub type Step<T> = (Result<T, WireError>, Seq<u8>);

/// Reads `n` bytes.
pub open spec fn read_exact(s: Seq<u8>, n: nat) -> Step<Seq<u8>> {
    if n <= s.len() {
        (Ok(s.take(n as int)), s.skip(n as int))
    } else {
        (Err(WireError::UnexpectedEof), s)
    }
}

/// Reads a number of `n` bytes, most significant first.
pub open spec fn read_be(s: Seq<u8>, n: nat) -> Step<nat> {
    match read_exact(s, n) {
        (Ok(b), rest) => (Ok(be_value(b)), rest),
        (Err(e), rest) => (Err(e), rest),
    }
}

/// The varint of `v`: seven bits to a byte, least significant first, the top
/// bit set on all bytes but the last.
pub open spec fn varint_bytes(v: nat) -> Seq<u8>
    decreases v,
{
    if v < 128 {
        seq![v as u8]
    } else {
        seq![(128 + v % 128) as u8] + varint_bytes(v / 128)
    }
}

/// Reads what is left of a varint behind its first `i` bytes. It has at most
/// ten bytes, spells a number of 64 bits, and its last byte is not zero
/// unless it is the only one.
pub open spec fn read_varint_from(s: Seq<u8>, i: nat) -> Step<nat>
    decreases s.len(),
{
    if i >= 10 {
        (Err(WireError::VarintOverflow), s)
    } else if s.len() == 0 {
        (Err(WireError::UnexpectedEof), s)
    } else if i == 9 && s[0] % 128 > 1 {
        (Err(WireError::VarintOverflow), s.skip(1))
    } else if s[0] < 128 {
        if s[0] == 0 && i > 0 {
            (Err(WireError::VarintOverflow), s.skip(1))
        } else {
            (Ok(s[0] as nat), s.skip(1))
        }
    } else {
        match read_varint_from(s.skip(1), i + 1) {
            (Ok(v), rest) => (Ok((s[0] - 128 + 128 * v) as nat), rest),
            (Err(e), rest) => (Err(e), rest),
        }
    }
}

/// Reads a varint.
pub open spec fn read_varint(s: Seq<u8>) -> Step<nat> {
    read_varint_from(s, 0)
}

/// A byte string with its length before it.
pub open spec fn lenstr_bytes(b: Seq<u8>) -> Seq<u8> {
    varint_bytes(b.len()) + b
}

/// Reads a byte string of at most `max` bytes, with its length before it.
pub open spec fn read_lenstr(s: Seq<u8>, max: usize) -> Step<Seq<u8>> {
    match read_varint(s) {
        (Err(e), rest) => (Err(e), rest),
        (Ok(n), rest) => if n > usize::MAX {
            (Err(WireError::LengthOverflow { max, got: usize::MAX }), rest)
        } else if n > max {
            (Err(WireError::LengthOverflow { max, got: n as usize }), rest)
        } else {
            read_exact(rest, n)
        },
    }
}

/// Reads a UTF-8 text of at most `max` bytes, with its length before it.
pub open spec fn read_str(s: Seq<u8>, max: usize) -> Step<Seq<char>> {
    match read_lenstr(s, max) {
        (Err(e), rest) => (Err(e), rest),
        (Ok(b), rest) => if valid_utf8(b) {
            (Ok(decode_utf8(b)), rest)
        } else {
            (Err(WireError::BadUtf8), rest)
        },
    }
}

/// The bound of what a varint can spell behind its first `i` bytes.
pub open spec fn varint_bound(i: nat) -> nat
    decreases 9 - i,
{
    if i >= 9 {
        2
    } else {
        128 * varint_bound(i + 1)
    }
}

pub proof fn lemma_varint_bound()
    ensures
        varint_bound(0) == 0x1_0000_0000_0000_0000,
{
    reveal_with_fuel(varint_bound, 10);
}

proof fn lemma_varint_bound_max(i: nat)
    ensures
        varint_bound(i) <= 0x1_0000_0000_0000_0000,
{
    reveal_with_fuel(varint_bound, 11);
}

proof fn lemma_varint_bound_min(i: nat)
    ensures
        varint_bound(i) >= 2,
    decreases 9 - i,
{
    if i < 9 {
        lemma_varint_bound_min(i + 1);
    }
}

/// A varint that is read stays below the bound.
pub proof fn lemma_read_varint_from(s: Seq<u8>, i: nat)
    ensures
        read_varint_from(s, i).0 matches Ok(v) ==> v < varint_bound(i) && (i > 0 ==> v > 0)
            && i < 10,
        read_varint_from(s, i).1.len() <= s.len(),
    decreases s.len(),
{
    lemma_varint_bound_min(i + 1);
    if i < 10 && s.len() > 0 && s[0] >= 128 {
        lemma_read_varint_from(s.skip(1), i + 1);
    }
}

proof fn lemma_varint_read_back(v: nat, i: nat, rest: Seq<u8>)
    requires
        i < 10,
        v < varint_bound(i),
        i > 0 ==> v > 0,
    ensures
        read_varint_from(varint_bytes(v) + rest, i) == (Ok::<nat, WireError>(v), rest),
    decreases v,
{
    let s = varint_bytes(v) + rest;
    if v < 128 {
        assert(s.skip(1) =~= rest);
    } else {
        assert(i < 9);
        lemma_varint_read_back(v / 128, i + 1, rest);
        assert(s.skip(1) =~= varint_bytes(v / 128) + rest);
    }
}

/// A varint that is written is read back, and nothing behind it is touched.
pub proof fn law_varint_round_trip(v: u64, rest: Seq<u8>)
    ensures
        read_varint(varint_bytes(v as nat) + rest) == (Ok::<nat, WireError>(v as nat), rest),
{
    lemma_varint_bound();
    lemma_varint_read_back(v as nat, 0, rest);
}

proof fn lemma_varint_canonical(s: Seq<u8>, i: nat)
    ensures
        read_varint_from(s, i) matches (Ok(v), rest) ==> s == varint_bytes(v) + rest,
    decreases s.len(),
{
    if i < 10 && s.len() > 0 {
        if s[0] < 128 {
            assert(s =~= seq![s[0]] + s.skip(1));
        } else {
            lemma_varint_canonical(s.skip(1), i + 1);
            lemma_read_varint_from(s.skip(1), i + 1);
            if let (Ok(v), rest) = read_varint_from(s, i) {
                assert(s =~= seq![s[0]] + s.skip(1));
                assert(s =~= varint_bytes(v) + rest);
            }
        }
    }
}

/// Only the bytes that the writer makes of a number are read as that number.
pub proof fn law_varint_is_canonical(s: Seq<u8>)
    ensures
        read_varint(s) matches (Ok(v), rest) ==> v <= u64::MAX && s == varint_bytes(v) + rest,
{
    lemma_varint_bound();
    lemma_varint_canonical(s, 0);
    lemma_read_varint_from(s, 0);
}

/// A number and what follows it can be told from their bytes.
pub proof fn law_varint_is_injective(a: nat, b: nat, after_a: Seq<u8>, after_b: Seq<u8>)
    requires
        varint_bytes(a) + after_a == varint_bytes(b) + after_b,
    ensures
        a == b,
        after_a == after_b,
    decreases a,
{
    let s = varint_bytes(a) + after_a;
    let t = varint_bytes(b) + after_b;
    assert(s[0] == if a < 128 {
        a as u8
    } else {
        (128 + a % 128) as u8
    });
    assert(t[0] == if b < 128 {
        b as u8
    } else {
        (128 + b % 128) as u8
    });
    if a < 128 {
        assert(s.skip(1) =~= after_a);
        assert(t.skip(1) =~= after_b);
    } else {
        assert(s.skip(1) =~= varint_bytes(a / 128) + after_a);
        assert(t.skip(1) =~= varint_bytes(b / 128) + after_b);
        law_varint_is_injective(a / 128, b / 128, after_a, after_b);
    }
}

proof fn lemma_varint_truncated(v: nat, i: nat, k: int)
    requires
        i < 10,
        v < varint_bound(i),
        0 <= k < varint_bytes(v).len(),
    ensures
        read_varint_from(varint_bytes(v).take(k), i).0 == Err::<nat, WireError>(
            WireError::UnexpectedEof,
        ),
    decreases v,
{
    if k > 0 {
        assert(i < 9);
        lemma_varint_truncated(v / 128, i + 1, k - 1);
        assert(varint_bytes(v).take(k).skip(1) =~= varint_bytes(v / 128).take(k - 1));
    }
}

/// A big-endian integer that is written is read back.
pub proof fn law_be_round_trip(v: nat, n: nat, rest: Seq<u8>)
    requires
        v < pow256(n),
    ensures
        read_be(be_bytes(v, n) + rest, n) == (Ok::<nat, WireError>(v), rest),
{
    lemma_be_round_trip(v, n);
    let s = be_bytes(v, n) + rest;
    assert(s.take(n as int) =~= be_bytes(v, n));
    assert(s.skip(n as int) =~= rest);
}

/// A byte string that is written is read back under any bound that admits it.
pub proof fn law_lenstr_round_trip(b: Seq<u8>, max: usize, rest: Seq<u8>)
    requires
        b.len() <= max,
    ensures
        read_lenstr(lenstr_bytes(b) + rest, max) == (Ok::<Seq<u8>, WireError>(b), rest),
{
    assert(lenstr_bytes(b) + rest =~= varint_bytes(b.len()) + (b + rest));
    law_varint_round_trip(b.len() as u64, b + rest);
    assert((b + rest).take(b.len() as int) =~= b);
    assert((b + rest).skip(b.len() as int) =~= rest);
}

/// A text that is written is read back under any bound that admits it.
pub proof fn law_str_round_trip(t: Seq<char>, max: usize, rest: Seq<u8>)
    requires
        encode_utf8(t).len() <= max,
    ensures
        read_str(lenstr_bytes(encode_utf8(t)) + rest, max) == (Ok::<Seq<char>, WireError>(t), rest),
{
    law_lenstr_round_trip(encode_utf8(t), max, rest);
    encode_utf8_decode_utf8(t);
    encode_utf8_valid_utf8(t);
}

/// A byte string and what follows it can be told from their bytes.
pub proof fn law_lenstr_is_injective(
    a: Seq<u8>,
    b: Seq<u8>,
    after_a: Seq<u8>,
    after_b: Seq<u8>,
)
    requires
        lenstr_bytes(a) + after_a == lenstr_bytes(b) + after_b,
    ensures
        a == b,
        after_a == after_b,
{
    assert(lenstr_bytes(a) + after_a =~= varint_bytes(a.len()) + (a + after_a));
    assert(lenstr_bytes(b) + after_b =~= varint_bytes(b.len()) + (b + after_b));
    law_varint_is_injective(a.len(), b.len(), a + after_a, b + after_b);
    assert((a + after_a).take(a.len() as int) =~= a);
    assert((b + after_b).take(b.len() as int) =~= b);
    assert((a + after_a).skip(a.len() as int) =~= after_a);
    assert((b + after_b).skip(b.len() as int) =~= after_b);
}

/// A truncated byte string ends too early, under any bound that admits the
/// whole one.
pub proof fn law_truncated_lenstr_is_refused(b: Seq<u8>, max: usize, k: int)
    requires
        b.len() <= max,
        0 <= k < lenstr_bytes(b).len(),
    ensures
        read_lenstr(lenstr_bytes(b).take(k), max).0 == Err::<Seq<u8>, WireError>(
            WireError::UnexpectedEof,
        ),
{
    let len = varint_bytes(b.len());
    if k < len.len() {
        lemma_varint_bound();
        lemma_varint_truncated(b.len(), 0, k);
        assert(lenstr_bytes(b).take(k) =~= len.take(k));
    } else {
        let part = b.take(k - len.len());
        assert(lenstr_bytes(b).take(k) =~= len + part);
        law_varint_round_trip(b.len() as u64, part);
    }
}

/// Only the bytes that the writer makes of a byte string are read as it.
pub proof fn law_lenstr_is_canonical(s: Seq<u8>, max: usize)
    ensures
        read_lenstr(s, max) matches (Ok(b), rest) ==> b.len() <= max && s == lenstr_bytes(b) + rest,
{
    law_varint_is_canonical(s);
    if let (Ok(b), rest) = read_lenstr(s, max) {
        let after = read_varint(s).1;
        assert(after =~= b + rest);
        assert(s =~= lenstr_bytes(b) + rest);
    }
}

impl WireError {
    /// What the error says to a reader.
    pub fn to_string(&self) -> (out: String)
        ensures
            out@ == error_text(*self),
    {
        match self {
            WireError::UnexpectedEof => "unexpected end of input".to_owned(),
            WireError::VarintOverflow => "varint too long or non-minimal".to_owned(),
            WireError::LengthOverflow { max, got } => "length ".to_owned().concat(
                decimal(*got as u64).as_str(),
            ).concat(" exceeds max ").concat(decimal(*max as u64).as_str()),
            WireError::BadUtf8 => "invalid utf-8".to_owned(),
            WireError::InvalidTag(b) => {
                let mut out = "invalid tag 0x".to_owned();
                out.push(hex_digit_of(*b / 16));
                out.push(hex_digit_of(*b % 16));
                assert(out@ =~= error_text(*self));
                out
            },
            WireError::TrailingData => "trailing bytes after record".to_owned(),
        }
    }
}

/// Borrowing, bounds-checked reader over a byte slice.
pub struct Reader<'a> {
    buf: &'a [u8],
    pos: usize,
}

impl<'a> View for Reader<'a> {
    type V = Seq<u8>;

    /// The bytes that are left.
    closed spec fn view(&self) -> Seq<u8> {
        self.buf@.skip(self.pos as int)
    }
}

impl<'a> Reader<'a> {
    #[verifier::type_invariant]
    spec fn within(&self) -> bool {
        self.pos <= self.buf@.len()
    }

    /// A reader of all of `buf`.
    pub fn new(buf: &'a [u8]) -> (r: Self)
        ensures
            r@ == buf@,
    {
        assert(buf@.skip(0) =~= buf@);
        Self { buf, pos: 0 }
    }

    /// Number of bytes that are left.
    pub fn remaining(&self) -> (n: usize)
        ensures
            n == self@.len(),
    {
        proof {
            use_type_invariant(&*self);
        }
        self.buf.len() - self.pos
    }

    /// Reads `n` bytes.
    fn take(&mut self, n: usize) -> (out: Result<&'a [u8], WireError>)
        ensures
            read_exact(old(self)@, n as nat).1 == final(self)@,
            match out {
                Ok(b) => read_exact(old(self)@, n as nat).0 == Ok::<Seq<u8>, WireError>(b@),
                Err(e) => read_exact(old(self)@, n as nat).0 == Err::<Seq<u8>, WireError>(e),
            },
    {
        proof {
            use_type_invariant(&*self);
        }
        if n > self.buf.len() - self.pos {
            return Err(WireError::UnexpectedEof);
        }
        let (_, rest) = self.buf.split_at(self.pos);
        let (out, _) = rest.split_at(n);
        assert(out@ =~= self@.take(n as int));
        assert(self.buf@.skip(self.pos + n) =~= self@.skip(n as int));
        self.pos = self.pos + n;
        Ok(out)
    }

    /// Reads one byte.
    pub fn u8(&mut self) -> (out: Result<u8, WireError>)
        ensures
            read_be(old(self)@, 1).1 == final(self)@,
            match out {
                Ok(v) => read_be(old(self)@, 1).0 == Ok::<nat, WireError>(v as nat),
                Err(e) => read_be(old(self)@, 1).0 == Err::<nat, WireError>(e),
            },
    {
        let b = match self.take(1) {
            Ok(b) => b,
            Err(e) => return Err(e),
        };
        proof {
            lemma_pow256();
            lemma_be_value(b@);
        }
        Ok(be_number(b) as u8)
    }

    /// Reads two bytes, most significant first.
    pub fn be_u16(&mut self) -> (out: Result<u16, WireError>)
        ensures
            read_be(old(self)@, 2).1 == final(self)@,
            match out {
                Ok(v) => read_be(old(self)@, 2).0 == Ok::<nat, WireError>(v as nat),
                Err(e) => read_be(old(self)@, 2).0 == Err::<nat, WireError>(e),
            },
    {
        let b = match self.take(2) {
            Ok(b) => b,
            Err(e) => return Err(e),
        };
        proof {
            lemma_pow256();
            lemma_be_value(b@);
        }
        Ok(be_number(b) as u16)
    }

    /// Reads four bytes, most significant first.
    pub fn be_u32(&mut self) -> (out: Result<u32, WireError>)
        ensures
            read_be(old(self)@, 4).1 == final(self)@,
            match out {
                Ok(v) => read_be(old(self)@, 4).0 == Ok::<nat, WireError>(v as nat),
                Err(e) => read_be(old(self)@, 4).0 == Err::<nat, WireError>(e),
            },
    {
        let b = match self.take(4) {
            Ok(b) => b,
            Err(e) => return Err(e),
        };
        proof {
            lemma_pow256();
            lemma_be_value(b@);
        }
        Ok(be_number(b) as u32)
    }

    /// Reads eight bytes, most significant first.
    pub fn be_u64(&mut self) -> (out: Result<u64, WireError>)
        ensures
            read_be(old(self)@, 8).1 == final(self)@,
            match out {
                Ok(v) => read_be(old(self)@, 8).0 == Ok::<nat, WireError>(v as nat),
                Err(e) => read_be(old(self)@, 8).0 == Err::<nat, WireError>(e),
            },
    {
        let b = match self.take(8) {
            Ok(b) => b,
            Err(e) => return Err(e),
        };
        Ok(be_number(b))
    }

    /// Reads what is left of a varint behind its first `i` bytes.
    fn varint_from(&mut self, i: u32) -> (out: Result<u64, WireError>)
        requires
            i <= 10,
        ensures
            read_varint_from(old(self)@, i as nat).1 == final(self)@,
            match out {
                Ok(v) => read_varint_from(old(self)@, i as nat).0 == Ok::<nat, WireError>(v as nat),
                Err(e) => read_varint_from(old(self)@, i as nat).0 == Err::<nat, WireError>(e),
            },
        decreases 10 - i,
    {
        if i == 10 {
            return Err(WireError::VarintOverflow);
        }
        let b = match self.u8() {
            Ok(b) => b,
            Err(e) => return Err(e),
        };
        proof {
            reveal_with_fuel(be_value, 2);
            assert(old(self)@.take(1).drop_last() =~= Seq::empty());
        }
        if i == 9 && b % 128 > 1 {
            return Err(WireError::VarintOverflow);
        }
        if b < 128 {
            if b == 0 && i > 0 {
                return Err(WireError::VarintOverflow);
            }
            return Ok(b as u64);
        }
        proof {
            lemma_read_varint_from(self@, (i + 1) as nat);
            lemma_varint_bound_max(i as nat);
        }
        match self.varint_from(i + 1) {
            Ok(v) => Ok((b - 128) as u64 + 128 * v),
            Err(e) => Err(e),
        }
    }

    /// Reads a varint: at most ten bytes, no longer than it needs to be.
    pub fn varint(&mut self) -> (out: Result<u64, WireError>)
        ensures
            read_varint(old(self)@).1 == final(self)@,
            match out {
                Ok(v) => read_varint(old(self)@).0 == Ok::<nat, WireError>(v as nat),
                Err(e) => read_varint(old(self)@).0 == Err::<nat, WireError>(e),
            },
    {
        self.varint_from(0)
    }

    /// Reads a byte string with its length before it; the bound is checked
    /// before anything is taken.
    pub fn lenstr(&mut self, max: usize) -> (out: Result<&'a [u8], WireError>)
        ensures
            read_lenstr(old(self)@, max).1 == final(self)@,
            match out {
                Ok(b) => read_lenstr(old(self)@, max).0 == Ok::<Seq<u8>, WireError>(b@),
                Err(e) => read_lenstr(old(self)@, max).0 == Err::<Seq<u8>, WireError>(e),
            },
    {
        let n = match self.varint() {
            Ok(n) => n,
            Err(e) => return Err(e),
        };
        if n > usize::MAX as u64 {
            return Err(WireError::LengthOverflow { max, got: usize::MAX });
        }
        let len: usize = n as usize;
        if len > max {
            return Err(WireError::LengthOverflow { max, got: len });
        }
        self.take(len)
    }

    /// Reads a UTF-8 text with its length in bytes before it.
    pub fn str(&mut self, max: usize) -> (out: Result<&'a str, WireError>)
        ensures
            read_str(old(self)@, max).1 == final(self)@,
            match out {
                Ok(t) => read_str(old(self)@, max).0 == Ok::<Seq<char>, WireError>(t@),
                Err(e) => read_str(old(self)@, max).0 == Err::<Seq<char>, WireError>(e),
            },
    {
        let b = match self.lenstr(max) {
            Ok(b) => b,
            Err(e) => return Err(e),
        };
        match utf8_str(b) {
            Some(t) => {
                proof {
                    encode_utf8_decode_utf8(t@);
                }
                Ok(t)
            },
            None => Err(WireError::BadUtf8),
        }
    }
}

/// Growable big-endian and varint writer.
pub struct Writer {
    out: Vec<u8>,
}

impl View for Writer {
    type V = Seq<u8>;

    /// The bytes written so far.
    closed spec fn view(&self) -> Seq<u8> {
        self.out@
    }
}

impl Default for Writer {
    fn default() -> (w: Self)
        ensures
            w@ == Seq::<u8>::empty(),
    {
        Writer { out: Vec::new() }
    }
}

impl Writer {
    /// A writer with nothing written.
    pub fn new() -> (w: Self)
        ensures
            w@ == Seq::<u8>::empty(),
    {
        Writer { out: Vec::new() }
    }

    /// Writes one byte.
    pub fn u8(&mut self, b: u8)
        ensures
            final(self)@ == old(self)@.push(b),
    {
        self.out.push(b);
    }

    /// Writes two bytes, most significant first.
    pub fn be_u16(&mut self, v: u16)
        ensures
            final(self)@ == old(self)@ + be_bytes(v as nat, 2),
    {
        push_be(&mut self.out, v as u64, 2);
    }

    /// Writes four bytes, most significant first.
    pub fn be_u32(&mut self, v: u32)
        ensures
            final(self)@ == old(self)@ + be_bytes(v as nat, 4),
    {
        push_be(&mut self.out, v as u64, 4);
    }

    /// Writes eight bytes, most significant first.
    pub fn be_u64(&mut self, v: u64)
        ensures
            final(self)@ == old(self)@ + be_bytes(v as nat, 8),
    {
        push_be(&mut self.out, v, 8);
    }

    /// Writes a varint.
    pub fn varint(&mut self, v: u64)
        ensures
            final(self)@ == old(self)@ + varint_bytes(v as nat),
    {
        let mut left: u64 = v;
        let ghost before = self@;
        let ghost mut done: Seq<u8> = Seq::empty();
        assert(before + done =~= before);
        assert(done + varint_bytes(v as nat) =~= varint_bytes(v as nat));
        while left >= 128
            invariant
                self@ == before + done,
                done + varint_bytes(left as nat) == varint_bytes(v as nat),
            decreases left,
        {
            let byte: u8 = (128 + left % 128) as u8;
            self.out.push(byte);
            proof {
                assert(done.push(byte) + varint_bytes((left / 128) as nat) =~= done + varint_bytes(
                    left as nat,
                ));
                done = done.push(byte);
                assert(self@ =~= before + done);
            }
            left = left / 128;
        }
        self.out.push(left as u8);
        assert(self@ =~= before + varint_bytes(v as nat));
    }

    /// Writes a byte string with its length before it.
    pub fn lenstr(&mut self, s: &[u8])
        ensures
            final(self)@ == old(self)@ + lenstr_bytes(s@),
    {
        self.varint(s.len() as u64);
        self.out.extend_from_slice(s);
        assert(self@ =~= old(self)@ + lenstr_bytes(s@));
    }

    /// The bytes written.
    pub fn into_bytes(self) -> (out: Vec<u8>)
        ensures
            out@ == self@,
    {
        self.out
    }
}

/// A varint has seven bits to a byte, the least significant first, and the top
/// bit on all bytes but the last; a byte string has its length before it.
pub proof fn law_wire_layout(v: nat, b: Seq<u8>)
    ensures
        v < 128 ==> varint_bytes(v) == seq![v as u8],
        v >= 128 ==> varint_bytes(v) == seq![(128 + v % 128) as u8] + varint_bytes(v / 128),
        lenstr_bytes(b) == varint_bytes(b.len()) + b,
{
}

/// A byte string is refused where its declared length exceeds the bound, and
/// one that is read is no longer than that; a text is refused where its bytes
/// are not UTF-8.
pub proof fn law_bounds_are_kept(b: Seq<u8>, max: usize, rest: Seq<u8>)
    ensures
        max < b.len() <= usize::MAX ==> read_lenstr(lenstr_bytes(b) + rest, max).0 == Err::<
            Seq<u8>,
            WireError,
        >(WireError::LengthOverflow { max, got: b.len() as usize }),
        b.len() <= max && !valid_utf8(b) ==> read_str(lenstr_bytes(b) + rest, max).0 == Err::<
            Seq<char>,
            WireError,
        >(WireError::BadUtf8),
{
    if b.len() <= usize::MAX {
        assert(lenstr_bytes(b) + rest =~= varint_bytes(b.len()) + (b + rest));
        law_varint_round_trip(b.len() as u64, b + rest);
    }
    if b.len() <= max {
        law_lenstr_round_trip(b, max, rest);
    }
}

/// The text of an error says what is wrong; lengths are in decimal, and an
/// unknown tag is given by two hexadecimal digits.
pub proof fn law_error_texts(max: usize, got: usize, tag: u8)
    ensures
        error_text(WireError::UnexpectedEof) == "unexpected end of input"@,
        error_text(WireError::VarintOverflow) == "varint too long or non-minimal"@,
        error_text(WireError::LengthOverflow { max, got }) == "length "@ + dec_chars(got as nat)
            + " exceeds max "@ + dec_chars(max as nat),
        error_text(WireError::BadUtf8) == "invalid utf-8"@,
        error_text(WireError::InvalidTag(tag)) == "invalid tag 0x"@ + hex_chars(seq![tag]),
        error_text(WireError::TrailingData) == "trailing bytes after record"@,
{
    assert(hex_chars(seq![tag]) =~= seq![
        hex_digit(tag as nat / 16),
        hex_digit(tag as nat % 16),
    ]);
}

/// Only the text that is meant is read: the bytes before what is left are
/// those of the text, within the bound.
pub proof fn law_str_is_canonical(s: Seq<u8>, max: usize)
    ensures
        read_str(s, max) matches (Ok(t), rest) ==> encode_utf8(t).len() <= max && s == lenstr_bytes(
            encode_utf8(t),
        ) + rest,
{
    law_lenstr_is_canonical(s, max);
    if let (Ok(b), _) = read_lenstr(s, max) {
        if valid_utf8(b) {
            decode_utf8_encode_utf8(b);
        }
    }
}

/// A number of `n` bytes is read from the bytes that it is written in.
pub proof fn law_be_is_canonical(s: Seq<u8>, n: nat)
    ensures
        read_be(s, n) matches (Ok(v), rest) ==> v < pow256(n) && s == be_bytes(v, n) + rest,
        read_be(s, n).0 is Ok <==> n <= s.len(),
{
    if n <= s.len() {
        lemma_be_value(s.take(n as int));
        assert(s =~= s.take(n as int) + s.skip(n as int));
    }
}

/// What stands after `a` and then `b` stands after both.
pub(crate) proof fn lemma_after_both(s: Seq<u8>, a: Seq<u8>, after: Seq<u8>, b: Seq<u8>, rest: Seq<u8>)
    requires
        s == a + after,
        after == b + rest,
    ensures
        s == (a + b) + rest,
{
    assert(s =~= (a + b) + rest);
}

} // verus!
