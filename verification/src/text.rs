//! Text helpers: characters and fields of a line, byte lengths, decimal
//! numbers. A string is modelled by its sequence of characters.

use vstd::prelude::*;
use vstd::string::*;
use vstd::utf8::*;

verus! {

/// `String::push`: appends the character to the end of the string.
pub assume_specification[ String::push ](s: &mut String, c: char)
    ensures
        final(s)@ == old(s)@.push(c),
;

/// `std::str::from_utf8`: the string whose UTF-8 bytes these are, and nothing
/// when the bytes are not valid UTF-8.
#[verifier::external_body]
pub(crate) fn utf8_str(bytes: &[u8]) -> (out: Option<&str>)
    ensures
        out is Some <==> valid_utf8(bytes@),
        out matches Some(s) ==> s.spec_bytes() == bytes@,
{
    std::str::from_utf8(bytes).ok()
}

/// The text that `String::from_utf8_lossy` makes of some bytes.
pub uninterp spec fn lossy_text(bytes: Seq<u8>) -> Seq<char>;

/// `String::from_utf8_lossy`: a text that depends on the bytes alone; it is
/// the text that they encode, where they are valid UTF-8.
#[verifier::external_body]
pub(crate) fn lossy(bytes: &[u8]) -> (out: String)
    ensures
        out@ == lossy_text(bytes@),
        valid_utf8(bytes@) ==> out@ == decode_utf8(bytes@),
{
    String::from_utf8_lossy(bytes).into_owned()
}

/// Lowercase ASCII letter.
pub open spec fn is_lower(c: char) -> bool {
    'a' <= c <= 'z'
}

/// Uppercase ASCII letter.
pub open spec fn is_upper(c: char) -> bool {
    'A' <= c <= 'Z'
}

/// ASCII decimal digit.
pub open spec fn is_digit(c: char) -> bool {
    '0' <= c <= '9'
}

/// Unicode white space.
pub open spec fn is_white(c: char) -> bool {
    ||| '\u{9}' <= c <= '\u{d}'
    ||| c == ' '
    ||| c == '\u{85}'
    ||| c == '\u{a0}'
    ||| c == '\u{1680}'
    ||| '\u{2000}' <= c <= '\u{200a}'
    ||| c == '\u{2028}'
    ||| c == '\u{2029}'
    ||| c == '\u{202f}'
    ||| c == '\u{205f}'
    ||| c == '\u{3000}'
}

/// Number of bytes of the UTF-8 form of `s`.
pub open spec fn byte_len(s: Seq<char>) -> nat {
    encode_utf8(s).len()
}

/// Position of the first `c` in `s`, or the length of `s` without one.
pub open spec fn index_of(s: Seq<char>, c: char) -> nat
    decreases s.len(),
{
    if s.len() == 0 || s[0] == c {
        0
    } else {
        1 + index_of(s.skip(1), c)
    }
}

/// What stands before the first `sep`: all of `s` without one.
pub open spec fn head(s: Seq<char>, sep: char) -> Seq<char> {
    s.take(index_of(s, sep) as int)
}

/// What stands after the first `sep`: nothing without one.
pub open spec fn tail(s: Seq<char>, sep: char) -> Seq<char> {
    if index_of(s, sep) < s.len() {
        s.skip(index_of(s, sep) as int + 1)
    } else {
        Seq::empty()
    }
}

/// `s` without a final `c`.
pub open spec fn strip_last(s: Seq<char>, c: char) -> Seq<char> {
    if s.len() > 0 && s.last() == c {
        s.drop_last()
    } else {
        s
    }
}

/// `s` without its line ending: a newline, then a carriage return.
pub open spec fn strip_line_end(s: Seq<char>) -> Seq<char> {
    strip_last(strip_last(s, '\n'), '\r')
}

/// The decimal digit for a value below ten.
pub open spec fn digit_char(d: nat) -> char {
    ('0' as u32 + d) as char
}

/// The value of a decimal digit.
pub open spec fn digit_value(c: char) -> nat {
    (c as u32 - '0' as u32) as nat
}

/// The decimal form of `n`, without leading zeros.
pub open spec fn dec_chars(n: nat) -> Seq<char>
    decreases n,
{
    if n < 10 {
        seq![digit_char(n)]
    } else {
        dec_chars(n / 10).push(digit_char(n % 10))
    }
}

/// Every character is a decimal digit.
pub open spec fn all_digits(s: Seq<char>) -> bool {
    forall|i: int| 0 <= i < s.len() ==> is_digit(#[trigger] s[i])
}

/// The number that a sequence of decimal digits stands for.
pub open spec fn digits_value(s: Seq<char>) -> nat
    decreases s.len(),
{
    if s.len() == 0 {
        0
    } else {
        digits_value(s.drop_last()) * 10 + digit_value(s.last())
    }
}

/// `s` without one leading plus sign.
pub open spec fn strip_plus(s: Seq<char>) -> Seq<char> {
    if s.len() > 0 && s[0] == '+' {
        s.skip(1)
    } else {
        s
    }
}

/// The unsigned number that `s` spells: one optional plus sign and at least
/// one decimal digit, nothing else.
pub open spec fn parse_uint(s: Seq<char>) -> Option<nat> {
    if strip_plus(s).len() > 0 && all_digits(strip_plus(s)) {
        Some(digits_value(strip_plus(s)))
    } else {
        None
    }
}

/// The number that `s` spells, where it is at most `max`.
pub open spec fn parse_bounded(s: Seq<char>, max: nat) -> Option<nat> {
    match parse_uint(s) {
        Some(n) => if n <= max {
            Some(n)
        } else {
            None
        },
        None => None,
    }
}

/// The first `c` stands at `index_of`, and nowhere before it.
pub proof fn lemma_index_of(s: Seq<char>, c: char)
    ensures
        index_of(s, c) <= s.len(),
        index_of(s, c) < s.len() ==> s[index_of(s, c) as int] == c,
        forall|i: int| 0 <= i < index_of(s, c) ==> s[i] != c,
    decreases s.len(),
{
    if s.len() > 0 && s[0] != c {
        lemma_index_of(s.skip(1), c);
        assert forall|i: int| 0 <= i < index_of(s, c) implies s[i] != c by {
            if i > 0 {
                assert(s.skip(1)[i - 1] == s[i]);
            }
        }
    }
}

/// A position that holds `c` with none before it is `index_of`.
pub proof fn lemma_index_of_unique(s: Seq<char>, c: char, k: int)
    requires
        0 <= k <= s.len(),
        k < s.len() ==> s[k] == c,
        forall|i: int| 0 <= i < k ==> s[i] != c,
    ensures
        index_of(s, c) == k,
{
    lemma_index_of(s, c);
    let n = index_of(s, c) as int;
    if n < k {
        assert(s[n] != c);
    }
    if k < n {
        assert(s[k] != c);
    }
}

/// Splitting `a`, a separator that `a` does not hold, and `b` gives back both.
pub proof fn lemma_split_joined(a: Seq<char>, sep: char, b: Seq<char>)
    requires
        forall|i: int| 0 <= i < a.len() ==> a[i] != sep,
    ensures
        head(a + seq![sep] + b, sep) == a,
        tail(a + seq![sep] + b, sep) == b,
{
    let s = a + seq![sep] + b;
    assert(forall|i: int| 0 <= i < a.len() ==> s[i] == a[i]);
    lemma_index_of_unique(s, sep, a.len() as int);
    assert(s.take(a.len() as int) =~= a);
    assert(s.skip(a.len() as int + 1) =~= b);
}

/// A text without the separator is its own first field.
pub proof fn lemma_split_none(a: Seq<char>, sep: char)
    requires
        forall|i: int| 0 <= i < a.len() ==> a[i] != sep,
    ensures
        head(a, sep) == a,
        tail(a, sep) == Seq::<char>::empty(),
{
    lemma_index_of_unique(a, sep, a.len() as int);
    assert(a.take(a.len() as int) =~= a);
}

/// Each character takes at least one byte.
pub proof fn lemma_byte_len_bound(s: Seq<char>)
    ensures
        s.len() <= byte_len(s) <= 4 * s.len(),
    decreases s.len(),
{
    if s.len() > 0 {
        lemma_byte_len_bound(s.drop_first());
    }
}

proof fn lemma_digit_char(d: nat)
    requires
        d < 10,
    ensures
        is_digit(digit_char(d)),
        digit_value(digit_char(d)) == d,
{
}

/// The decimal form of a number is made of digits and spells that number.
pub proof fn lemma_dec_chars(n: nat)
    ensures
        dec_chars(n).len() > 0,
        all_digits(dec_chars(n)),
        digits_value(dec_chars(n)) == n,
    decreases n,
{
    lemma_digit_char(n % 10);
    if n < 10 {
        reveal_with_fuel(digits_value, 2);
        assert(dec_chars(n).drop_last() =~= Seq::empty());
    } else {
        lemma_dec_chars(n / 10);
        assert(dec_chars(n).drop_last() =~= dec_chars(n / 10));
    }
}

/// Reading the decimal form of a number gives the number back.
pub proof fn law_decimal_round_trip(n: nat)
    ensures
        parse_uint(dec_chars(n)) == Some(n),
{
    lemma_dec_chars(n);
    assert(is_digit(dec_chars(n)[0]));
    assert(strip_plus(dec_chars(n)) == dec_chars(n));
}

proof fn lemma_digits_value_prefix(s: Seq<char>, i: int)
    requires
        0 <= i <= s.len(),
    ensures
        digits_value(s.take(i)) <= digits_value(s),
    decreases s.len() - i,
{
    if i == s.len() {
        assert(s.take(i) =~= s);
    } else {
        lemma_digits_value_prefix(s, i + 1);
        assert(s.take(i + 1).drop_last() =~= s.take(i));
    }
}

/// The decimal form of a number below a power of ten is that short.
pub proof fn lemma_dec_chars_len(n: nat)
    ensures
        n < 0x1_0000_0000_0000_0000 ==> dec_chars(n).len() <= 20,
{
    reveal_with_fuel(dec_chars, 21);
}

/// The characters of `s`, one by one.
pub fn chars_of(s: &str) -> (out: Vec<char>)
    ensures
        out@ == s@,
{
    let mut out: Vec<char> = Vec::new();
    for c in it: s.chars()
        invariant
            it.seq() == s@,
            out@ == s@.take(it.index() as int),
    {
        assert(s@.take(it.index() as int).push(c) =~= s@.take(it.index() + 1));
        out.push(c);
    }
    assert(s@.take(s@.len() as int) =~= s@);
    out
}

/// Whether two texts are the same.
pub fn same_text(a: &str, b: &str) -> (same: bool)
    ensures
        same == (a@ == b@),
{
    a.to_owned() == b.to_owned()
}

/// Number of bytes of the UTF-8 form of `s`.
pub fn utf8_len(s: &str) -> (n: usize)
    ensures
        n == byte_len(s@),
{
    s.as_bytes().len()
}

/// The part before the first `sep`, and the part after it.
pub fn split_first(s: &str, sep: char) -> (parts: (&str, &str))
    ensures
        parts.0@ == head(s@, sep),
        parts.1@ == tail(s@, sep),
{
    let chars = chars_of(s);
    let n = chars.len();
    let mut i: usize = 0;
    while i < n && chars[i] != sep
        invariant
            i <= n == chars@.len(),
            forall|j: int| 0 <= j < i ==> chars@[j] != sep,
        decreases n - i,
    {
        i = i + 1;
    }
    proof {
        lemma_index_of_unique(s@, sep, i as int);
        assert(s@.subrange(0, i as int) =~= s@.take(i as int));
        if i < n {
            assert(s@.subrange(i + 1, n as int) =~= s@.skip(i + 1));
        }
    }
    if i < n {
        (s.substring_char(0, i), s.substring_char(i + 1, n))
    } else {
        assert(s@.subrange(n as int, n as int) =~= Seq::empty());
        (s.substring_char(0, i), s.substring_char(n, n))
    }
}

/// `s` without a final `c`.
pub fn without_last(s: &str, c: char) -> (out: &str)
    ensures
        out@ == strip_last(s@, c),
{
    let n = s.unicode_len();
    if n > 0 && s.get_char(n - 1) == c {
        assert(s@.subrange(0, n - 1) =~= s@.drop_last());
        s.substring_char(0, n - 1)
    } else {
        s
    }
}

/// `s` without its line ending.
pub fn without_line_end(s: &str) -> (out: &str)
    ensures
        out@ == strip_line_end(s@),
{
    without_last(without_last(s, '\n'), '\r')
}

/// Whether `c` is Unicode white space.
pub fn is_white_char(c: char) -> (white: bool)
    ensures
        white == is_white(c),
{
    ('\u{9}' <= c && c <= '\u{d}') || c == ' ' || c == '\u{85}' || c == '\u{a0}' || c == '\u{1680}'
        || ('\u{2000}' <= c && c <= '\u{200a}') || c == '\u{2028}' || c == '\u{2029}'
        || c == '\u{202f}' || c == '\u{205f}' || c == '\u{3000}'
}

/// The decimal digit for a value below ten.
fn digit_of(d: u64) -> (c: char)
    requires
        d < 10,
    ensures
        c == digit_char(d as nat),
{
    (48 + d as u8) as char
}

/// The decimal form of `n`.
pub fn decimal(n: u64) -> (out: String)
    ensures
        out@ == dec_chars(n as nat),
    decreases n,
{
    let mut out = if n < 10 {
        String::new()
    } else {
        decimal(n / 10)
    };
    out.push(digit_of(n % 10));
    out
}

/// The unsigned number that `s` spells, where it fits 64 bits.
pub fn parse_u64(s: &str) -> (out: Option<u64>)
    ensures
        out is Some <==> parse_bounded(s@, u64::MAX as nat) is Some,
        out matches Some(n) ==> parse_bounded(s@, u64::MAX as nat) == Some(n as nat),
{
    let chars = chars_of(s);
    let start: usize = if chars.len() > 0 && chars[0] == '+' {
        1
    } else {
        0
    };
    let ghost body = strip_plus(s@);
    assert(body =~= s@.skip(start as int));
    if start == chars.len() {
        return None;
    }
    let mut i: usize = start;
    let mut value: u64 = 0;
    while i < chars.len()
        invariant
            start <= i <= chars.len(),
            chars@ == s@,
            body == strip_plus(s@),
            body == s@.skip(start as int),
            body.len() > 0,
            forall|j: int| 0 <= j < i - start ==> is_digit(#[trigger] body[j]),
            value == digits_value(body.take(i - start)),
        decreases chars.len() - i,
    {
        let c = chars[i];
        let ghost k = i - start;
        assert(body[k] == c);
        if c < '0' || c > '9' {
            assert(!all_digits(body));
            return None;
        }
        let d: u64 = (c as u32 - 48) as u64;
        proof {
            assert(body.take(k + 1).drop_last() =~= body.take(k));
            lemma_digits_value_prefix(body, k + 1);
        }
        if value > (u64::MAX - d) / 10 {
            return None;
        }
        value = value * 10 + d;
        i = i + 1;
    }
    assert(body.take(body.len() as int) =~= body);
    Some(value)
}

/// The unsigned number that `s` spells, where it fits the machine word.
pub fn parse_usize(s: &str) -> (out: Option<usize>)
    ensures
        out is Some <==> parse_bounded(s@, usize::MAX as nat) is Some,
        out matches Some(n) ==> parse_bounded(s@, usize::MAX as nat) == Some(n as nat),
{
    match parse_u64(s) {
        Some(n) => if n <= usize::MAX as u64 {
            Some(n as usize)
        } else {
            None
        },
        None => None,
    }
}

/// The unsigned number that `s` spells, where it fits 16 bits.
pub fn parse_u16(s: &str) -> (out: Option<u16>)
    ensures
        out is Some <==> parse_bounded(s@, u16::MAX as nat) is Some,
        out matches Some(n) ==> parse_bounded(s@, u16::MAX as nat) == Some(n as nat),
{
    match parse_u64(s) {
        Some(n) => if n <= 65535 {
            Some(n as u16)
        } else {
            None
        },
        None => None,
    }
}

/// `s` without the white space at its end.
pub open spec fn trim_end(s: Seq<char>) -> Seq<char>
    decreases s.len(),
{
    if s.len() > 0 && is_white(s.last()) {
        trim_end(s.drop_last())
    } else {
        s
    }
}

/// `s` without the white space at its start.
pub open spec fn trim_start(s: Seq<char>) -> Seq<char>
    decreases s.len(),
{
    if s.len() > 0 && is_white(s[0]) {
        trim_start(s.skip(1))
    } else {
        s
    }
}

/// `s` without the white space at either end.
pub open spec fn trim(s: Seq<char>) -> Seq<char> {
    trim_end(trim_start(s))
}

/// `s` without the white space at its end.
pub fn trimmed_end(s: &str) -> (out: String)
    ensures
        out@ == trim_end(s@),
{
    let mut n = s.unicode_len();
    assert(s@.take(n as int) =~= s@);
    while n > 0 && is_white_char(s.get_char(n - 1))
        invariant
            n <= s@.len(),
            trim_end(s@) == trim_end(s@.take(n as int)),
        decreases n,
    {
        assert(s@.take(n as int).drop_last() =~= s@.take(n - 1));
        n = n - 1;
    }
    assert(s@.subrange(0, n as int) =~= s@.take(n as int));
    s.substring_char(0, n).to_owned()
}

/// `s` without the white space at its start.
pub fn trimmed_start(s: &str) -> (out: &str)
    ensures
        out@ == trim_start(s@),
{
    let n = s.unicode_len();
    let mut i: usize = 0;
    assert(s@.skip(0) =~= s@);
    while i < n && is_white_char(s.get_char(i))
        invariant
            i <= n == s@.len(),
            trim_start(s@) == trim_start(s@.skip(i as int)),
        decreases n - i,
    {
        assert(s@.skip(i as int).skip(1) =~= s@.skip(i + 1));
        i = i + 1;
    }
    assert(s@.subrange(i as int, n as int) =~= s@.skip(i as int));
    s.substring_char(i, n)
}

/// `s` without the white space at either end.
pub fn trimmed(s: &str) -> (out: String)
    ensures
        out@ == trim(s@),
{
    trimmed_end(trimmed_start(s))
}

/// A text is cut at the first separator, which is part of neither piece; one
/// without the separator is all head.
pub proof fn law_cut_at_the_first_separator(a: Seq<char>, sep: char, b: Seq<char>)
    requires
        !a.contains(sep),
    ensures
        head(a.push(sep) + b, sep) == a,
        tail(a.push(sep) + b, sep) == b,
        head(a, sep) == a,
        tail(a, sep) == Seq::<char>::empty(),
{
    assert forall|i: int| 0 <= i < a.len() implies #[trigger] a[i] != sep by {
        assert(a.contains(a[i]));
    }
    let s = a.push(sep) + b;
    lemma_index_of_unique(s, sep, a.len() as int);
    lemma_index_of_unique(a, sep, a.len() as int);
    assert(head(s, sep) =~= a);
    assert(tail(s, sep) =~= b);
    assert(head(a, sep) =~= a);
}

/// The end of a line is a newline, with a carriage return before it or not;
/// what has none stays as it is.
pub proof fn law_line_ends(l: Seq<char>)
    requires
        l.len() > 0 ==> l.last() != '\n' && l.last() != '\r',
    ensures
        strip_line_end(l) == l,
        strip_line_end(l.push('\n')) == l,
        strip_line_end(l.push('\r').push('\n')) == l,
{
    assert(l.push('\n').drop_last() =~= l);
    assert(l.push('\r').push('\n').drop_last() =~= l.push('\r'));
    assert(l.push('\r').drop_last() =~= l);
}

/// A number is one or more digits, the most significant first, with a plus
/// before them or not; nothing else is one.
pub proof fn law_numbers(s: Seq<char>, d: char)
    ensures
        s.len() == 0 || s[0] != '+' ==> (parse_uint(s) is Some <==> s.len() > 0 && forall|i: int|
            0 <= i < s.len() ==> '0' <= #[trigger] s[i] <= '9'),
        s.len() == 0 || s[0] != '+' ==> parse_uint(seq!['+'] + s) == parse_uint(s),
        s.len() > 0 && s[0] == '+' ==> parse_uint(seq!['+'] + s) is None,
        '0' <= d <= '9' ==> parse_uint(seq![d]) == Some((d as u32 - '0' as u32) as nat),
        parse_uint(s) matches Some(n) ==> ('0' <= d <= '9' ==> parse_uint(s.push(d)) == Some(
            n * 10 + (d as u32 - '0' as u32) as nat,
        )),
{
    reveal_with_fuel(digits_value, 2);
    let one = seq![d];
    assert(one.drop_last() =~= Seq::empty());
    if '0' <= d <= '9' {
        assert(strip_plus(one) =~= one);
        assert(all_digits(one));
    }
    let n = strip_plus(s);
    if s.len() == 0 || s[0] != '+' {
        assert(n == s);
        if all_digits(s) {
            assert forall|i: int| 0 <= i < s.len() implies '0' <= #[trigger] s[i] <= '9' by {
                assert(is_digit(s[i]));
            }
        }
    }
    let plus = seq!['+'] + s;
    assert(plus[0] == '+');
    assert(plus.skip(1) =~= s);
    if s.len() > 0 && s[0] == '+' {
        assert(!is_digit(s[0]));
    }
    if parse_uint(s) is Some && '0' <= d <= '9' {
        assert(s.push(d)[0] == s[0]);
        assert(strip_plus(s.push(d)) =~= n.push(d));
        assert(n.push(d).drop_last() =~= n);
        assert(all_digits(n.push(d)));
    }
}

/// White space is trimmed at both ends and nowhere else.
pub proof fn law_trimmed_at_both_ends(before: Seq<char>, s: Seq<char>, after: Seq<char>)
    requires
        forall|i: int| 0 <= i < before.len() ==> is_white(#[trigger] before[i]),
        forall|i: int| 0 <= i < after.len() ==> is_white(#[trigger] after[i]),
        s.len() > 0 ==> !is_white(s[0]) && !is_white(s.last()),
    ensures
        trim(before + s + after) == s,
    decreases before.len() + after.len(),
{
    let t = before + s + after;
    if before.len() > 0 {
        assert(t[0] == before[0]);
        let less = before.skip(1);
        assert forall|i: int| 0 <= i < less.len() implies is_white(#[trigger] less[i]) by {
            assert(less[i] == before[i + 1]);
        }
        law_trimmed_at_both_ends(less, s, after);
        assert(t.skip(1) =~= less + s + after);
    } else if s.len() > 0 {
        assert(t[0] == s[0]);
        lemma_trim_end_behind(s, after);
        assert(t =~= s + after);
    } else {
        assert(t =~= after);
        lemma_trim_blank(after);
    }
}

proof fn lemma_trim_end_behind(s: Seq<char>, after: Seq<char>)
    requires
        s.len() > 0,
        !is_white(s.last()),
        forall|i: int| 0 <= i < after.len() ==> is_white(#[trigger] after[i]),
    ensures
        trim_end(s + after) == s,
    decreases after.len(),
{
    if after.len() == 0 {
        assert(s + after =~= s);
    } else {
        let less = after.drop_last();
        assert forall|i: int| 0 <= i < less.len() implies is_white(#[trigger] less[i]) by {
            assert(less[i] == after[i]);
        }
        lemma_trim_end_behind(s, less);
        assert(is_white(after[after.len() - 1]));
        assert((s + after).drop_last() =~= s + less);
    }
}

proof fn lemma_trim_blank(s: Seq<char>)
    requires
        forall|i: int| 0 <= i < s.len() ==> is_white(#[trigger] s[i]),
    ensures
        trim(s) == Seq::<char>::empty(),
    decreases s.len(),
{
    if s.len() > 0 {
        assert(is_white(s[0]));
        let less = s.skip(1);
        assert forall|i: int| 0 <= i < less.len() implies is_white(#[trigger] less[i]) by {
            assert(less[i] == s[i + 1]);
        }
        lemma_trim_blank(less);
    } else {
        assert(s =~= Seq::empty());
    }
}

/// Numbers are written in decimal digits without leading zeros.
pub proof fn law_decimal_form(n: nat)
    ensures
        dec_chars(n).len() > 0,
        forall|i: int| 0 <= i < dec_chars(n).len() ==> '0' <= #[trigger] dec_chars(n)[i] <= '9',
        n == 0 ==> dec_chars(n) == seq!['0'],
        n > 0 ==> dec_chars(n)[0] != '0',
    decreases n,
{
    if n >= 10 {
        law_decimal_form(n / 10);
    }
}

/// A number is read where it is one and does not pass the bound.
pub proof fn law_bounded_numbers(s: Seq<char>, n: nat, max: nat)
    ensures
        parse_bounded(s, max) is Some <==> (parse_uint(s) matches Some(v) && v <= max),
        parse_bounded(s, max) is Some ==> parse_bounded(s, max) == parse_uint(s),
        n <= max ==> parse_bounded(dec_chars(n), max) == Some(n),
        n > max ==> parse_bounded(dec_chars(n), max) is None,
{
    law_decimal_round_trip(n);
}

/// White space is what Unicode has as such, and no letter, digit or mark of
/// ASCII is.
pub proof fn law_white_space(c: char)
    ensures
        is_white(' ') && is_white('\t') && is_white('\n') && is_white('\r'),
        '!' <= c <= '~' ==> !is_white(c),
        is_white(c) && c as u32 >= 128 ==> c == '\u{85}' || c == '\u{a0}' || c == '\u{1680}'
            || '\u{2000}' <= c <= '\u{200a}' || c == '\u{2028}' || c == '\u{2029}' || c
            == '\u{202f}' || c == '\u{205f}' || c == '\u{3000}',
        is_white(c) && (c as u32) < 128 ==> c == ' ' || '\u{9}' <= c <= '\u{d}',
        c == '\u{85}' || c == '\u{a0}' || c == '\u{1680}' || '\u{2000}' <= c <= '\u{200a}' || c
            == '\u{2028}' || c == '\u{2029}' || c == '\u{202f}' || c == '\u{205f}' || c
            == '\u{3000}' ==> is_white(c),
{
}

/// Trimming takes white space only, from the ends only: what is left neither
/// starts nor ends with it, and stands in the text.
pub proof fn law_trimming_takes_white_space_only(s: Seq<char>)
    ensures
        trim(s).len() > 0 ==> !is_white(trim(s)[0]) && !is_white(trim(s).last()),
        exists|i: int, j: int|
            0 <= i <= j <= s.len() && trim(s) == #[trigger] s.subrange(i, j) && (forall|k: int|
                0 <= k < i ==> is_white(#[trigger] s[k])) && (forall|k: int|
                j <= k < s.len() ==> is_white(#[trigger] s[k])),
{
    let i = lemma_trim_start(s);
    let rest = s.skip(i);
    let j = lemma_trim_end(rest);
    assert(trim(s) =~= s.subrange(i, i + j));
    assert forall|k: int| i + j <= k < s.len() implies is_white(#[trigger] s[k]) by {
        assert(rest[k - i] == s[k]);
    }
}

/// Where the trimmed text starts.
proof fn lemma_trim_start(s: Seq<char>) -> (i: int)
    ensures
        0 <= i <= s.len(),
        trim_start(s) == s.skip(i),
        forall|k: int| 0 <= k < i ==> is_white(#[trigger] s[k]),
        i < s.len() ==> !is_white(s[i]),
    decreases s.len(),
{
    if s.len() > 0 && is_white(s[0]) {
        let i = lemma_trim_start(s.skip(1));
        assert(s.skip(1).skip(i) =~= s.skip(i + 1));
        assert forall|k: int| 0 <= k < i + 1 implies is_white(#[trigger] s[k]) by {
            if k > 0 {
                assert(s.skip(1)[k - 1] == s[k]);
            }
        }
        i + 1
    } else {
        assert(s.skip(0) =~= s);
        0
    }
}

/// Where the trimmed text ends.
proof fn lemma_trim_end(s: Seq<char>) -> (j: int)
    ensures
        0 <= j <= s.len(),
        trim_end(s) == s.take(j),
        forall|k: int| j <= k < s.len() ==> is_white(#[trigger] s[k]),
        j > 0 ==> !is_white(s[j - 1]),
    decreases s.len(),
{
    if s.len() > 0 && is_white(s.last()) {
        let front = s.drop_last();
        let j = lemma_trim_end(front);
        assert(front.take(j) =~= s.take(j));
        assert forall|k: int| j <= k < s.len() implies is_white(#[trigger] s[k]) by {
            if k < front.len() {
                assert(front[k] == s[k]);
            }
        }
        j
    } else {
        assert(s.take(s.len() as int) =~= s);
        s.len() as int
    }
}

} // verus!
