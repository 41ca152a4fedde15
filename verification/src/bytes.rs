//! Integers as bytes, most or least significant byte first.

use vstd::prelude::*;

verus! {

/// `256` to the power `n`.
pub open spec fn pow256(n: nat) -> nat
    decreases n,
{
    if n == 0 {
        1
    } else {
        256 * pow256((n - 1) as nat)
    }
}

/// The low `n` bytes of `v`, most significant first.
pub open spec fn be_bytes(v: nat, n: nat) -> Seq<u8>
    decreases n,
{
    if n == 0 {
        Seq::empty()
    } else {
        be_bytes(v / 256, (n - 1) as nat).push((v % 256) as u8)
    }
}

/// The number whose bytes these are, most significant first.
pub open spec fn be_value(s: Seq<u8>) -> nat
    decreases s.len(),
{
    if s.len() == 0 {
        0
    } else {
        be_value(s.drop_last()) * 256 + s.last() as nat
    }
}

/// The low `n` bytes of `v`, least significant first.
pub open spec fn le_bytes(v: nat, n: nat) -> Seq<u8>
    decreases n,
{
    if n == 0 {
        Seq::empty()
    } else {
        seq![(v % 256) as u8] + le_bytes(v / 256, (n - 1) as nat)
    }
}

/// The number whose bytes these are, least significant first.
pub open spec fn le_value(s: Seq<u8>) -> nat
    decreases s.len(),
{
    if s.len() == 0 {
        0
    } else {
        s[0] as nat + 256 * le_value(s.skip(1))
    }
}

pub proof fn lemma_pow256()
    ensures
        pow256(0) == 1,
        pow256(1) == 0x100,
        pow256(2) == 0x1_0000,
        pow256(4) == 0x1_0000_0000,
        pow256(8) == 0x1_0000_0000_0000_0000,
{
    reveal_with_fuel(pow256, 9);
}

/// `n` bytes are read back as the number they were made of, most
/// significant first.
pub proof fn lemma_be_round_trip(v: nat, n: nat)
    requires
        v < pow256(n),
    ensures
        be_bytes(v, n).len() == n,
        be_value(be_bytes(v, n)) == v,
    decreases n,
{
    if n > 0 {
        lemma_be_round_trip(v / 256, (n - 1) as nat);
        assert(be_bytes(v, n).drop_last() =~= be_bytes(v / 256, (n - 1) as nat));
    }
}

/// Bytes are made again of the number they stand for, most significant first.
pub proof fn lemma_be_value(s: Seq<u8>)
    ensures
        be_value(s) < pow256(s.len()),
        be_bytes(be_value(s), s.len()) == s,
    decreases s.len(),
{
    if s.len() > 0 {
        lemma_be_value(s.drop_last());
        assert(be_bytes(be_value(s), s.len()) =~= s);
    }
}

pub proof fn lemma_be_len(v: nat, n: nat)
    ensures
        be_bytes(v, n).len() == n,
    decreases n,
{
    if n > 0 {
        lemma_be_len(v / 256, (n - 1) as nat);
    }
}

/// `n` bytes are read back as the number they were made of, least
/// significant first.
pub proof fn lemma_le_round_trip(v: nat, n: nat)
    requires
        v < pow256(n),
    ensures
        le_bytes(v, n).len() == n,
        le_value(le_bytes(v, n)) == v,
    decreases n,
{
    if n > 0 {
        lemma_le_round_trip(v / 256, (n - 1) as nat);
        assert(le_bytes(v, n).skip(1) =~= le_bytes(v / 256, (n - 1) as nat));
    }
}

/// Bytes are made again of the number they stand for, least significant
/// first.
pub proof fn lemma_le_value(s: Seq<u8>)
    ensures
        le_value(s) < pow256(s.len()),
        le_bytes(le_value(s), s.len()) == s,
    decreases s.len(),
{
    if s.len() > 0 {
        lemma_le_value(s.skip(1));
        assert(le_bytes(le_value(s), s.len()) =~= s);
    }
}

pub proof fn lemma_le_len(v: nat, n: nat)
    ensures
        le_bytes(v, n).len() == n,
    decreases n,
{
    if n > 0 {
        lemma_le_len(v / 256, (n - 1) as nat);
    }
}

/// The number whose bytes these are, most significant first.
pub fn be_number(s: &[u8]) -> (v: u64)
    requires
        s@.len() <= 8,
    ensures
        v == be_value(s@),
{
    let mut v: u64 = 0;
    let mut i: usize = 0;
    while i < s.len()
        invariant
            i <= s.len() <= 8,
            v == be_value(s@.take(i as int)),
        decreases s.len() - i,
    {
        proof {
            reveal_with_fuel(pow256, 9);
            lemma_be_value(s@.take(i as int));
            assert(s@.take(i + 1).drop_last() =~= s@.take(i as int));
        }
        v = v * 256 + s[i] as u64;
        i = i + 1;
    }
    assert(s@.take(s@.len() as int) =~= s@);
    v
}

/// The number whose bytes these are, least significant first.
pub fn le_number(s: &[u8]) -> (v: u64)
    requires
        s@.len() <= 8,
    ensures
        v == le_value(s@),
{
    let mut v: u64 = 0;
    let mut i: usize = s.len();
    assert(s@.skip(i as int) =~= Seq::empty());
    while i > 0
        invariant
            i <= s.len() <= 8,
            v == le_value(s@.skip(i as int)),
        decreases i,
    {
        i = i - 1;
        proof {
            reveal_with_fuel(pow256, 9);
            lemma_le_value(s@.skip(i + 1));
            assert(s@.skip(i as int).skip(1) =~= s@.skip(i + 1));
        }
        v = s[i] as u64 + 256 * v;
    }
    assert(s@.skip(0) =~= s@);
    v
}

/// Appends the low `n` bytes of `v`, most significant first.
pub fn push_be(out: &mut Vec<u8>, v: u64, n: usize)
    ensures
        final(out)@ == old(out)@ + be_bytes(v as nat, n as nat),
    decreases n,
{
    if n > 0 {
        push_be(out, v / 256, n - 1);
        out.push((v % 256) as u8);
    }
}

/// Appends the low `n` bytes of `v`, least significant first.
pub fn push_le(out: &mut Vec<u8>, v: u64, n: usize)
    ensures
        final(out)@ == old(out)@ + le_bytes(v as nat, n as nat),
    decreases n,
{
    if n > 0 {
        out.push((v % 256) as u8);
        push_le(out, v / 256, n - 1);
    }
}

/// Whether two byte strings are the same.
pub fn same_bytes(a: &[u8], b: &[u8]) -> (same: bool)
    ensures
        same == (a@ == b@),
{
    if a.len() != b.len() {
        return false;
    }
    let mut i: usize = 0;
    while i < a.len()
        invariant
            i <= a@.len() == b@.len(),
            forall|j: int| 0 <= j < i ==> a@[j] == b@[j],
        decreases a@.len() - i,
    {
        if a[i] != b[i] {
            return false;
        }
        i = i + 1;
    }
    assert(a@ =~= b@);
    true
}

/// The most significant byte of a big-endian number comes first, that of a
/// little-endian one last.
pub proof fn law_byte_order(s: Seq<u8>, b: u8, v: nat)
    ensures
        be_value(s.push(b)) == 256 * be_value(s) + b,
        le_value(seq![b] + s) == b + 256 * le_value(s),
        be_value(Seq::empty()) == 0,
        le_value(Seq::empty()) == 0,
        v < 256 ==> be_bytes(v, 1) == seq![v as u8] && le_bytes(v, 1) == seq![v as u8],
        be_bytes(v, 8).len() == 8 && le_bytes(v, 8).len() == 8,
        v < 0x1_0000_0000_0000_0000 ==> be_value(be_bytes(v, 8)) == v && le_value(le_bytes(v, 8))
            == v,
{
    assert(s.push(b).drop_last() =~= s);
    assert((seq![b] + s).skip(1) =~= s);
    reveal_with_fuel(be_bytes, 2);
    reveal_with_fuel(le_bytes, 2);
    if v < 256 {
        assert(be_bytes(v, 1) =~= seq![v as u8]);
        assert(le_bytes(v, 1) =~= seq![v as u8]);
    }
    lemma_be_len(v, 8);
    lemma_le_len(v, 8);
    lemma_pow256();
    if v < 0x1_0000_0000_0000_0000 {
        lemma_be_round_trip(v, 8);
        lemma_le_round_trip(v, 8);
    }
}

} // verus!
