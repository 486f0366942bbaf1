//! Little-endian byte encodings of unsigned integers, and their values.

use vstd::prelude::*;

verus! {

/// `256` raised to the power `n`.
pub open spec fn pow256(n: nat) -> nat
    decreases n,
{
    if n == 0 {
        1
    } else {
        256 * pow256((n - 1) as nat)
    }
}

/// The `n`-byte little-endian encoding of `v`: byte `k` is digit `k` of `v` in base 256
/// (digits from `n` upward are dropped).
pub open spec fn le_bytes(v: nat, n: nat) -> Seq<u8>
    decreases n,
{
    if n == 0 {
        Seq::empty()
    } else {
        seq![(v % 256) as u8] + le_bytes(v / 256, (n - 1) as nat)
    }
}

/// The number that a little-endian byte string denotes.
pub open spec fn le_value(s: Seq<u8>) -> nat
    decreases s.len(),
{
    if s.len() == 0 {
        0
    } else {
        s[0] as nat + 256 * le_value(s.drop_first())
    }
}

/// The 32 zero bytes that stand for "no previous ballot".
pub open spec fn zero_hash() -> Seq<u8> {
    Seq::new(32, |i: int| 0u8)
}

/// The number read from bytes 16 to 31 of a hash, byte 31 the most significant.
pub open spec fn difficulty_value(hash: Seq<u8>) -> nat {
    le_value(hash.subrange(16, 32))
}

/// `pow256` grows with its argument.
pub proof fn lemma_pow256_monotonic(m: nat, n: nat)
    requires
        m <= n,
    ensures
        1 <= pow256(m) <= pow256(n),
    decreases n,
{
    if n > m {
        lemma_pow256_monotonic(m, (n - 1) as nat);
    } else if n > 0 {
        lemma_pow256_monotonic(0, (n - 1) as nat);
    }
}

/// `256^16` is `2^128`, one more than the largest `u128`.
pub proof fn lemma_pow256_16()
    ensures
        pow256(16) == 0x1_0000_0000_0000_0000_0000_0000_0000_0000,
        pow256(16) == 256 * pow256(15),
{
    reveal_with_fuel(pow256, 17);
}

/// `256^4`, `256^8` and `256^16` are `2^32`, `2^64` and `2^128`.
pub proof fn lemma_pow256_widths()
    ensures
        pow256(4) == 0x1_0000_0000,
        pow256(8) == 0x1_0000_0000_0000_0000,
        pow256(16) == 0x1_0000_0000_0000_0000_0000_0000_0000_0000,
{
    reveal_with_fuel(pow256, 17);
}

/// A string of zero bytes denotes zero.
pub proof fn lemma_le_value_zeros(s: Seq<u8>)
    requires
        forall|k: int| 0 <= k < s.len() ==> s[k] == 0,
    ensures
        le_value(s) == 0,
    decreases s.len(),
{
    if s.len() > 0 {
        lemma_le_value_zeros(s.drop_first());
    }
}

/// A little-endian string of `k` bytes denotes a number below `256^k`.
pub proof fn lemma_le_value_bound(s: Seq<u8>)
    ensures
        le_value(s) < pow256(s.len()),
    decreases s.len(),
{
    if s.len() > 0 {
        lemma_le_value_bound(s.drop_first());
    }
}

/// The encoding of `v` in `n` bytes is `n` bytes long.
pub proof fn lemma_le_bytes_len(v: nat, n: nat)
    ensures
        le_bytes(v, n).len() == n,
    decreases n,
{
    if n > 0 {
        lemma_le_bytes_len(v / 256, (n - 1) as nat);
    }
}

/// Decoding the `n`-byte encoding of `v` gives `v` back, whenever `v` fits in `n` bytes.
pub proof fn lemma_le_value_of_le_bytes(v: nat, n: nat)
    requires
        v < pow256(n),
    ensures
        le_value(le_bytes(v, n)) == v,
    decreases n,
{
    if n > 0 {
        lemma_le_bytes_len(v, n);
        let rest = le_bytes(v / 256, (n - 1) as nat);
        assert(le_bytes(v, n).drop_first() =~= rest);
        lemma_le_value_of_le_bytes(v / 256, (n - 1) as nat);
    }
}

/// Encoding the value of a byte string in as many bytes gives the string back.
pub proof fn lemma_le_bytes_of_le_value(s: Seq<u8>)
    ensures
        le_bytes(le_value(s), s.len()) == s,
    decreases s.len(),
{
    if s.len() > 0 {
        let rest = s.drop_first();
        lemma_le_bytes_of_le_value(rest);
        let v = le_value(s);
        assert(v % 256 == s[0] as nat);
        assert(v / 256 == le_value(rest));
        assert(le_bytes(v, s.len()) =~= s);
    }
}

/// Appends the `n`-byte little-endian encoding of `v` to `out`.
fn push_le_bytes(out: &mut Vec<u8>, v: u128, n: usize)
    ensures
        final(out)@ == old(out)@ + le_bytes(v as nat, n as nat),
{
    let ghost start = old(out)@;
    let mut rest: u128 = v;
    let mut i: usize = 0;
    assert(start + le_bytes(v as nat, n as nat) =~= out@ + le_bytes(rest as nat, (n - i) as nat));
    while i < n
        invariant
            i <= n,
            out@ + le_bytes(rest as nat, (n - i) as nat) == start + le_bytes(v as nat, n as nat),
        decreases n - i,
    {
        let ghost before = out@;
        let byte: u8 = (rest % 256) as u8;
        out.push(byte);
        let ghost r = rest as nat;
        rest = rest / 256;
        i = i + 1;
        assert(le_bytes(r, (n - i + 1) as nat) == seq![(r % 256) as u8] + le_bytes(r / 256, (n - i) as nat));
        assert(before + le_bytes(r, (n - i + 1) as nat) =~= out@ + le_bytes(rest as nat, (n - i) as nat));
    }
    assert(le_bytes(rest as nat, 0) =~= Seq::<u8>::empty());
    assert(out@ =~= out@ + le_bytes(rest as nat, 0));
}

/// The 4-byte little-endian encoding of `u`.
pub fn u32_bytes(u: &u32) -> (r: Vec<u8>)
    ensures
        r@ == le_bytes(*u as nat, 4),
{
    let mut out: Vec<u8> = Vec::new();
    push_le_bytes(&mut out, *u as u128, 4);
    assert(out@ =~= le_bytes(*u as nat, 4));
    out
}

/// The 8-byte little-endian encoding of `u`.
pub fn u64_bytes(u: &u64) -> (r: Vec<u8>)
    ensures
        r@ == le_bytes(*u as nat, 8),
{
    let mut out: Vec<u8> = Vec::new();
    push_le_bytes(&mut out, *u as u128, 8);
    assert(out@ =~= le_bytes(*u as nat, 8));
    out
}

/// The 16-byte little-endian encoding of `u`.
pub fn u128_bytes(u: &u128) -> (r: Vec<u8>)
    ensures
        r@ == le_bytes(*u as nat, 16),
{
    let mut out: Vec<u8> = Vec::new();
    push_le_bytes(&mut out, *u, 16);
    assert(out@ =~= le_bytes(*u as nat, 16));
    out
}

/// Reads bytes 16 to 31 of `v` as a little-endian number (byte 31 is the most significant).
pub fn difficulty_bytes_as_u128(v: &Vec<u8>) -> (r: u128)
    requires
        v@.len() >= 32,
    ensures
        r as nat == difficulty_value(v@),
{
    let mut acc: u128 = 0;
    let mut i: usize = 32;
    proof {
        assert(v@.subrange(32, 32) =~= Seq::<u8>::empty());
    }
    while i > 16
        invariant
            16 <= i <= 32,
            v@.len() >= 32,
            acc as nat == le_value(v@.subrange(i as int, 32)),
        decreases i,
    {
        i = i - 1;
        proof {
            let tail = v@.subrange(i as int + 1, 32);
            assert(v@.subrange(i as int, 32).drop_first() =~= tail);
            lemma_le_value_bound(tail);
            lemma_pow256_monotonic(tail.len(), 15);
            lemma_pow256_16();
        }
        acc = acc * 256 + v[i] as u128;
    }
    acc
}

} // verus!
