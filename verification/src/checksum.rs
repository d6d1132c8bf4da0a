//! The integrity checksum over payload bytes.
//!
//! A 64-bit Fowler–Noll–Vo hash (the xor-then-multiply variant) of the raw
//! byte sequence. The checksum defends against torn writes and accidental
//! corruption, not adversaries; what matters is that it is deterministic,
//! order-sensitive, and — proved below — that it changes whenever exactly
//! one byte of the hashed range changes, so a single flipped bit can never
//! decode silently.

use vstd::prelude::*;
use vstd::arithmetic::div_mod::{lemma_mod_multiples_vanish, lemma_mul_mod_noop_left};
use vstd::arithmetic::mul::lemma_mul_is_distributive_add;
use vstd::pervasive::VecAdditionalExecFns;

verus! {

/// The hash state before any byte is mixed in.
pub const FNV_OFFSET: u64 = 0xcbf29ce484222325;

/// The multiplier mixed in after each byte; odd, so multiplying by it is
/// injective modulo 2^64.
pub const FNV_PRIME: u64 = 0x100000001b3;

/// Mix one byte into the hash state.
pub open spec fn fnv_step(h: u64, b: u8) -> u64 {
    vstd::wrapping::u64_specs::wrapping_mul(h ^ (b as u64), FNV_PRIME)
}

/// Fold the bytes of `s`, left to right, into the state `h`.
pub open spec fn fnv_from(h: u64, s: Seq<u8>) -> u64
    decreases s.len(),
{
    if s.len() == 0 {
        h
    } else {
        fnv_from(fnv_step(h, s[0]), s.drop_first())
    }
}

/// The checksum of a byte sequence.
pub open spec fn checksum_of(s: Seq<u8>) -> u64 {
    fnv_from(FNV_OFFSET, s)
}

/// Compute the checksum of `bytes`.
pub fn checksum(bytes: &[u8]) -> (r: u64)
    ensures
        r == checksum_of(bytes@),
{
    let n = bytes.len();
    let mut h: u64 = FNV_OFFSET;
    let mut i: usize = 0;
    proof {
        assert(bytes@.skip(0) =~= bytes@);
    }
    while i < n
        invariant
            i <= n,
            n == bytes@.len(),
            fnv_from(h, bytes@.skip(i as int)) == checksum_of(bytes@),
        decreases n - i,
    {
        proof {
            let rest = bytes@.skip(i as int);
            assert(rest[0] == bytes@[i as int]);
            assert(rest.drop_first() =~= bytes@.skip(i as int + 1));
        }
        h = (h ^ (bytes[i] as u64)).wrapping_mul(FNV_PRIME);
        i = i + 1;
    }
    proof {
        assert(bytes@.skip(n as int) =~= Seq::<u8>::empty());
    }
    h
}

/// Multiplying by the odd `FNV_PRIME` is injective modulo 2^64: the
/// multiplicative inverse of the prime is 0xce965057aff6957b.
proof fn lemma_mul_prime_injective(x: u64, y: u64)
    requires
        (x as nat * FNV_PRIME as nat) % 0x10000000000000000 == (y as nat * FNV_PRIME as nat)
            % 0x10000000000000000,
    ensures
        x == y,
{
    let m: int = 0x10000000000000000;
    let p: int = FNV_PRIME as int;
    let q: int = 0xce965057aff6957b;
    assert((x as int * p) % m == (y as int * p) % m);
    lemma_mul_mod_noop_left(x as int * p, q, m);
    lemma_mul_mod_noop_left(y as int * p, q, m);
    assert((x as int * p * q) % m == (y as int * p * q) % m);
    // p * q == 1 + k * m for the concrete k below, so x * p * q == x + (x * k) * m.
    let k: int = 0xce9650590f;
    assert(p * q == 1 + k * m);
    assert(x as int * (p * q) == x as int * p * q) by (nonlinear_arith);
    assert(y as int * (p * q) == y as int * p * q) by (nonlinear_arith);
    lemma_mul_is_distributive_add(x as int, 1, k * m);
    lemma_mul_is_distributive_add(y as int, 1, k * m);
    assert(x as int * (k * m) == m * (x as int * k)) by (nonlinear_arith);
    assert(y as int * (k * m) == m * (y as int * k)) by (nonlinear_arith);
    lemma_mod_multiples_vanish(x as int * k, x as int, m);
    lemma_mod_multiples_vanish(y as int * k, y as int, m);
    assert(x as int % m == x as int);
    assert(y as int % m == y as int);
}

/// Mixing the same byte into two different states keeps them different.
proof fn lemma_fnv_step_injective(h1: u64, h2: u64, b: u8)
    requires
        fnv_step(h1, b) == fnv_step(h2, b),
    ensures
        h1 == h2,
{
    lemma_mul_prime_injective(h1 ^ (b as u64), h2 ^ (b as u64));
    assert(h1 ^ (b as u64) == h2 ^ (b as u64) ==> h1 == h2) by (bit_vector);
}

/// Mixing two different bytes into the same state yields different states.
proof fn lemma_fnv_step_separates(h: u64, b1: u8, b2: u8)
    requires
        b1 != b2,
    ensures
        fnv_step(h, b1) != fnv_step(h, b2),
{
    assert(h ^ (b1 as u64) != h ^ (b2 as u64)) by (bit_vector)
        requires
            b1 != b2,
    ;
    if fnv_step(h, b1) == fnv_step(h, b2) {
        lemma_mul_prime_injective(h ^ (b1 as u64), h ^ (b2 as u64));
    }
}

/// Folding the same bytes into two different states keeps them different.
proof fn lemma_fnv_from_injective(h1: u64, h2: u64, s: Seq<u8>)
    requires
        fnv_from(h1, s) == fnv_from(h2, s),
    ensures
        h1 == h2,
    decreases s.len(),
{
    if s.len() > 0 {
        lemma_fnv_from_injective(fnv_step(h1, s[0]), fnv_step(h2, s[0]), s.drop_first());
        lemma_fnv_step_injective(h1, h2, s[0]);
    }
}

/// From the same state, two sequences of the same length that differ in
/// exactly the byte at `i` fold to different states.
proof fn lemma_fnv_from_one_byte_diff(h: u64, s1: Seq<u8>, s2: Seq<u8>, i: int)
    requires
        s1.len() == s2.len(),
        0 <= i < s1.len(),
        s1[i] != s2[i],
        forall|j: int| 0 <= j < s1.len() && j != i ==> s1[j] == s2[j],
    ensures
        fnv_from(h, s1) != fnv_from(h, s2),
    decreases i,
{
    if i == 0 {
        lemma_fnv_step_separates(h, s1[0], s2[0]);
        assert(s1.drop_first() =~= s2.drop_first());
        if fnv_from(h, s1) == fnv_from(h, s2) {
            lemma_fnv_from_injective(fnv_step(h, s1[0]), fnv_step(h, s2[0]), s1.drop_first());
        }
    } else {
        assert(s1[0] == s2[0]);
        lemma_fnv_from_one_byte_diff(fnv_step(h, s1[0]), s1.drop_first(), s2.drop_first(), i - 1);
    }
}

/// Corruption detection: two byte sequences of the same length that differ
/// in exactly one byte — in particular, a buffer with a single flipped bit —
/// never share a checksum, so the corrupted bytes cannot decode silently.
pub proof fn lemma_checksum_detects_corruption(s1: Seq<u8>, s2: Seq<u8>, i: int)
    requires
        s1.len() == s2.len(),
        0 <= i < s1.len(),
        s1[i] != s2[i],
        forall|j: int| 0 <= j < s1.len() && j != i ==> s1[j] == s2[j],
    ensures
        checksum_of(s1) != checksum_of(s2),
{
    lemma_fnv_from_one_byte_diff(FNV_OFFSET, s1, s2, i);
}

} // verus!
