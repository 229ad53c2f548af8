//! A mixing function on region numbers and its inverse.

use vstd::prelude::*;

verus! {

/// How many slots region numbers are spread over.
pub const CACHED_REGION_INFO_SLOT_COUNT: usize = 256;

pub const MUL_A: u64 = 0xbf58476d1ce4e5b9;

pub const MUL_B: u64 = 0x94d049bb133111eb;

pub const INV_A: u64 = 0x96de1b173f119089;

pub const INV_B: u64 = 0x319642b2d24d8ec3;

pub open spec fn xor_shift(x: u64, n: u64) -> u64 {
    x ^ (x >> n)
}

/// The mixed value of a number: shifts and multiplications in turn.
pub open spec fn spec_hash_u64(x: u64) -> u64 {
    let a = xor_shift(x, 30).wrapping_mul(MUL_A);
    let b = xor_shift(a, 27).wrapping_mul(MUL_B);
    xor_shift(b, 31)
}

pub open spec fn spec_unhash_u64(x: u64) -> u64 {
    let a = (x ^ (x >> 31) ^ (x >> 62)).wrapping_mul(INV_B);
    let b = (a ^ (a >> 27) ^ (a >> 54)).wrapping_mul(INV_A);
    b ^ (b >> 30) ^ (b >> 60)
}

/// The slot of a region.
pub open spec fn spec_slot_index(id: u64) -> int {
    (spec_hash_u64(id) % 256) as int
}

/// Mixes the bits of a number.
pub fn hash_u64(i: u64) -> (r: u64)
    ensures
        r == spec_hash_u64(i),
{
    let a: u64 = (i ^ (i >> 30)).wrapping_mul(0xbf58476d1ce4e5b9);
    let b: u64 = (a ^ (a >> 27)).wrapping_mul(0x94d049bb133111eb);
    b ^ (b >> 31)
}

/// Undoes `hash_u64`.
pub fn unhash_u64(i: u64) -> (r: u64)
    ensures
        r == spec_unhash_u64(i),
{
    let a: u64 = (i ^ (i >> 31) ^ (i >> 62)).wrapping_mul(0x319642b2d24d8ec3);
    let b: u64 = (a ^ (a >> 27) ^ (a >> 54)).wrapping_mul(0x96de1b173f119089);
    b ^ (b >> 30) ^ (b >> 60)
}

/// The slot of a region.
pub fn slot_index(id: u64) -> (r: usize)
    ensures
        r == spec_slot_index(id),
        r < CACHED_REGION_INFO_SLOT_COUNT,
{
    let h: u64 = hash_u64(id);
    assert(h & 255 == h % 256) by (bit_vector);
    assert(h & 255 < 256) by (bit_vector);
    (h & 255) as usize
}

/// Multiplying by a number and then by its inverse changes nothing.
proof fn mul_inverse(x: u64, c: u64, d: u64, k: int)
    requires
        c * d == k * 0x1_0000_0000_0000_0000 + 1,
    ensures
        x.wrapping_mul(c).wrapping_mul(d) == x,
{
    let m: int = 0x1_0000_0000_0000_0000;
    let p = x * c;
    let y = x.wrapping_mul(c);
    assert(y == p % m);
    assert(y.wrapping_mul(d) == (y * d) % m);
    vstd::arithmetic::div_mod::lemma_mul_mod_noop_left(p, d as int, m);
    assert((y * d) % m == (p * d) % m);
    assert(p * d == x * (c * d)) by (nonlinear_arith)
        requires
            p == x * c,
    ;
    assert(p * d == m * (x * k) + x) by (nonlinear_arith)
        requires
            p * d == x * (c * d),
            c * d == k * m + 1,
    ;
    vstd::arithmetic::div_mod::lemma_mod_multiples_vanish(x * k, x as int, m);
    vstd::arithmetic::div_mod::lemma_small_mod(x as nat, m as nat);
}

proof fn shifts_inverse(x: u64)
    ensures
        xor_shift(x, 30) ^ (xor_shift(x, 30) >> 30) ^ (xor_shift(x, 30) >> 60) == x,
        xor_shift(x, 27) ^ (xor_shift(x, 27) >> 27) ^ (xor_shift(x, 27) >> 54) == x,
        xor_shift(x, 31) ^ (xor_shift(x, 31) >> 31) ^ (xor_shift(x, 31) >> 62) == x,
        xor_shift(x ^ (x >> 30) ^ (x >> 60), 30) == x,
        xor_shift(x ^ (x >> 27) ^ (x >> 54), 27) == x,
        xor_shift(x ^ (x >> 31) ^ (x >> 62), 31) == x,
{
    assert((x ^ (x >> 30)) ^ ((x ^ (x >> 30)) >> 30) ^ ((x ^ (x >> 30)) >> 60) == x) by (bit_vector);
    assert((x ^ (x >> 27)) ^ ((x ^ (x >> 27)) >> 27) ^ ((x ^ (x >> 27)) >> 54) == x) by (bit_vector);
    assert((x ^ (x >> 31)) ^ ((x ^ (x >> 31)) >> 31) ^ ((x ^ (x >> 31)) >> 62) == x) by (bit_vector);
    assert((x ^ (x >> 30) ^ (x >> 60)) ^ ((x ^ (x >> 30) ^ (x >> 60)) >> 30) == x) by (bit_vector);
    assert((x ^ (x >> 27) ^ (x >> 54)) ^ ((x ^ (x >> 27) ^ (x >> 54)) >> 27) == x) by (bit_vector);
    assert((x ^ (x >> 31) ^ (x >> 62)) ^ ((x ^ (x >> 31) ^ (x >> 62)) >> 31) == x) by (bit_vector);
}

/// `unhash_u64` undoes `hash_u64`, so no two numbers have the same mixed value.
pub proof fn unhash_undoes_hash(x: u64)
    ensures
        spec_unhash_u64(spec_hash_u64(x)) == x,
{
    let s = xor_shift(x, 30);
    let a = s.wrapping_mul(MUL_A);
    let t = xor_shift(a, 27);
    let b = t.wrapping_mul(MUL_B);
    shifts_inverse(b);
    mul_inverse(t, MUL_B, INV_B, 2077064247507883091);
    shifts_inverse(a);
    mul_inverse(s, MUL_A, INV_A, 8125545580553827436);
    shifts_inverse(x);
}

/// `hash_u64` undoes `unhash_u64`, so every number is a mixed value.
pub proof fn hash_undoes_unhash(x: u64)
    ensures
        spec_hash_u64(spec_unhash_u64(x)) == x,
{
    let s = x ^ (x >> 31) ^ (x >> 62);
    let a = s.wrapping_mul(INV_B);
    let t = a ^ (a >> 27) ^ (a >> 54);
    let b = t.wrapping_mul(INV_A);
    shifts_inverse(b);
    mul_inverse(t, INV_A, MUL_A, 8125545580553827436);
    shifts_inverse(a);
    mul_inverse(s, INV_B, MUL_B, 2077064247507883091);
    shifts_inverse(x);
}

} // verus!
