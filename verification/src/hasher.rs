//! Deterministic 64-bit hashing of grid points (a splitmix64-style finalizer).

use vstd::prelude::*;

verus! {

/// Product of two words modulo 2^64 (`u64::wrapping_mul`).
pub open spec fn mul_mod64(a: u64, b: u64) -> u64 {
    ((a as nat * b as nat) % 0x1_0000_0000_0000_0000) as u64
}

/// The hash of grid point `(x, y)` under `seed`: the coordinates (sign-extended to 64
/// bits) are scaled by two odd constants and mixed with the seed, then run through two
/// xor-shift/multiply rounds and a final xor-shift.
pub open spec fn point_hash_spec(x: i32, y: i32, seed: u64) -> u64 {
    let n0 = mul_mod64(x as u64, 2654435761) ^ mul_mod64(y as u64, 2246822519) ^ seed;
    let n1 = mul_mod64(n0 ^ (n0 >> 30u64), 0xbf58476d1ce4e5b9);
    let n2 = mul_mod64(n1 ^ (n1 >> 27u64), 0x94d049bb133111eb);
    n2 ^ (n2 >> 31u64)
}

/// Hash of a grid point under a seed.
pub fn point_hash(x: i32, y: i32, seed: u64) -> (h: u64)
    ensures
        h == point_hash_spec(x, y, seed),
{
    let mut n: u64 = (x as u64).wrapping_mul(2654435761) ^ (y as u64).wrapping_mul(2246822519)
        ^ seed;
    n = (n ^ (n >> 30u64)).wrapping_mul(0xbf58476d1ce4e5b9);
    n = (n ^ (n >> 27u64)).wrapping_mul(0x94d049bb133111eb);
    n ^ (n >> 31u64)
}

} // verus!
