//! The integer hash and the bit arithmetic that turns it into storage offsets.

use vstd::prelude::*;

verus! {

/// The odd 32-bit multiplier of the first mixing step.
pub const MULTIPLIER: u64 = 0x9E3779B9;

/// Product of two 64-bit words, reduced modulo 2^64.
pub open spec fn mul_mod64(x: u64, y: u64) -> u64 {
    ((x as nat * y as nat) % 0x1_0000_0000_0000_0000) as u64
}

/// The mixed hash of a key: the key times the multiplier, then that product
/// times its own bits above the low sixteen, both modulo 2^64.
pub open spec fn scramble_spec(k: u64) -> u64 {
    let hash = mul_mod64(k, MULTIPLIER);
    mul_mod64(hash, hash >> 16)
}

/// The slot at which the probe sequence of `k` starts, in a table whose slot
/// count is `probe_mask + 1`.
pub open spec fn home_slot(k: u64, probe_mask: u64) -> int {
    (scramble_spec(k) & probe_mask) as int
}

/// Whether `d` is a power of two.
pub open spec fn is_pow2(d: u64) -> bool {
    d > 0 && d & ((d - 1) as u64) == 0
}

/// Mixes the bits of a key with two wrapping multiplications.
pub fn scramble(k: u64) -> (r: u64)
    ensures
        r == scramble_spec(k),
{
    let hash: u64 = k.wrapping_mul(MULTIPLIER);
    hash.wrapping_mul(hash >> 16)
}

/// A probe sequence starts inside the table.
pub proof fn lemma_home_in_range(k: u64, probe_mask: u64)
    ensures
        0 <= home_slot(k, probe_mask) <= probe_mask,
{
    let x = scramble_spec(k);
    assert(x & probe_mask <= probe_mask) by (bit_vector);
}

/// The word offset of the slot at which the probe sequence of `k` starts.
pub fn slot_offset(k: u64, probe_mask: u64) -> (w: u64)
    requires
        probe_mask < 0x8000_0000_0000_0000,
    ensures
        w == 2 * home_slot(k, probe_mask),
        home_slot(k, probe_mask) <= probe_mask,
{
    let x: u64 = scramble(k);
    let h: u64 = x & probe_mask;
    assert(h <= probe_mask) by (bit_vector)
        requires
            h == x & probe_mask,
    ;
    assert(h << 1 == 2 * h) by (bit_vector)
        requires
            h < 0x8000_0000_0000_0000,
    ;
    h << 1
}

/// The word offset of the slot after the one at `w`, wrapping at `len`.
pub fn next_offset(w: u64, len: u64) -> (r: u64)
    requires
        is_pow2(len),
        len >= 2,
        w < len,
        w % 2 == 0,
    ensures
        r == (if w + 2 == len { 0 } else { w + 2 }),
        w + 2 <= len,
{
    assert(w <= len - 2 && ((w + 2) as u64) & ((len - 1) as u64) == (if w + 2 == len { 0 } else { (w + 2) as u64 })) by (bit_vector)
        requires
            len > 0 && len & ((len - 1) as u64) == 0,
            len >= 2,
            w < len,
            w % 2 == 0,
    ;
    (w + 2) & (len - 1)
}

/// Twice a power of two is a power of two.
pub proof fn lemma_pow2_double(d: u64)
    requires
        is_pow2(d),
        d < 0x8000_0000_0000_0000,
    ensures
        is_pow2((2 * d) as u64),
{
    assert(((2 * d) as u64) > 0 && ((2 * d) as u64) & ((((2 * d) as u64) - 1) as u64) == 0) by (bit_vector)
        requires
            d > 0 && d & ((d - 1) as u64) == 0,
            d < 0x8000_0000_0000_0000,
    ;
}

/// Half of a power of two greater than one is a power of two.
pub proof fn lemma_pow2_half(d: u64)
    requires
        is_pow2(d),
        d >= 2,
    ensures
        d % 2 == 0,
        is_pow2(d / 2),
{
    assert(d % 2 == 0 && d / 2 > 0 && (d / 2) & (((d / 2) - 1) as u64) == 0) by (bit_vector)
        requires
            d > 0 && d & ((d - 1) as u64) == 0,
            d >= 2,
    ;
}

} // verus!
