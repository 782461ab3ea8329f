//! Seeds for the per-pixel random generators.
//!
//! Each pixel is rendered by its own generator, seeded from the render seed
//! and the pixel's place in the image, so that a render is reproducible from
//! its seed and no two pixels share a sequence of draws.
use vstd::prelude::*;
use vstd::arithmetic::div_mod::{lemma_mul_mod_noop_left, lemma_mod_multiples_vanish};
use vstd::wrapping::u64_specs::{wrapping_add, wrapping_mul};

verus! {

/// Step between successive states of the seed sequence (an odd constant).
pub const GAMMA: u64 = 0x9E37_79B9_7F4A_7C15;

/// Multiplier of the first mixing round.
pub const MIX_A: u64 = 0xBF58_476D_1CE4_E5B9;

/// Multiplier of the second mixing round.
pub const MIX_B: u64 = 0x94D0_49BB_1331_11EB;

/// Inverse of `GAMMA` modulo 2^64.
const GAMMA_INV: u64 = 0xF1DE_83E1_9937_733D;

/// Inverse of `MIX_A` modulo 2^64.
const MIX_A_INV: u64 = 0x96DE_1B17_3F11_9089;

/// Inverse of `MIX_B` modulo 2^64.
const MIX_B_INV: u64 = 0x3196_42B2_D24D_8EC3;

/// The output function of the seed sequence: two xor-shift-multiply rounds
/// and a final xor-shift.
pub open spec fn mix(z: u64) -> u64 {
    let z1 = wrapping_mul(z ^ (z >> 30u64), MIX_A);
    let z2 = wrapping_mul(z1 ^ (z1 >> 27u64), MIX_B);
    z2 ^ (z2 >> 31u64)
}

/// Place of the pixel (`column`, `row`) when the rows of an image of the
/// given width are laid end to end.
pub open spec fn pixel_index(column: u32, row: u32, width: u32) -> int {
    row * width + column
}

/// The seed of the generator for the pixel (`column`, `row`).
pub open spec fn pixel_seed_of(seed: u64, column: u32, row: u32, width: u32) -> u64 {
    mix(wrapping_add(seed, wrapping_mul(pixel_index(column, row, width) as u64, GAMMA)))
}

/// Seed of the random generator that renders the pixel (`column`, `row`) of
/// an image `width` pixels wide, in the render seeded with `seed`.
pub fn pixel_seed(seed: u64, column: u32, row: u32, width: u32) -> (r: u64)
    ensures
        r == pixel_seed_of(seed, column, row, width),
{
    assert(row as int * width as int <= 0xFFFF_FFFFu64 as int * 0xFFFF_FFFFu64 as int)
        by (nonlinear_arith)
        requires
            row <= 0xFFFF_FFFFu32,
            width <= 0xFFFF_FFFFu32,
    ;
    let index: u64 = row as u64 * width as u64 + column as u64;
    let z = seed.wrapping_add(index.wrapping_mul(GAMMA));
    let z1 = (z ^ (z >> 30u64)).wrapping_mul(MIX_A);
    let z2 = (z1 ^ (z1 >> 27u64)).wrapping_mul(MIX_B);
    z2 ^ (z2 >> 31u64)
}

/// Multiplying by `c` modulo 2^64 is undone by multiplying by `c_inv` when
/// `c * c_inv` is one more than a multiple of 2^64.
proof fn lemma_mul_undone(x: u64, c: u64, c_inv: u64, k: int)
    requires
        c as int * c_inv as int == 1 + k * 0x1_0000_0000_0000_0000,
        k >= 0,
    ensures
        wrapping_mul(wrapping_mul(x, c), c_inv) == x,
{
    let m: int = 0x1_0000_0000_0000_0000;
    lemma_mul_mod_noop_left(x as int * c as int, c_inv as int, m);
    assert(x as int * c as int * c_inv as int == m * (x as int * k) + x as int)
        by (nonlinear_arith)
        requires
            c as int * c_inv as int == 1 + k * m,
    ;
    lemma_mod_multiples_vanish(x as int * k, x as int, m);
}

proof fn lemma_mix_injective(a: u64, b: u64)
    requires
        mix(a) == mix(b),
    ensures
        a == b,
{
    let a1 = wrapping_mul(a ^ (a >> 30u64), MIX_A);
    let b1 = wrapping_mul(b ^ (b >> 30u64), MIX_A);
    let a2 = wrapping_mul(a1 ^ (a1 >> 27u64), MIX_B);
    let b2 = wrapping_mul(b1 ^ (b1 >> 27u64), MIX_B);
    assert(a2 == b2) by (bit_vector)
        requires
            a2 ^ (a2 >> 31u64) == b2 ^ (b2 >> 31u64),
    ;
    lemma_mul_undone(a1 ^ (a1 >> 27u64), MIX_B, MIX_B_INV, 2077064247507883091);
    lemma_mul_undone(b1 ^ (b1 >> 27u64), MIX_B, MIX_B_INV, 2077064247507883091);
    assert(a1 == b1) by (bit_vector)
        requires
            a1 ^ (a1 >> 27u64) == b1 ^ (b1 >> 27u64),
    ;
    lemma_mul_undone(a ^ (a >> 30u64), MIX_A, MIX_A_INV, 8125545580553827436);
    lemma_mul_undone(b ^ (b >> 30u64), MIX_A, MIX_A_INV, 8125545580553827436);
    assert(a == b) by (bit_vector)
        requires
            a ^ (a >> 30u64) == b ^ (b >> 30u64),
    ;
}

/// In one render, distinct pixels of the image get distinct seeds.
pub proof fn lemma_pixel_seeds_distinct(
    seed: u64,
    width: u32,
    column1: u32,
    row1: u32,
    column2: u32,
    row2: u32,
)
    requires
        column1 < width,
        column2 < width,
        column1 != column2 || row1 != row2,
    ensures
        pixel_seed_of(seed, column1, row1, width) != pixel_seed_of(seed, column2, row2, width),
{
    let i1 = pixel_index(column1, row1, width);
    let i2 = pixel_index(column2, row2, width);
    assert(i1 != i2 && 0 <= i1 < 0x1_0000_0000_0000_0000 && 0 <= i2 < 0x1_0000_0000_0000_0000)
        by (nonlinear_arith)
        requires
            i1 == row1 * width + column1,
            i2 == row2 * width + column2,
            column1 < width,
            column2 < width,
            width <= 0xFFFF_FFFFu32,
            row1 <= 0xFFFF_FFFFu32,
            row2 <= 0xFFFF_FFFFu32,
            column1 != column2 || row1 != row2,
    ;
    let s1 = wrapping_add(seed, wrapping_mul(i1 as u64, GAMMA));
    let s2 = wrapping_add(seed, wrapping_mul(i2 as u64, GAMMA));
    if pixel_seed_of(seed, column1, row1, width) == pixel_seed_of(seed, column2, row2, width) {
        lemma_mix_injective(s1, s2);
        lemma_mul_undone(i1 as u64, GAMMA, GAMMA_INV, 10771413168148108919);
        lemma_mul_undone(i2 as u64, GAMMA, GAMMA_INV, 10771413168148108919);
    }
}

} // verus!
