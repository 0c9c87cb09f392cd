//! Toroidal coordinates: wrapping an offset into range, and packing a
//! coordinate pair into one map key.

use vstd::arithmetic::div_mod::{
    lemma_fundamental_div_mod, lemma_fundamental_div_mod_converse, lemma_mod_multiples_vanish,
};
use vstd::prelude::*;

verus! {

/// The canonical coordinate of `x` on a ring of `m` slots: the one
/// value `r` in `[0, m)` with `x == k * m + r` for some integer `k`.
pub open spec fn wrap(x: int, m: int) -> int {
    x % m
}

/// Wrapping yields a value in range, leaves a value in range as it is,
/// and gives the same for inputs that differ by whole turns around the
/// ring.
pub proof fn lemma_wrap_periodic(x: int, m: int)
    requires
        m > 0,
    ensures
        0 <= wrap(x, m) < m,
        0 <= x < m ==> wrap(x, m) == x,
        wrap(x + m, m) == wrap(x, m),
        wrap(x - m, m) == wrap(x, m),
        wrap(x + 2 * m, m) == wrap(x, m),
{
    lemma_wrap_shift(x, m, 1);
    lemma_wrap_shift(x, m, -1);
    lemma_wrap_shift(x, m, 2);
    if 0 <= x < m {
        lemma_fundamental_div_mod_converse(x, m, 0, x);
    }
}

/// Shifting by any whole number of turns does not change the wrapped
/// coordinate.
pub proof fn lemma_wrap_shift(x: int, m: int, k: int)
    requires
        m > 0,
    ensures
        0 <= wrap(x, m) < m,
        wrap(x + k * m, m) == wrap(x, m),
{
    lemma_mod_multiples_vanish(k, x, m);
    assert(m * k + x == x + k * m) by (nonlinear_arith);
}

/// Wraps the offset `x` onto a ring of `m` slots.
pub fn wrap_coord(x: i64, m: u32) -> (r: u32)
    requires
        m > 0,
    ensures
        r == wrap(x as int, m as int),
        r < m,
{
    let modulus: u64 = m as u64;
    if x >= 0 {
        let r: u64 = (x as u64) % modulus;
        r as u32
    } else {
        // x == -(a + 1) with a >= 0, so x mod m == m - 1 - (a mod m).
        let a: u64 = (-(x + 1)) as u64;
        let q: u64 = a / modulus;
        let r: u64 = a % modulus;
        let wrapped: u64 = modulus - 1 - r;
        proof {
            assert(a == q * modulus + r) by {
                lemma_fundamental_div_mod(a as int, modulus as int);
                assert(modulus * q == q * modulus) by (nonlinear_arith);
            }
            assert(x as int == (-(q as int) - 1) * (m as int) + wrapped as int) by (nonlinear_arith)
                requires
                    a == q * modulus + r,
                    x == -(a + 1),
                    wrapped == modulus - 1 - r,
                    modulus == m,
            ;
            lemma_fundamental_div_mod_converse(
                x as int,
                m as int,
                -(q as int) - 1,
                wrapped as int,
            );
        }
        wrapped as u32
    }
}

/// One more than the largest coordinate a key can hold.
pub const COORD_SPAN: u64 = 0x1_0000_0000;

/// The map key of the slot at `(x, y)`.
pub open spec fn slot_key(x: int, y: int) -> int {
    x * 0x1_0000_0000 + y
}

/// Whether `(x, y)` is a coordinate pair that a key can hold.
pub open spec fn is_coord(x: int, y: int) -> bool {
    0 <= x < 0x1_0000_0000 && 0 <= y < 0x1_0000_0000
}

/// Packs a coordinate pair into its map key.
pub fn pack(x: u32, y: u32) -> (k: u64)
    ensures
        k == slot_key(x as int, y as int),
        key_x(k) == x,
        key_y(k) == y,
{
    (x as u64) * COORD_SPAN + (y as u64)
}

/// The column of the slot that `k` is the key of.
#[verifier::when_used_as_spec(spec_key_x)]
pub fn key_x(k: u64) -> (x: u32)
    ensures
        x == spec_key_x(k),
{
    (k / COORD_SPAN) as u32
}

/// The row of the slot that `k` is the key of.
#[verifier::when_used_as_spec(spec_key_y)]
pub fn key_y(k: u64) -> (y: u32)
    ensures
        y == spec_key_y(k),
{
    (k % COORD_SPAN) as u32
}

pub open spec fn spec_key_x(k: u64) -> u32 {
    (k / 0x1_0000_0000) as u32
}

pub open spec fn spec_key_y(k: u64) -> u32 {
    (k % 0x1_0000_0000) as u32
}

/// Packing is a bijection between coordinate pairs and keys.
pub proof fn lemma_key_roundtrip(k: u64)
    ensures
        slot_key(key_x(k) as int, key_y(k) as int) == k,
        is_coord(key_x(k) as int, key_y(k) as int),
{
}

} // verus!
