//! The single-precision form in which a level file stores a coordinate.
//!
//! A single-precision pattern is a sign bit, eight bits of exponent and 23
//! bits of fraction. With exponent field `e` and fraction `f` it stands for
//! `(2^23 + f) * 2^(e - 150)`, negated where the sign bit is set. Every whole
//! number of the world has exactly one such pattern. A pattern that stands
//! for a number with a fraction is read as the whole number below it, so
//! that what is stored below zero stays below zero and off the grid.

use vstd::prelude::*;
use vstd::arithmetic::div_mod::{
    lemma_div_is_ordered,
    lemma_div_multiples_vanish,
    lemma_mod_multiples_basic,
};
use vstd::arithmetic::mul::{lemma_mul_inequality, lemma_mul_strict_inequality};
use vstd::arithmetic::power2::{
    lemma2_to64,
    lemma_pow2_adds,
    lemma_pow2_pos,
    lemma_pow2_strictly_increases,
    lemma_pow2_unfold,
    pow2,
};
use crate::geometry::{COORD_MAX, coord_in_world};
use crate::grid::{OFF_GRID, snap_coord};

verus! {

/// `2^23`: the value of the lowest exponent bit of a pattern, and the hidden
/// top bit of its significand.
pub const HIDDEN_BIT: u32 = 0x80_0000;

/// The sign bit of a pattern.
pub const SIGN_BIT: u32 = 0x8000_0000;

/// The exponent field of the patterns of the numbers from one up to two.
pub const EXPONENT_BIAS: u32 = 127;

/// The exponent field of the patterns whose significand counts whole units.
pub const UNIT_EXPONENT: u32 = 150;

/// The place of the highest bit that is set in `n`: the largest `k` with
/// `2^k <= n`.
pub open spec fn floor_log2(n: int) -> nat
    decreases n,
{
    if n < 2 {
        0
    } else {
        1 + floor_log2(n / 2)
    }
}

/// The exponent field of a pattern.
pub open spec fn exponent_field(bits: u32) -> int {
    ((bits / HIDDEN_BIT) % 256) as int
}

/// The fraction field of a pattern.
pub open spec fn fraction_field(bits: u32) -> int {
    (bits % HIDDEN_BIT) as int
}

/// The single-precision pattern of the whole number `v`: zero for zero, and
/// else the sign, the exponent of the highest bit of the magnitude, and the
/// magnitude's bits below the highest, moved up against the hidden bit.
pub open spec fn single_of_coord(v: int) -> u32
    recommends
        coord_in_world(v),
{
    let m = if v < 0 {
        -v
    } else {
        v
    };
    let sign = if v < 0 {
        SIGN_BIT as int
    } else {
        0
    };
    if m == 0 {
        0
    } else {
        let k = floor_log2(m);
        (sign + (EXPONENT_BIAS + k) * HIDDEN_BIT + ((m * HIDDEN_BIT) / (pow2(k) as int)
            - HIDDEN_BIT)) as u32
    }
}

/// The coordinate that a pattern stands for: its value rounded down to a
/// whole number and held to the world. So a value below zero, however
/// little, stands for a coordinate below zero. A pattern that is not a number
/// stands for zero.
pub open spec fn coord_of_single(bits: u32) -> int {
    let e = exponent_field(bits);
    let f = fraction_field(bits);
    let negative = bits >= SIGN_BIT;
    if e == 255 && f != 0 {
        0
    } else if e > UNIT_EXPONENT {
        if negative {
            -COORD_MAX
        } else {
            COORD_MAX as int
        }
    } else if e < EXPONENT_BIAS {
        // The magnitude is below one.
        if negative && (e != 0 || f != 0) {
            -1
        } else {
            0
        }
    } else {
        let unit = pow2((UNIT_EXPONENT - e) as nat) as int;
        let whole = (HIDDEN_BIT + f) / unit;
        if !negative {
            whole
        } else if (HIDDEN_BIT + f) % unit == 0 {
            -whole
        } else {
            -whole - 1
        }
    }
}

/// The highest bit of a number is the one whose value the number reaches
/// without reaching its double.
pub proof fn lemma_floor_log2(n: int, k: nat)
    requires
        pow2(k) <= n < 2 * pow2(k),
    ensures
        floor_log2(n) == k,
    decreases k,
{
    lemma2_to64();
    if k > 0 {
        lemma_pow2_unfold(k);
        lemma_floor_log2(n / 2, (k - 1) as nat);
    }
}

/// Every number from one on reaches the value of its highest bit and not the
/// double of it.
pub proof fn lemma_highest_bit(n: int)
    requires
        1 <= n,
    ensures
        pow2(floor_log2(n)) <= n < 2 * pow2(floor_log2(n)),
    decreases n,
{
    lemma2_to64();
    if n >= 2 {
        lemma_highest_bit(n / 2);
        lemma_pow2_unfold(floor_log2(n));
    }
}

/// The significand of a whole number of the world: the number's bits moved up
/// against the hidden bit. It lies from the hidden bit up to its double, and
/// moved down again it is the number.
pub proof fn lemma_significand(m: int)
    requires
        1 <= m <= COORD_MAX,
    ensures
        floor_log2(m) <= 24,
        HIDDEN_BIT <= (m * HIDDEN_BIT) / (pow2(floor_log2(m)) as int) < 2 * HIDDEN_BIT,
        floor_log2(m) <= 23 ==> ((m * HIDDEN_BIT) / (pow2(floor_log2(m)) as int)) / (pow2(
            (23 - floor_log2(m)) as nat,
        ) as int) == m,
        floor_log2(m) <= 23 ==> ((m * HIDDEN_BIT) / (pow2(floor_log2(m)) as int)) % (pow2(
            (23 - floor_log2(m)) as nat,
        ) as int) == 0,
        floor_log2(m) == 24 ==> m == COORD_MAX,
{
    let k = floor_log2(m);
    let p = pow2(k) as int;
    lemma2_to64();
    lemma_highest_bit(m);
    lemma_pow2_pos(k);
    if k > 24 {
        lemma_pow2_strictly_increases(24, k);
    }
    if k == 24 {
        assert(m * HIDDEN_BIT == p * HIDDEN_BIT);
        lemma_div_multiples_vanish(HIDDEN_BIT as int, p);
    } else {
        let up = pow2((23 - k) as nat) as int;
        lemma_pow2_pos((23 - k) as nat);
        lemma_pow2_adds((23 - k) as nat, k);
        assert(up * p == HIDDEN_BIT);
        assert(m * HIDDEN_BIT == p * (m * up)) by (nonlinear_arith)
            requires
                up * p == HIDDEN_BIT,
        ;
        lemma_div_multiples_vanish(m * up, p);
        assert(up * m == m * up) by (nonlinear_arith);
        lemma_div_multiples_vanish(m, up);
        lemma_mod_multiples_basic(m, up);
        lemma_mul_inequality(p, m, up);
        lemma_mul_strict_inequality(m, 2 * p, up);
        assert(p * up == up * p && (2 * p) * up == 2 * (up * p)) by (nonlinear_arith);
    }
}

/// A pattern that stands for a number below zero stands for a coordinate
/// below zero: the rounding never brings a negative value up to zero.
pub proof fn lemma_below_zero(bits: u32)
    requires
        bits > SIGN_BIT,
        !(exponent_field(bits) == 255 && fraction_field(bits) != 0),
    ensures
        coord_of_single(bits) <= -1,
{
    let e = exponent_field(bits);
    if EXPONENT_BIAS <= e <= UNIT_EXPONENT {
        let n = (UNIT_EXPONENT - e) as nat;
        lemma2_to64();
        lemma_pow2_pos(n);
        if n < 23 {
            lemma_pow2_strictly_increases(n, 23);
        }
        let unit = pow2(n) as int;
        let sig = HIDDEN_BIT + fraction_field(bits);
        lemma_div_is_ordered(unit, sig, unit);
        lemma_div_multiples_vanish(1, unit);
    }
}

/// What is stored below zero snaps off the grid, as every coordinate below
/// zero does.
pub proof fn lemma_below_zero_is_off_grid(bits: u32)
    requires
        bits > SIGN_BIT,
        !(exponent_field(bits) == 255 && fraction_field(bits) != 0),
    ensures
        snap_coord(coord_of_single(bits)) == OFF_GRID,
{
    lemma_below_zero(bits);
}

/// A coordinate of the world, stored and read back, is unchanged.
pub proof fn lemma_single_round_trip(v: int)
    requires
        coord_in_world(v),
    ensures
        coord_of_single(single_of_coord(v)) == v,
{
    let m = if v < 0 {
        -v
    } else {
        v
    };
    if m != 0 {
        lemma_significand(m);
    }
}

/// The value of bit `n`.
fn power_of_two(n: u32) -> (p: u32)
    requires
        n <= 24,
    ensures
        p == pow2(n as nat),
        1 <= p <= COORD_MAX,
{
    let mut p: u32 = 1;
    let mut i: u32 = 0;
    proof {
        lemma2_to64();
    }
    while i < n
        invariant
            i <= n <= 24,
            p == pow2(i as nat),
            pow2(24) == COORD_MAX,
        decreases n - i,
    {
        proof {
            lemma_pow2_unfold((i + 1) as nat);
            if i + 1 < 24 {
                lemma_pow2_strictly_increases((i + 1) as nat, 24);
            }
        }
        p = p * 2;
        i = i + 1;
    }
    proof {
        lemma_pow2_pos(n as nat);
        if n < 24 {
            lemma_pow2_strictly_increases(n as nat, 24);
        }
    }
    p
}

/// The place of the highest bit that is set in `m`.
fn highest_bit(m: u32) -> (k: u32)
    requires
        1 <= m <= COORD_MAX,
    ensures
        k == floor_log2(m as int),
        k <= 24,
{
    let mut k: u32 = 0;
    let mut p: u32 = 1;
    proof {
        lemma2_to64();
    }
    while p * 2 <= m
        invariant
            p == pow2(k as nat),
            1 <= p <= m <= COORD_MAX,
            pow2(24) == COORD_MAX,
            k <= 24,
        decreases m - p,
    {
        proof {
            lemma_pow2_unfold((k + 1) as nat);
            if k + 1 > 24 {
                lemma_pow2_strictly_increases(24, (k + 1) as nat);
            }
        }
        p = p * 2;
        k = k + 1;
    }
    proof {
        lemma_floor_log2(m as int, k as nat);
    }
    k
}

/// The single-precision pattern of the coordinate `v`.
pub fn coord_to_single(v: i32) -> (bits: u32)
    requires
        coord_in_world(v as int),
    ensures
        bits == single_of_coord(v as int),
{
    if v == 0 {
        return 0;
    }
    let m: u32 = if v < 0 {
        (-v) as u32
    } else {
        v as u32
    };
    let sign: u32 = if v < 0 {
        SIGN_BIT
    } else {
        0
    };
    let k = highest_bit(m);
    proof {
        lemma_significand(m as int);
    }
    let p = power_of_two(k);
    let sig = ((m as u64 * HIDDEN_BIT as u64) / p as u64) as u32;
    sign + (EXPONENT_BIAS + k) * HIDDEN_BIT + (sig - HIDDEN_BIT)
}

/// The coordinate that a single-precision pattern stands for.
pub fn coord_from_single(bits: u32) -> (v: i32)
    ensures
        v == coord_of_single(bits),
        coord_in_world(v as int),
{
    let e: u32 = (bits / HIDDEN_BIT) % 256;
    let frac: u32 = bits % HIDDEN_BIT;
    let negative = bits >= SIGN_BIT;
    if e == 255 && frac != 0 {
        0
    } else if e > UNIT_EXPONENT {
        if negative {
            -COORD_MAX
        } else {
            COORD_MAX
        }
    } else if e < EXPONENT_BIAS {
        if negative && (e != 0 || frac != 0) {
            -1
        } else {
            0
        }
    } else {
        let unit = power_of_two(UNIT_EXPONENT - e);
        let sig = HIDDEN_BIT + frac;
        let whole = (sig / unit) as i32;
        if !negative {
            whole
        } else if sig % unit == 0 {
            -whole
        } else {
            -whole - 1
        }
    }
}

} // verus!
