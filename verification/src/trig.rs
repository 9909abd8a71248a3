//! Integer angle arithmetic for the drawer's heading.
//!
//! Headings are whole degrees, normalised to `[0, 360)`, counterclockwise
//! positive, with `0` pointing along the positive x axis. The sine is held in
//! fixed point, scaled by 1000, and is defined by Bhaskara's rational
//! approximation, which is exact wherever the sine is 0, 1/2 or 1 (so at
//! 0, 30, 90, 150 and 180 degrees and their reflections) and within two
//! thousandths everywhere else.

use vstd::prelude::*;

verus! {

use vstd::arithmetic::div_mod::{
    lemma_fundamental_div_mod,
    lemma_fundamental_div_mod_converse,
    lemma_div_is_ordered,
    lemma_div_by_multiple,
    lemma_small_mod,
};

/// A heading in whole degrees, reduced to `[0, 360)`.
pub open spec fn norm_deg(h: int) -> int {
    h % 360
}

/// Bhaskara's sine approximation, scaled by 1000, for `0 <= d <= 180`:
/// `sin(d degrees) ~ 4 d (180 - d) / (40500 - d (180 - d))`.
pub open spec fn sin_half_milli(d: int) -> int {
    (4000 * d * (180 - d)) / (40500 - d * (180 - d))
}

/// Sine of a normalised heading, scaled by 1000.
pub open spec fn sin_milli_deg(h: int) -> int {
    if h <= 180 {
        sin_half_milli(h)
    } else {
        -sin_half_milli(h - 180)
    }
}

/// Cosine of a normalised heading, scaled by 1000.
pub open spec fn cos_milli_deg(h: int) -> int {
    sin_milli_deg(norm_deg(h + 90))
}

/// Reduces any heading to `[0, 360)`, agreeing with the mathematical
/// remainder also for negative headings.
pub fn norm_deg_i128(h: i128) -> (r: i64)
    ensures
        r as int == norm_deg(h as int),
        0 <= r < 360,
{
    if h >= 0 {
        let m: u128 = (h as u128) % 360;
        proof {
            lemma_small_mod((m as int) as nat, 360nat);
        }
        m as i64
    } else {
        let n: u128 = ((-(h + 1)) as u128) + 1;
        let q: u128 = n / 360;
        let m: u128 = n % 360;
        proof {
            lemma_fundamental_div_mod(n as int, 360);
            if m == 0 {
                lemma_fundamental_div_mod_converse(h as int, 360, -(q as int), 0);
            } else {
                lemma_fundamental_div_mod_converse(
                    h as int,
                    360,
                    -(q as int) - 1,
                    360 - (m as int),
                );
            }
        }
        if m == 0 {
            0
        } else {
            360 - (m as i64)
        }
    }
}

/// Bhaskara's approximation on `[0, 180]`, scaled by 1000.
fn sin_half_milli_exec(d: u64) -> (r: u64)
    requires
        d <= 180,
    ensures
        r as int == sin_half_milli(d as int),
        r <= 1000,
{
    proof {
        assert(d * (180 - d) <= 8100) by (nonlinear_arith)
            requires
                0 <= d <= 180,
        ;
    }
    let p: u64 = d * (180 - d);
    let num: u64 = 4000 * p;
    let den: u64 = 40500 - p;
    let r: u64 = num / den;
    proof {
        assert(4000 * (d as int) * (180 - (d as int)) == 4000 * ((d as int) * (180 - (d as int))))
            by (nonlinear_arith);
        lemma_div_is_ordered(num as int, 1000 * (den as int), den as int);
        lemma_div_by_multiple(1000, den as int);
    }
    r
}

/// Sine of a normalised heading, scaled by 1000.
pub fn sin_milli(h: i64) -> (r: i64)
    requires
        0 <= h < 360,
    ensures
        r as int == sin_milli_deg(h as int),
        -1000 <= r <= 1000,
{
    if h <= 180 {
        sin_half_milli_exec(h as u64) as i64
    } else {
        -(sin_half_milli_exec((h - 180) as u64) as i64)
    }
}

/// Cosine of a normalised heading, scaled by 1000.
pub fn cos_milli(h: i64) -> (r: i64)
    requires
        0 <= h < 360,
    ensures
        r as int == cos_milli_deg(h as int),
        -1000 <= r <= 1000,
{
    let h2: i64 = if h + 90 < 360 {
        h + 90
    } else {
        h + 90 - 360
    };
    proof {
        if h + 90 < 360 {
            lemma_small_mod((h + 90) as nat, 360nat);
        } else {
            lemma_fundamental_div_mod_converse(h + 90, 360, 1, h + 90 - 360);
        }
    }
    sin_milli(h2)
}

} // verus!
