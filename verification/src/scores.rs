//! Match scores.
//!
//! A score is an IEEE-754 double between 0 and 2, the value that the scoring
//! rules produce in `f64` arithmetic. It is kept exactly, as an integer count
//! of 2^-58 (every double of at least 2^-6 below 2 is such a count), and the
//! sums below round as `f64` addition rounds: to the nearest double, ties to
//! the even one. Decisions compare these exact values, so a gap of
//! `0.88 - 0.78` is below `0.10` here as it is in `f64`.
use vstd::prelude::*;

verus! {

/// 1.0 in score units (2^58).
pub const UNIT_ONE: u64 = 288230376151711744;

/// `0.99` as an `f64`, in score units.
pub const SCORE_099: u64 = 285348072390194624;

/// `0.98` as an `f64`, in score units.
pub const SCORE_098: u64 = 282465768628677504;

/// `0.9` as an `f64`, in score units.
pub const SCORE_090: u64 = 259407338536540576;

/// `0.88` as an `f64`, in score units.
pub const SCORE_088: u64 = 253642731013506336;

/// `0.86` as an `f64`, in score units.
pub const SCORE_086: u64 = 247878123490472096;

/// `0.78` as an `f64`, in score units.
pub const SCORE_078: u64 = 224819693398335168;

/// `0.72` as an `f64`, in score units.
pub const SCORE_072: u64 = 207525870829232448;

/// `0.70` as an `f64`, in score units.
pub const SCORE_070: u64 = 201761263306198208;

/// `0.68` as an `f64`, in score units.
pub const SCORE_068: u64 = 195996655783164000;

/// `0.58` as an `f64`, in score units.
pub const SCORE_058: u64 = 167173618167992800;

/// `0.55` as an `f64`, in score units.
pub const SCORE_055: u64 = 158526706883441472;

/// `0.15` as an `f64`, in score units.
pub const SCORE_015: u64 = 43234556422756760;

/// `0.12` as an `f64`, in score units.
pub const SCORE_012: u64 = 34587645138205408;

/// `0.10` as an `f64`, in score units.
pub const SCORE_010: u64 = 28823037615171176;

/// `0.05` as an `f64`, in score units.
pub const SCORE_005: u64 = 14411518807585588;

/// `0.03` as an `f64`, in score units.
pub const SCORE_003: u64 = 8646911284551352;

/// The distance between neighbouring doubles at `x` (in `[2^-6, 2)`), in
/// score units.
pub open spec fn ulp_at(x: int) -> int {
    if x < 0x20000000000000 {
        1
    } else if x < 0x40000000000000 {
        2
    } else if x < 0x80000000000000 {
        4
    } else if x < 0x100000000000000 {
        8
    } else if x < 0x200000000000000 {
        16
    } else if x < 0x400000000000000 {
        32
    } else {
        64
    }
}

/// `x` rounded to a multiple of `ulp`, to the nearest, ties to an even
/// multiple.
pub open spec fn round_even(x: int, ulp: int) -> int {
    let q = x / ulp;
    let r = x % ulp;
    if 2 * r > ulp {
        (q + 1) * ulp
    } else if 2 * r < ulp {
        q * ulp
    } else if q % 2 == 0 {
        q * ulp
    } else {
        (q + 1) * ulp
    }
}

/// `a + b` in `f64`.
pub open spec fn f64_add(a: int, b: int) -> int {
    round_even(a + b, ulp_at(a + b))
}

/// `n * a` in `f64`.
pub open spec fn f64_mul(n: int, a: int) -> int {
    round_even(n * a, ulp_at(n * a))
}

pub open spec fn min_units(a: int, b: int) -> int {
    if a <= b {
        a
    } else {
        b
    }
}

pub open spec fn max_units(a: int, b: int) -> int {
    if a >= b {
        a
    } else {
        b
    }
}

/// The score in hundredths, rounded to the nearest (the rounding that a
/// score gets when it is reported).
pub open spec fn hundredths(units: int) -> int {
    (units * 100 + 0x200000000000000) / 0x400000000000000
}

fn ulp_for(x: u64) -> (u: u64)
    ensures
        u == ulp_at(x as int),
        u == 1 || u == 2 || u == 4 || u == 8 || u == 16 || u == 32 || u == 64,
{
    if x < 0x20000000000000 {
        1
    } else if x < 0x40000000000000 {
        2
    } else if x < 0x80000000000000 {
        4
    } else if x < 0x100000000000000 {
        8
    } else if x < 0x200000000000000 {
        16
    } else if x < 0x400000000000000 {
        32
    } else {
        64
    }
}

fn round_to_even(x: u64, ulp: u64) -> (r: u64)
    requires
        x < 0x1000000000000000,
        1 <= ulp <= 64,
    ensures
        r == round_even(x as int, ulp as int),
{
    let q = x / ulp;
    let rem = x % ulp;
    proof {
        vstd::arithmetic::div_mod::lemma_fundamental_div_mod(x as int, ulp as int);
        assert(q * ulp <= x) by (nonlinear_arith)
            requires
                x == ulp * q + rem,
                rem >= 0,
        ;
        assert((q + 1) * ulp == q * ulp + ulp) by (nonlinear_arith);
    }
    if 2 * rem > ulp {
        (q + 1) * ulp
    } else if 2 * rem < ulp {
        q * ulp
    } else if q % 2 == 0 {
        q * ulp
    } else {
        (q + 1) * ulp
    }
}

/// `a + b` in `f64`, for scores below 2.
pub fn add_scores(a: u64, b: u64) -> (r: u64)
    requires
        a + b < 0x800000000000000,
    ensures
        r == f64_add(a as int, b as int),
{
    let s = a + b;
    let u = ulp_for(s);
    round_to_even(s, u)
}

/// `n * a` in `f64`, for small products.
pub fn mul_score(n: u64, a: u64) -> (r: u64)
    requires
        n <= 16,
        a < 0x100000000000000,
    ensures
        r == f64_mul(n as int, a as int),
{
    proof {
        assert(n * a < 0x1000000000000000) by (nonlinear_arith)
            requires
                n <= 16,
                a < 0x100000000000000,
        ;
    }
    let p = n * a;
    let u = ulp_for(p);
    round_to_even(p, u)
}

/// The score in hundredths.
pub fn score_hundredths(units: u64) -> (r: u32)
    requires
        units < 0x800000000000000,
    ensures
        r == hundredths(units as int),
{
    let wide: u128 = (units as u128) * 100 + 0x200000000000000;
    let h = wide / 0x400000000000000;
    proof {
        assert(h <= 200) by (nonlinear_arith)
            requires
                h == wide / 0x400000000000000,
                wide < 0x800000000000000 * 100 + 0x200000000000000,
        ;
    }
    h as u32
}

/// The score in hundredths, held at most `0.99`.
pub fn capped_hundredths(units: u64) -> (r: u32)
    ensures
        r == hundredths(if units <= SCORE_099 {
            units as int
        } else {
            SCORE_099 as int
        }),
{
    if units <= SCORE_099 {
        score_hundredths(units)
    } else {
        score_hundredths(SCORE_099)
    }
}

} // verus!
