//! Fixed-point roots: the one inexact step of the scaling algebra.
//!
//! A scaling step of the form `x ^ (rd / rn)` on the fixed-point grid
//! (values scaled by `SCALE`) has in general an irrational exact result.
//! It is defined here as the exact result rounded down to the grid:
//! `scaled_root(x, rn, rd)` is the unique `y >= 0` with
//! `y^rn * SCALE^(rd - rn) <= x^rd <= ...` — precisely, with both sides
//! cleared of negative exponents,
//! `pw(y, rn) * spw(rd - rn) <= pw(x, rd) * spw(rn - rd) < pw(y + 1, rn) * spw(rd - rn)`
//! where negative pads count as zero. The executable search finds that `y`
//! by binary search with overflow-checked comparisons.

use vstd::prelude::*;

use crate::rational::SCALE;

verus! {

/// `b ^ e` for exponents between one and three (unrolled so that proofs
/// need no recursion fuel).
pub open spec fn pw(b: int, e: int) -> int {
    if e <= 1 {
        b
    } else if e == 2 {
        b * b
    } else {
        b * b * b
    }
}

/// `SCALE ^ a` for pads between zero and two.
pub open spec fn spw(a: int) -> int {
    if a <= 0 {
        1
    } else if a == 1 {
        SCALE as int
    } else {
        (SCALE as int) * (SCALE as int)
    }
}

/// The exponent surplus of `rn` over `rd`, floored at zero.
pub open spec fn exp_pad(rn: int, rd: int) -> int {
    if rn >= rd {
        rn - rd
    } else {
        0
    }
}

/// Characterizes `y` as `x ^ (rd / rn)` on the fixed-point grid, rounded
/// down: `y` is the largest integer with
/// `y^rn <= x^rd * SCALE^(rn - rd)` (negative exponents cleared by
/// multiplying the other side).
pub open spec fn is_scaled_root(x: int, rn: int, rd: int, y: int) -> bool {
    &&& y >= 0
    &&& pw(y, rn) * spw(exp_pad(rd, rn)) <= pw(x, rd) * spw(exp_pad(rn, rd))
    &&& pw(x, rd) * spw(exp_pad(rn, rd)) < pw(y + 1, rn) * spw(exp_pad(rd, rn))
}

/// The `y` characterized by `is_scaled_root`; unique by
/// `lemma_scaled_root_unique`.
pub open spec fn scaled_root(x: int, rn: int, rd: int) -> int {
    choose|y: int| is_scaled_root(x, rn, rd, y)
}

/// `pw` is monotone in the base over the non-negative integers.
pub proof fn lemma_pw_base_le(a: int, b: int, e: int)
    by (nonlinear_arith)
    requires
        0 <= a <= b,
        1 <= e <= 3,
    ensures
        pw(a, e) <= pw(b, e),
{
}

/// A base of at least one is no larger than its power.
pub proof fn lemma_pw_ge_base(b: int, e: int)
    by (nonlinear_arith)
    requires
        b >= 0,
        1 <= e <= 3,
    ensures
        pw(b, e) >= b,
        pw(b, e) >= 0,
{
}

/// Multiplying both sides of an inequality by a non-negative factor.
proof fn lemma_mul_le_mono(a: int, b: int, m: int)
    by (nonlinear_arith)
    requires
        a <= b,
        m >= 0,
    ensures
        a * m <= b * m,
{
}

/// A product of a non-negative number with a factor of at least one is at
/// least the number.
proof fn lemma_mul_ge_one(a: int, m: int)
    by (nonlinear_arith)
    requires
        a >= 0,
        m >= 1,
    ensures
        a * m >= a,
        a * m >= 0,
{
}

/// The characterization pins `y` down uniquely.
pub proof fn lemma_scaled_root_unique(x: int, rn: int, rd: int, y1: int, y2: int)
    requires
        1 <= rn <= 3,
        1 <= rd <= 3,
        x >= 0,
        is_scaled_root(x, rn, rd, y1),
        is_scaled_root(x, rn, rd, y2),
    ensures
        y1 == y2,
{
    let a = exp_pad(rd, rn);
    let b = exp_pad(rn, rd);
    if y1 < y2 {
        lemma_pw_base_le(y1 + 1, y2, rn);
        lemma_mul_le_mono(pw(y1 + 1, rn), pw(y2, rn), spw(a));
        assert(false);
    }
    if y2 < y1 {
        lemma_pw_base_le(y2 + 1, y1, rn);
        lemma_mul_le_mono(pw(y2 + 1, rn), pw(y1, rn), spw(a));
        assert(false);
    }
}

/// `SCALE ^ a` for pads between zero and two.
fn spw_exec(a: u32) -> (r: u128)
    requires
        a <= 2,
    ensures
        r == spw(a as int),
        1 <= r,
{
    proof {
        assert(SCALE == 10000int);
    }
    if a == 0 {
        1
    } else if a == 1 {
        SCALE as u128
    } else {
        proof {
            assert(spw(2) == 100_000_000int);
        }
        100_000_000u128
    }
}

/// `b ^ e` for exponents between one and three, or nothing when the result
/// leaves 128 bits.
fn pw_checked(b: u128, e: u32) -> (r: Option<u128>)
    requires
        1 <= e <= 3,
    ensures
        r is Some ==> r->Some_0 == pw(b as int, e as int),
        r is None ==> pw(b as int, e as int) > u128::MAX,
{
    if e == 1 {
        Some(b)
    } else if e == 2 {
        b.checked_mul(b)
    } else {
        match b.checked_mul(b) {
            Some(sq) => {
                let r = sq.checked_mul(b);
                proof {
                    if r is None {
                        assert(sq * b > u128::MAX);
                    }
                }
                r
            },
            None => {
                proof {
                    assert(b * b > u128::MAX);
                    assert(b >= 2) by (nonlinear_arith)
                        requires
                            b * b > u128::MAX,
                    ;
                    assert(b * b * b >= b * b) by (nonlinear_arith)
                        requires
                            b >= 2,
                    ;
                }
                None
            },
        }
    }
}

/// Decides `pw(y, rn) * spw(a) <= x_cap` without overflowing.
fn root_fits(y: u128, rn: u32, a: u32, x_cap: u128) -> (r: bool)
    requires
        1 <= rn <= 3,
        a <= 2,
    ensures
        r == (pw(y as int, rn as int) * spw(a as int) <= x_cap),
{
    match pw_checked(y, rn) {
        Some(p) => {
            match p.checked_mul(spw_exec(a)) {
                Some(q) => q <= x_cap,
                None => {
                    proof {
                        assert(p * spw(a as int) > u128::MAX >= x_cap);
                    }
                    false
                },
            }
        },
        None => {
            proof {
                lemma_mul_ge_one(pw(y as int, rn as int), spw(a as int));
            }
            false
        },
    }
}

/// Finds the scaled root of `x` by binary search.
///
/// The precondition bounds `x^rd` (with its pad) strictly below `u128::MAX`
/// so that the search interval and the checked comparisons fit.
pub fn scaled_root_exec(x: u128, rn: u32, rd: u32) -> (y: u128)
    requires
        1 <= rn <= 3,
        1 <= rd <= 3,
        pw(x as int, rd as int) * spw(exp_pad(rn as int, rd as int)) < u128::MAX,
    ensures
        is_scaled_root(x as int, rn as int, rd as int, y as int),
        y == scaled_root(x as int, rn as int, rd as int),
        y <= pw(x as int, rd as int) * spw(exp_pad(rn as int, rd as int)),
{
    let ghost rni = rn as int;
    let ghost rdi = rd as int;
    let ghost a = exp_pad(rdi, rni);
    let ghost b = exp_pad(rni, rdi);
    let pad_b: u32 = if rn >= rd {
        rn - rd
    } else {
        0
    };
    let pad_a: u32 = if rd >= rn {
        rd - rn
    } else {
        0
    };
    proof {
        lemma_mul_ge_one(pw(x as int, rdi), spw(b));
        lemma_pw_ge_base(x as int, rdi);
    }
    let px: u128 = match pw_checked(x, rd) {
        Some(p) => p,
        None => {
            proof {
                assert(false);
            }
            0
        },
    };
    let x_cap: u128 = match px.checked_mul(spw_exec(pad_b)) {
        Some(q) => q,
        None => {
            proof {
                assert(false);
            }
            0
        },
    };
    let mut lo: u128 = 0;
    let mut hi: u128 = x_cap + 1;
    proof {
        assert(pw(0int, rni) == 0);
        assert(pw(0int, rni) * spw(a) == 0) by (nonlinear_arith);
        lemma_pw_ge_base(hi as int, rni);
        lemma_mul_ge_one(pw(hi as int, rni), spw(a));
    }
    while hi - lo > 1
        invariant
            1 <= rni <= 3,
            1 <= rdi <= 3,
            rn == rni,
            rd == rdi,
            a == exp_pad(rdi, rni),
            pad_a == a,
            x_cap == pw(x as int, rdi) * spw(b),
            b == exp_pad(rni, rdi),
            lo < hi <= x_cap + 1,
            pw(lo as int, rni) * spw(a) <= x_cap,
            pw(hi as int, rni) * spw(a) > x_cap,
        decreases hi - lo,
    {
        let mid: u128 = lo + (hi - lo) / 2;
        if root_fits(mid, rn, pad_a, x_cap) {
            lo = mid;
        } else {
            hi = mid;
        }
    }
    proof {
        assert(hi == lo + 1);
        assert(is_scaled_root(x as int, rni, rdi, lo as int));
        lemma_mul_ge_one(pw(lo as int, rni), spw(a));
        lemma_pw_ge_base(lo as int, rni);
        let w = scaled_root(x as int, rni, rdi);
        assert(is_scaled_root(x as int, rni, rdi, w)) by {
            assert(is_scaled_root(x as int, rni, rdi, lo as int));
        }
        lemma_scaled_root_unique(x as int, rni, rdi, w, lo as int);
    }
    lo
}

} // verus!
