use vstd::prelude::*;

verus! {

use vstd::arithmetic::power2::pow2;
use vstd::arithmetic::power2::lemma2_to64;
use vstd::arithmetic::power2::lemma_pow2_unfold;

/// The floor of the base-two logarithm; zero below two.
pub open spec fn log2_floor(n: u64) -> u64
    decreases n,
{
    if n < 2 {
        0
    } else {
        (1 + log2_floor(n / 2)) as u64
    }
}

proof fn lemma_log2_floor_below_pow(n: u64, k: nat)
    requires
        (n as nat) < pow2(k + 1),
    ensures
        log2_floor(n) <= k,
    decreases n,
{
    if n >= 2 {
        lemma_pow2_unfold(k + 1);
        if k == 0 {
            assert(pow2(1) == 2) by {
                lemma2_to64();
            }
        } else {
            assert(((n / 2) as nat) < pow2(k));
            lemma_log2_floor_below_pow(n / 2, (k - 1) as nat);
        }
    }
}

pub proof fn lemma_log2_floor_bound(n: u64)
    ensures
        log2_floor(n) <= 63,
{
    assert(pow2(64) == 0x10000000000000000) by {
        lemma2_to64();
    }
    lemma_log2_floor_below_pow(n, 63);
}

/// Computes the floor of the base-two logarithm.
pub fn log2i(n: u64) -> (r: u64)
    ensures
        r == log2_floor(n),
        r <= 63,
{
    let mut value: u64 = n;
    let mut count: u64 = 0;
    proof {
        lemma_log2_floor_bound(n);
    }
    while value >= 2
        invariant
            count + log2_floor(value) == log2_floor(n),
            log2_floor(n) <= 63,
        decreases value,
    {
        proof {
            lemma_log2_floor_bound(value / 2);
            assert(log2_floor(value) == 1 + log2_floor(value / 2));
        }
        value = value / 2;
        count = count + 1;
    }
    count
}

/// The shifted logarithm `ln(e + x)` in thousandths, approximated over the
/// integers as `1000 + 693 * log2_floor(x + 1)`; exact in zero where the
/// value is one, and within a constant of the real curve elsewhere.  The
/// balance-factor heuristic and the Thompson sampler read it.
pub open spec fn lne_milli_model(x: u64) -> u64 {
    let shifted = if x == u64::MAX {
        x
    } else {
        (x + 1) as u64
    };
    (1000 + 693 * log2_floor(shifted)) as u64
}

/// Computes the shifted logarithm in thousandths.
pub fn lne_milli(x: u64) -> (r: u64)
    ensures
        r == lne_milli_model(x),
        1000 <= r <= 1000 + 693 * 63,
{
    let capped: u64 = if x == u64::MAX {
        x
    } else {
        x + 1
    };
    let l = log2i(capped);
    1000 + 693 * l
}

/// The floor of the square root.
pub open spec fn is_sqrt_floor(x: u128, r: u128) -> bool {
    r * r <= x && (r + 1) * (r + 1) > x
}

/// Computes the floor of the square root by binary search.
pub fn isqrt(x: u128) -> (r: u128)
    ensures
        is_sqrt_floor(x, r),
        r < 0x1_0000_0000_0000_0000u128,
{
    let mut low: u128 = 0;
    let mut high: u128 = 1 << 64u128;
    assert((1u128 << 64u128) == 0x1_0000_0000_0000_0000u128) by (bit_vector);
    while low + 1 < high
        invariant
            low < high,
            high <= 0x1_0000_0000_0000_0000u128,
            low * low <= x,
            high * high > x,
        decreases high - low,
    {
        let mid = low + (high - low) / 2;
        if mid <= u64::MAX as u128 {
            proof {
                assert(mid * mid <= u128::MAX) by (nonlinear_arith)
                    requires
                        mid <= 0xffff_ffff_ffff_ffffu128,
                ;
            }
            if mid * mid <= x {
                low = mid;
            } else {
                high = mid;
            }
        } else {
            proof {
                assert(mid * mid > x) by (nonlinear_arith)
                    requires
                        mid > 0xffff_ffff_ffff_ffffu128,
                        x <= u128::MAX,
                ;
            }
            high = mid;
        }
    }
    low
}

/// Clamps a wide intermediate value into the plain score range.
pub open spec fn clamp_i64_model(x: i128) -> i64 {
    if x > i64::MAX as i128 {
        i64::MAX
    } else if x < i64::MIN as i128 {
        i64::MIN
    } else {
        x as i64
    }
}

/// Clamps a wide intermediate value into the plain score range.
pub fn clamp_i64(x: i128) -> (r: i64)
    ensures
        r == clamp_i64_model(x),
{
    if x > i64::MAX as i128 {
        i64::MAX
    } else if x < i64::MIN as i128 {
        i64::MIN
    } else {
        x as i64
    }
}


/// The logarithm `ln(n)` in thousandths, approximated over the integers as
/// `693 * log2_floor(n)`; zero below two.
pub open spec fn ln_milli_model(n: u64) -> u64 {
    (693 * log2_floor(n)) as u64
}

/// Computes the plain logarithm in thousandths.
pub fn ln_milli(n: u64) -> (r: u64)
    ensures
        r == ln_milli_model(n),
        r <= 693 * 63,
{
    let l = log2i(n);
    693 * l
}

/// Addition on wide intermediates that sticks at the ends of the range.
pub open spec fn sat_add_i128_model(a: i128, b: i128) -> i128 {
    if a + b > i128::MAX {
        i128::MAX
    } else if a + b < i128::MIN {
        i128::MIN
    } else {
        (a + b) as i128
    }
}

/// Adds two wide intermediates, sticking at the ends of the range.
pub fn sat_add_i128(a: i128, b: i128) -> (r: i128)
    ensures
        r == sat_add_i128_model(a, b),
{
    match a.checked_add(b) {
        Some(v) => v,
        None => if b >= 0 {
            i128::MAX
        } else {
            i128::MIN
        },
    }
}

/// Subtraction on wide intermediates that sticks at the ends of the range.
pub open spec fn sat_sub_i128_model(a: i128, b: i128) -> i128 {
    if a - b > i128::MAX {
        i128::MAX
    } else if a - b < i128::MIN {
        i128::MIN
    } else {
        (a - b) as i128
    }
}

/// Subtracts two wide intermediates, sticking at the ends of the range.
pub fn sat_sub_i128(a: i128, b: i128) -> (r: i128)
    ensures
        r == sat_sub_i128_model(a, b),
{
    match a.checked_sub(b) {
        Some(v) => v,
        None => if b >= 0 {
            i128::MIN
        } else {
            i128::MAX
        },
    }
}

/// Multiplication on wide intermediates that sticks at the ends of the range.
pub open spec fn sat_mul_i128_model(a: i128, b: i128) -> i128 {
    if a * b > i128::MAX {
        i128::MAX
    } else if a * b < i128::MIN {
        i128::MIN
    } else {
        (a * b) as i128
    }
}

/// Multiplies two wide intermediates, sticking at the ends of the range.
pub fn sat_mul_i128(a: i128, b: i128) -> (r: i128)
    ensures
        r == sat_mul_i128_model(a, b),
{
    match a.checked_mul(b) {
        Some(v) => v,
        None => {
            proof {
                assert(a != 0 && b != 0);
                if (a > 0) == (b > 0) {
                    assert(a * b > 0) by (nonlinear_arith)
                        requires
                            a != 0,
                            b != 0,
                            (a > 0) == (b > 0),
                    ;
                } else {
                    assert(a * b < 0) by (nonlinear_arith)
                        requires
                            a != 0,
                            b != 0,
                            (a > 0) != (b > 0),
                    ;
                }
            }
            if (a > 0) == (b > 0) {
                i128::MAX
            } else {
                i128::MIN
            }
        },
    }
}


/// The absolute value of a wide intermediate, as a wide unsigned value.
pub open spec fn abs_u128(a: i128) -> u128 {
    if a >= 0 {
        a as u128
    } else {
        (-(a as int)) as u128
    }
}

/// Division of a wide intermediate by a positive divisor, rounded toward
/// zero, as the machine division does.
pub open spec fn tdiv_i128_model(a: i128, b: i128) -> i128 {
    let q = abs_u128(a) / (b as u128);
    if a >= 0 {
        q as i128
    } else {
        (-(q as int)) as i128
    }
}

/// Divides a wide intermediate by a positive divisor, rounding toward zero.
pub fn tdiv_i128(a: i128, b: i128) -> (r: i128)
    requires
        b > 0,
    ensures
        r == tdiv_i128_model(a, b),
{
    if a >= 0 {
        let q = (a as u128) / (b as u128);
        proof {
            assert(q <= a as u128) by (nonlinear_arith)
                requires
                    q == (a as u128) / (b as u128),
                    b as u128 >= 1,
            ;
        }
        q as i128
    } else {
        let mag: u128 = if a == i128::MIN {
            1u128 << 127u128
        } else {
            (-a) as u128
        };
        proof {
            assert((1u128 << 127u128) == 0x8000_0000_0000_0000_0000_0000_0000_0000u128)
                by (bit_vector);
            assert(mag == abs_u128(a));
        }
        let q = mag / (b as u128);
        proof {
            assert(q <= mag) by (nonlinear_arith)
                requires
                    q == mag / (b as u128),
                    b as u128 >= 1,
            ;
        }
        if q == 0 {
            0
        } else if q >= 0x8000_0000_0000_0000_0000_0000_0000_0000u128 {
            i128::MIN
        } else {
            -(q as i128)
        }
    }
}

} // verus!


