use vstd::arithmetic::div_mod::{
    lemma_basic_div, lemma_div_by_self, lemma_div_is_ordered, lemma_fundamental_div_mod,
    lemma_mod_division_less_than_divisor, lemma_multiply_divide_lt, lemma_small_mod,
};
use vstd::arithmetic::mul::lemma_mul_is_distributive_sub;
use vstd::arithmetic::power2::{
    lemma2_to64, lemma2_to64_rest, lemma_pow2_adds, lemma_pow2_pos, lemma_pow2_strictly_increases,
    pow2,
};
use vstd::prelude::*;
use vstd::relations::total_ordering;

verus! {

// Exact reasoning about 64-bit IEEE 754 bit patterns.  A float value is
// carried through this crate as its bit pattern; the fields below decode it
// per the IEEE 754 binary64 encoding: one sign bit, an 11-bit biased
// exponent, and a 52-bit fraction.  Everything here is pure integer
// arithmetic on the pattern, so ordering decisions and quantile positions
// are computed exactly, with no rounding and no floating-point hardware.
pub const F64_SIGN_BIT: u64 = 0x8000_0000_0000_0000;

/// The bit pattern of floating-point one.
pub const F64_ONE_BITS: u64 = 0x3FF0_0000_0000_0000;

/// The bit pattern of a positive infinity; anything above it (ignoring the
/// sign) is a NaN.
pub const F64_INF_BITS: u64 = 0x7FF0_0000_0000_0000;

/// 2^52, the weight of the lowest exponent bit.
pub const F64_FRAC_SIZE: u64 = 0x10_0000_0000_0000;

/// The bit pattern with the sign bit cleared.
pub open spec fn fb_abs(b: u64) -> u64 {
    if b >= F64_SIGN_BIT {
        (b - F64_SIGN_BIT) as u64
    } else {
        b
    }
}

/// The biased exponent field.
pub open spec fn fb_exp(b: u64) -> u64 {
    fb_abs(b) / F64_FRAC_SIZE
}

/// The fraction field.
pub open spec fn fb_frac(b: u64) -> u64 {
    fb_abs(b) % F64_FRAC_SIZE
}

// ---------------------------------------------------------------------------
// The IEEE 754 total order on bit patterns.
//
// For nonnegative patterns the encoding orders exactly as the integers do;
// negative patterns order in reverse.  Folding both halves into one strictly
// monotone integer key gives a total order that agrees with the numeric
// comparison on every pair of non-NaN values except that it also separates
// the two zeros and places every NaN at an end.
// ---------------------------------------------------------------------------
/// A strictly monotone integer key for the total order: negative patterns
/// map (reversed) below the nonnegative ones.
pub open spec fn fkey(b: u64) -> int {
    if b >= F64_SIGN_BIT {
        u64::MAX - b
    } else {
        b + F64_SIGN_BIT
    }
}

/// The total order itself.
pub open spec fn f64_le_total(a: u64, b: u64) -> bool {
    fkey(a) <= fkey(b)
}

/// The total order as a first-class relation, the shape the sorting
/// specifications take.
pub open spec fn f64_leq_fn() -> spec_fn(u64, u64) -> bool {
    |a: u64, b: u64| f64_le_total(a, b)
}

/// The key is injective, so the relation is a total ordering in the full
/// sense: reflexive, transitive, antisymmetric and strongly connected.
pub proof fn lemma_f64_leq_total_ordering()
    ensures
        total_ordering(f64_leq_fn()),
{
    let leq = f64_leq_fn();
    assert forall|a: u64| #[trigger] leq(a, a) by {}
    assert forall|a: u64, b: u64| #[trigger] leq(a, b) && #[trigger] leq(b, a) implies a == b by {
        assert(fkey(a) == fkey(b));
    }
    assert forall|a: u64, b: u64| #[trigger] leq(a, b) || #[trigger] leq(b, a) by {}
}

/// Compares two bit patterns in the total order.
pub fn le_f64_bits(a: u64, b: u64) -> (r: bool)
    ensures
        r == f64_le_total(a, b),
{
    let ka: u64 = if a >= F64_SIGN_BIT {
        u64::MAX - a
    } else {
        a + F64_SIGN_BIT
    };
    let kb: u64 = if b >= F64_SIGN_BIT {
        u64::MAX - b
    } else {
        b + F64_SIGN_BIT
    };
    ka <= kb
}

// ---------------------------------------------------------------------------
// Quantile levels.
//
// A quantile level is accepted exactly when its numeric value q satisfies
// 0 <= q < 1 under IEEE comparison: every nonnegative pattern below the
// pattern of one (NaNs and infinities lie above it), plus negative zero.
// A valid level decodes exactly to the rational m / 2^s.
// ---------------------------------------------------------------------------
pub open spec fn is_valid_quantile_bits(q: u64) -> bool {
    q < F64_ONE_BITS || q == F64_SIGN_BIT
}

/// Tests a quantile level for validity: `0.0 <= q < 1.0` on the encoded
/// values, rejecting NaN.
pub fn check_quantile_bits(q: u64) -> (r: bool)
    ensures
        r == is_valid_quantile_bits(q),
{
    q < F64_ONE_BITS || q == F64_SIGN_BIT
}

/// The integer numerator m of a valid level q == m / 2^s: the fraction
/// field, with the implicit leading bit added for normal numbers.
pub open spec fn q_mantissa(q: u64) -> int {
    if fb_exp(q) == 0 {
        fb_frac(q) as int
    } else {
        fb_frac(q) + F64_FRAC_SIZE
    }
}

/// The power-of-two denominator exponent s of a valid level q == m / 2^s.
pub open spec fn q_shift(q: u64) -> int {
    if fb_exp(q) == 0 {
        1074
    } else {
        1075 - fb_exp(q)
    }
}

pub open spec fn q_den(q: u64) -> int {
    pow2(q_shift(q) as nat) as int
}

/// Ceiling division for nonnegative a and positive b.
pub open spec fn ceil_div(a: int, b: int) -> int {
    (a + b - 1) / b
}

/// The nearest-rank position: ceil(q * n), computed exactly on the decoded
/// rational level.
pub open spec fn int_quantile_ceil(q: u64, n: int) -> int {
    ceil_div(q_mantissa(q) * n, q_den(q))
}

/// The nearest-rank index for an n-row column: ceil(q * n) - 1, with a
/// negative result treated as 0, clamped to n - 1.
pub open spec fn int_quantile_index(q: u64, n: int) -> int {
    let c = int_quantile_ceil(q, n);
    if c <= 0 {
        0
    } else if c - 1 >= n {
        n - 1
    } else {
        c - 1
    }
}

/// The interpolation position floor(q * (n - 1)), exact.
pub open spec fn float_lerp_lo(q: u64, n: int) -> int {
    q_mantissa(q) * (n - 1) / q_den(q)
}

/// The numerator of the fractional part of q * (n - 1): the position is
/// float_lerp_lo + float_lerp_frac_num / 2^q_shift.
pub open spec fn float_lerp_frac_num(q: u64, n: int) -> int {
    q_mantissa(q) * (n - 1) % q_den(q)
}

/// The interpolation position is exact: the integer part and the
/// fractional numerator recombine to precisely q * (n - 1), with the
/// numerator a proper fraction of the power-of-two denominator.
pub proof fn lemma_float_lerp_exact(q: u64, n: int)
    requires
        is_valid_quantile_bits(q),
        n >= 1,
    ensures
        q_mantissa(q) * (n - 1) == q_den(q) * float_lerp_lo(q, n) + float_lerp_frac_num(q, n),
        0 <= float_lerp_frac_num(q, n) < q_den(q),
{
    lemma_valid_q_decode(q);
    assert(q_mantissa(q) * (n - 1) >= 0) by (nonlinear_arith)
        requires
            q_mantissa(q) >= 0,
            n >= 1,
    ;
    let t = q_mantissa(q) * (n - 1);
    lemma_fundamental_div_mod(t, q_den(q));
    lemma_mod_division_less_than_divisor(t, q_den(q));
}

/// The nearest-rank position is an exact ceiling: the chosen position c
/// satisfies c * 2^s >= q_mantissa * n, and no smaller position does.
pub proof fn lemma_int_quantile_ceil_exact(q: u64, n: int)
    requires
        is_valid_quantile_bits(q),
        n >= 1,
    ensures
        q_den(q) * int_quantile_ceil(q, n) >= q_mantissa(q) * n,
        q_den(q) * (int_quantile_ceil(q, n) - 1) < q_mantissa(q) * n,
{
    lemma_valid_q_decode(q);
    assert(q_mantissa(q) * n >= 0) by (nonlinear_arith)
        requires
            q_mantissa(q) >= 0,
            n >= 1,
    ;
    let den = q_den(q);
    let t = q_mantissa(q) * n;
    let c = int_quantile_ceil(q, n);
    lemma_fundamental_div_mod(t + den - 1, den);
    lemma_mod_division_less_than_divisor(t + den - 1, den);
    lemma_mul_is_distributive_sub(den, c, 1);
}

proof fn lemma_valid_q_decode(q: u64)
    requires
        is_valid_quantile_bits(q),
    ensures
        0 <= q_mantissa(q) < pow2(53),
        53 <= q_shift(q) <= 1074,
        q_mantissa(q) < q_den(q),
        q_den(q) > 0,
{
    lemma2_to64();
    lemma2_to64_rest();
    assert(fb_exp(q) <= 1022);
    assert(q_mantissa(q) < pow2(53));
    lemma_pow2_pos(q_shift(q) as nat);
    if q_shift(q) == 53 {
        assert(q_mantissa(q) < q_den(q));
    } else {
        lemma_pow2_strictly_increases(53, q_shift(q) as nat);
    }
}

/// Decodes a valid quantile level into its exact numerator and
/// power-of-two denominator exponent.
fn decode_q(q: u64) -> (r: (u64, u32))
    requires
        is_valid_quantile_bits(q),
    ensures
        r.0 == q_mantissa(q),
        r.1 == q_shift(q),
        r.0 < 0x20_0000_0000_0000,
        53 <= r.1 <= 1074,
{
    proof {
        lemma_valid_q_decode(q);
        lemma2_to64_rest();
    }
    let abs: u64 = if q >= F64_SIGN_BIT {
        q - F64_SIGN_BIT
    } else {
        q
    };
    let exp: u64 = abs / F64_FRAC_SIZE;
    let frac: u64 = abs % F64_FRAC_SIZE;
    if exp == 0 {
        (frac, 1074)
    } else {
        (frac + F64_FRAC_SIZE, (1075 - exp) as u32)
    }
}

/// 2^s as a 128-bit integer.
fn pow2_u128(s: u32) -> (r: u128)
    requires
        s <= 120,
    ensures
        r == pow2(s as nat),
{
    proof {
        lemma2_to64();
    }
    let mut r: u128 = 1;
    let mut i: u32 = 0;
    while i < s
        invariant
            i <= s <= 120,
            r == pow2(i as nat),
        decreases s - i,
    {
        proof {
            lemma_pow2_strictly_increases(i as nat, 121);
            lemma_pow2_adds(64, 57);
            lemma_pow2_adds(64, 64);
            lemma2_to64();
            lemma2_to64_rest();
            assert(pow2(121) == pow2(64) * pow2(57));
            assert(pow2((i + 1) as nat) == pow2(i as nat) * pow2(1)) by {
                lemma_pow2_adds(i as nat, 1);
            }
        }
        r = r * 2;
        i = i + 1;
    }
    r
}

/// The product of the mantissa and a row count stays under 2^117.
proof fn lemma_mantissa_product_bound(m: int, n: int)
    requires
        0 <= m < pow2(53),
        0 <= n < pow2(64),
    ensures
        m * n < pow2(117),
        m * n < u128::MAX,
{
    lemma2_to64();
    lemma2_to64_rest();
    assert(m * n <= (pow2(53) - 1) * (pow2(64) - 1)) by (nonlinear_arith)
        requires
            0 <= m < pow2(53),
            0 <= n < pow2(64),
    ;
    assert((pow2(53) - 1) * (pow2(64) - 1) < pow2(53) * pow2(64)) by (nonlinear_arith)
        requires
            pow2(53) > 1,
            pow2(64) > 1,
    ;
    lemma_pow2_adds(53, 64);
    lemma_pow2_adds(64, 64);
    assert(pow2(117) < pow2(128)) by {
        lemma_pow2_strictly_increases(117, 128);
    }
}

/// Computes the exact nearest-rank index ceil(q * n) - 1 (negative treated
/// as 0, clamped to n - 1) for a valid quantile level.
pub fn quantile_index_int(q: u64, n: usize) -> (idx: usize)
    requires
        is_valid_quantile_bits(q),
        n >= 1,
    ensures
        idx == int_quantile_index(q, n as int),
        idx < n,
{
    proof {
        lemma_valid_q_decode(q);
        lemma2_to64();
        lemma2_to64_rest();
        lemma_pow2_adds(53, 64);
        lemma_mantissa_product_bound(q_mantissa(q), n as int);
    }
    let (m, s) = decode_q(q);
    let t: u128 = (m as u128) * (n as u128);
    let ghost den = q_den(q);
    let c: u128 = if s >= 117 {
        proof {
            lemma_pow2_pos(s as nat);
            if s > 117 {
                lemma_pow2_strictly_increases(117, s as nat);
            }
            assert(t < den);
            if t == 0 {
                assert((0 + den - 1) / den == 0) by {
                    lemma_basic_div(den - 1, den);
                }
            } else {
                assert(t + den - 1 < den * 2);
                assert((t + den - 1) / den == 1) by {
                    lemma_div_by_self(den);
                    lemma_div_is_ordered(den, t + den - 1, den);
                    lemma_multiply_divide_lt(t + den - 1, den, 2);
                }
            }
        }
        if t == 0 {
            0
        } else {
            1
        }
    } else {
        proof {
            lemma_pow2_pos(s as nat);
            if s < 117 {
                lemma_pow2_strictly_increases(s as nat, 117);
            }
            assert(den <= pow2(117));
            assert(pow2(117) + pow2(117) == pow2(118)) by {
                lemma_pow2_adds(117, 1);
                lemma2_to64();
            }
            assert(pow2(118) < pow2(64) * pow2(64)) by {
                lemma_pow2_adds(64, 64);
                lemma_pow2_strictly_increases(118, 128);
            }
        }
        let p = pow2_u128(s);
        (t + p - 1) / p
    };
    proof {
        // ceil(q * n) <= n, since m < 2^s
        assert(c == int_quantile_ceil(q, n as int));
        assert(t <= den * (n as int) - n) by (nonlinear_arith)
            requires
                t == q_mantissa(q) * (n as int),
                q_mantissa(q) <= den - 1,
                n >= 1,
        ;
        assert(t + den - 1 < den * (n + 1)) by (nonlinear_arith)
            requires
                den > 0,
                0 <= t,
                t <= den * (n as int) - n,
                n >= 1,
        ;
        lemma_multiply_divide_lt(t + den - 1, den, n + 1);
        assert(c <= n);
    }
    if c == 0 {
        0
    } else {
        let idx = (c - 1) as usize;
        if idx >= n {
            n - 1
        } else {
            idx
        }
    }
}

/// Computes the exact interpolation position q * (n - 1) for a valid
/// quantile level: the integer part and the fractional part as the exact
/// dyadic rational frac_num / 2^frac_log2.
pub fn float_lerp_pos(q: u64, n: usize) -> (r: (usize, u128, u32))
    requires
        is_valid_quantile_bits(q),
        n >= 1,
    ensures
        r.0 == float_lerp_lo(q, n as int),
        r.1 == float_lerp_frac_num(q, n as int),
        r.2 == q_shift(q),
        n == 1 ==> r.0 == 0,
        n >= 2 ==> r.0 < n - 1,
{
    proof {
        lemma2_to64();
        lemma2_to64_rest();
        lemma_valid_q_decode(q);
        lemma_mantissa_product_bound(q_mantissa(q), n - 1);
    }
    let (m, s) = decode_q(q);
    let t: u128 = (m as u128) * ((n - 1) as u128);
    let ghost den = q_den(q);
    proof {
        // the position is strictly below n - 1 (or zero when n is 1)
        lemma_pow2_pos(s as nat);
        if n == 1 {
            assert(((n - 1) as u128) == 0);
            assert(t == m * 0 == 0) by (nonlinear_arith)
                requires
                    t == (m as u128) * ((n - 1) as u128),
                    ((n - 1) as u128) == 0,
            ;
            lemma_basic_div(0, den);
            lemma_small_mod(0, den as nat);
        } else {
            assert(t < den * (n - 1)) by (nonlinear_arith)
                requires
                    t == q_mantissa(q) * (n - 1),
                    0 <= q_mantissa(q) < den,
                    n >= 2,
            ;
            lemma_multiply_divide_lt(t as int, den, n - 1);
        }
    }
    if s >= 117 {
        proof {
            lemma_pow2_pos(s as nat);
            if s > 117 {
                lemma_pow2_strictly_increases(117, s as nat);
            }
            assert(t < den);
            lemma_basic_div(t as int, den);
            lemma_small_mod(t as nat, den as nat);
        }
        (0, t, s)
    } else {
        let p = pow2_u128(s);
        proof {
            lemma_pow2_pos(s as nat);
        }
        let lo = t / p;
        let fr = t % p;
        proof {
            assert(p == den);
            if n == 1 {
                assert(lo == 0) by {
                    lemma_basic_div(0, den);
                }
            } else {
                assert(lo < n - 1) by {
                    lemma_multiply_divide_lt(t as int, den, n - 1);
                }
            }
        }
        ((lo as usize), fr, s)
    }
}

} // verus!
