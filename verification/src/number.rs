//! Numbers are IEEE-754 binary64 values, held as their 64-bit patterns:
//! one sign bit, eleven exponent bits, fifty-two fraction bits.
use vstd::arithmetic::div_mod::{lemma_div_multiples_vanish, lemma_fundamental_div_mod_converse};
use vstd::arithmetic::power2::*;
use vstd::prelude::*;

verus! {

/// 2^52: the weight of the lowest exponent bit, and the hidden bit of a normal number.
pub const FRACTION_UNIT: u64 = 4503599627370496;

/// 2^63: the sign bit.
pub const SIGN_UNIT: u64 = 9223372036854775808;

/// The pattern of `0.0`.
pub const ZERO: u64 = 0;

/// The pattern of `1.0`.
pub const ONE: u64 = 4607182418800017408;

/// The pattern of `1024.0`.
pub const LOOP_LIMIT: u64 = 4652218415073722368;

/// The largest index that a number can be truncated to.
pub const INDEX_MAX: u64 = 9223372036854775807;

pub open spec fn exponent_of(bits: u64) -> nat {
    ((bits / FRACTION_UNIT) % 2048) as nat
}

pub open spec fn fraction_of(bits: u64) -> nat {
    (bits % FRACTION_UNIT) as nat
}

pub open spec fn is_negative(bits: u64) -> bool {
    bits >= SIGN_UNIT
}

/// Not a number: all exponent bits set and a fraction that is not zero.
pub open spec fn is_nan(bits: u64) -> bool {
    exponent_of(bits) == 2047 && fraction_of(bits) != 0
}

/// Positive or negative zero.
pub open spec fn is_zero(bits: u64) -> bool {
    bits % SIGN_UNIT == 0
}

/// A number counts as true unless it is a zero.
pub open spec fn number_truthy(bits: u64) -> bool {
    !is_zero(bits)
}

/// Numeric equality: a NaN equals nothing, the two zeros equal each other.
pub open spec fn numbers_equal(a: u64, b: u64) -> bool {
    !is_nan(a) && !is_nan(b) && (a == b || (is_zero(a) && is_zero(b)))
}

/// Position of the highest set bit of `n`.
pub open spec fn floor_log2(n: nat) -> nat
    decreases n,
{
    if n <= 1 {
        0
    } else {
        1 + floor_log2(n / 2)
    }
}

/// The pattern of the number nearest to the natural `n`, ties going to the
/// even fraction. Exact for every `n` up to 2^53.
pub open spec fn number_of_nat(n: nat) -> int {
    if n == 0 {
        0
    } else {
        let p = floor_log2(n);
        if p <= 52 {
            (1023 + p) * pow2(52) + (n * pow2((52 - p) as nat) - pow2(52))
        } else {
            let unit = pow2((p - 52) as nat);
            let q = n / unit;
            let r = n % unit;
            let m = if 2 * r > unit || (2 * r == unit && q % 2 == 1) {
                q + 1
            } else {
                q
            };
            (1023 + p) * pow2(52) + (m - pow2(52))
        }
    }
}

/// The number truncated toward zero to an index: a NaN and every negative
/// number give 0, a number of 2^63 or more gives the largest index.
pub open spec fn index_of_number(bits: u64) -> nat {
    let e = exponent_of(bits);
    let m = pow2(52) + fraction_of(bits);
    if is_negative(bits) || e < 1023 || is_nan(bits) {
        0
    } else if e >= 1086 {
        INDEX_MAX as nat
    } else if e >= 1075 {
        m * pow2((e - 1075) as nat)
    } else {
        m / pow2((1075 - e) as nat)
    }
}

pub proof fn lemma_floor_log2(v: nat, p: nat)
    requires
        pow2(p) <= v < 2 * pow2(p),
    ensures
        floor_log2(v) == p,
    decreases p,
{
    lemma2_to64();
        lemma2_to64_rest();
    if p == 0 {
    } else {
        lemma_pow2_unfold(p);
        lemma_floor_log2(v / 2, (p - 1) as nat);
    }
}

pub fn is_nan_number(bits: u64) -> (r: bool)
    ensures
        r == is_nan(bits),
{
    (bits / FRACTION_UNIT) % 2048 == 2047 && bits % FRACTION_UNIT != 0
}

pub fn is_zero_number(bits: u64) -> (r: bool)
    ensures
        r == is_zero(bits),
{
    bits % SIGN_UNIT == 0
}

pub fn truthy_number(bits: u64) -> (r: bool)
    ensures
        r == number_truthy(bits),
{
    !is_zero_number(bits)
}

pub fn equal_numbers(a: u64, b: u64) -> (r: bool)
    ensures
        r == numbers_equal(a, b),
{
    !is_nan_number(a) && !is_nan_number(b) && (a == b || (is_zero_number(a) && is_zero_number(b)))
}

/// 2^e as a machine integer.
fn power_of_two(e: u64) -> (r: u64)
    requires
        e <= 63,
    ensures
        r == pow2(e as nat),
{
    let mut r: u64 = 1;
    let mut k: u64 = 0;
    proof {
        lemma2_to64();
        lemma2_to64_rest();
    }
    while k < e
        invariant
            k <= e <= 63,
            r == pow2(k as nat),
        decreases e - k,
    {
        proof {
            lemma_pow2_unfold((k + 1) as nat);
            lemma_pow2_strictly_increases((k + 1) as nat, 64);
            lemma2_to64();
        lemma2_to64_rest();
        }
        r = r * 2;
        k = k + 1;
    }
    r
}

/// The number that stands for a length.
pub fn number_from_length(n: usize) -> (bits: u64)
    ensures
        bits == number_of_nat(n as nat),
{
    if n == 0 {
        return 0;
    }
    let v: u64 = n as u64;
    let mut p: u64 = 0;
    let mut top: u64 = 1;
    proof {
        lemma2_to64();
        lemma2_to64_rest();
    }
    while top <= v / 2
        invariant
            1 <= top <= v,
            top == pow2(p as nat),
            p <= 63,
        decreases v - top,
    {
        proof {
            lemma_pow2_unfold((p + 1) as nat);
            lemma2_to64();
        lemma2_to64_rest();
            if p >= 63 {
                lemma_pow2_strictly_increases(63, (p + 1) as nat);
            }
        }
        top = top * 2;
        p = p + 1;
    }
    proof {
        lemma_floor_log2(v as nat, p as nat);
        lemma2_to64();
        lemma2_to64_rest();
    }
    if p <= 52 {
        let scale = power_of_two(52 - p);
        proof {
            lemma_pow2_adds(p as nat, (52 - p) as nat);
            lemma_pow2_pos((52 - p) as nat);
            assert(top * scale == pow2(52));
            assert(top * scale <= v * scale && v * scale < 2 * (top * scale)) by (nonlinear_arith)
                requires
                    top <= v < 2 * top,
                    scale >= 1,
            ;
        }
        let mantissa = v * scale;
        (1023 + p) * FRACTION_UNIT + (mantissa - FRACTION_UNIT)
    } else {
        let unit = power_of_two(p - 52);
        proof {
            lemma_pow2_adds((p - 52) as nat, 52);
            lemma_pow2_strictly_increases((p - 52) as nat, 12);
            lemma_pow2_pos((p - 52) as nat);
            assert(unit * pow2(52) == top);
            assert(pow2(52) <= v / unit < 2 * pow2(52)) by (nonlinear_arith)
                requires
                    unit * pow2(52) <= v < 2 * (unit * pow2(52)),
                    unit >= 1,
            ;
        }
        let q = v / unit;
        let r = v % unit;
        let half = unit / 2;
        proof {
            lemma_pow2_unfold((p - 52) as nat);
            assert(unit == 2 * half);
        }
        let up = r > half || (r == half && q % 2 == 1);
        let m = if up {
            q + 1
        } else {
            q
        };
        (1023 + p) * FRACTION_UNIT + (m - FRACTION_UNIT)
    }
}

/// The index that a number stands for.
pub fn index_from_number(bits: u64) -> (index: u64)
    ensures
        index == index_of_number(bits),
        index <= INDEX_MAX,
{
    let e = (bits / FRACTION_UNIT) % 2048;
    let m = FRACTION_UNIT + bits % FRACTION_UNIT;
    proof {
        lemma2_to64();
        lemma2_to64_rest();
    }
    if bits >= SIGN_UNIT || e < 1023 || is_nan_number(bits) {
        assert(index_of_number(bits) == 0);
        0
    } else if e >= 1086 {
        assert(index_of_number(bits) == INDEX_MAX);
        INDEX_MAX
    } else if e >= 1075 {
        let scale = power_of_two(e - 1075);
        proof {
            lemma_pow2_strictly_increases((e - 1075) as nat, 11);
            lemma_pow2_pos((e - 1075) as nat);
            assert(m * scale < 9007199254740992 * 1024) by (nonlinear_arith)
                requires
                    m < 9007199254740992,
                    scale <= 1024,
            ;
        }
        assert(index_of_number(bits) == m * scale) by {
            let sm = pow2(52) + fraction_of(bits);
            let sp = pow2((exponent_of(bits) - 1075) as nat);
            assert(sm * sp == m * scale) by (nonlinear_arith)
                requires
                    sm == m,
                    sp == scale,
            ;
        }
        m * scale
    } else {
        let scale = power_of_two(1075 - e);
        proof {
            lemma_pow2_pos((1075 - e) as nat);
        }
        assert(index_of_number(bits) == m / scale) by {
            let sm = pow2(52) + fraction_of(bits);
            let sp = pow2((1075 - exponent_of(bits)) as nat);
            assert(sm / sp == m / scale) by (nonlinear_arith)
                requires
                    sm == m,
                    sp == scale,
                    sp > 0,
            ;
        }
        m / scale
    }
}

/// The highest set bit of a positive number bounds it from both sides.
pub proof fn lemma_floor_log2_bounds(n: nat)
    requires
        n >= 1,
    ensures
        pow2(floor_log2(n)) <= n < 2 * pow2(floor_log2(n)),
    decreases n,
{
    lemma2_to64();
    if n > 1 {
        lemma_floor_log2_bounds(n / 2);
        lemma_pow2_unfold(floor_log2(n));
    }
}

/// Array coercion. A length up to 2^53 has an exact number: the number
/// that stands for the length truncates back to the length.
pub proof fn law_length_round_trip(n: nat)
    requires
        n <= pow2(53),
    ensures
        0 <= number_of_nat(n) < 0x1_0000_0000_0000_0000,
        index_of_number(number_of_nat(n) as u64) == n,
{
    lemma2_to64();
    lemma2_to64_rest();
    if n == 0 {
        assert(exponent_of(0u64) == 0);
        assert(index_of_number(0u64) == 0);
    } else {
        let p = floor_log2(n);
        lemma_floor_log2_bounds(n);
        if p > 53 {
            lemma_pow2_strictly_increases(53, p);
        }
        let unit = pow2(52);
        if p <= 52 {
            let scale = pow2((52 - p) as nat);
            lemma_pow2_pos((52 - p) as nat);
            lemma_pow2_adds(p, (52 - p) as nat);
            assert(pow2(p) * scale <= n * scale && n * scale < 2 * (pow2(p) * scale)) by (nonlinear_arith)
                requires
                    pow2(p) <= n < 2 * pow2(p),
                    scale >= 1,
            ;
            let fraction = n * scale - unit;
            let bits = (1023 + p) * unit + fraction;
            assert(number_of_nat(n) == bits);
            assert((1023 + p) * unit <= 1075 * unit) by (nonlinear_arith)
                requires
                    p <= 52,
                    unit > 0,
            ;
            lemma_fundamental_div_mod_converse(bits, unit as int, (1023 + p) as int, fraction);
            assert(exponent_of(bits as u64) == 1023 + p);
            assert(fraction_of(bits as u64) == fraction);
            if p == 52 {
                assert(scale == 1);
                assert((unit + fraction) * pow2(0) == n) by (nonlinear_arith)
                    requires
                        unit + fraction == n * scale,
                        scale == 1,
                        pow2(0) == 1,
                ;
            } else {
                lemma_div_multiples_vanish(n as int, scale as int);
                assert(n * scale == scale * n) by (nonlinear_arith);
                assert((unit + fraction) / (scale as int) == n);
                assert(pow2((1075 - exponent_of(bits as u64)) as nat) == scale);
            }
            assert(!is_negative(bits as u64));
            assert(index_of_number(bits as u64) == n);
        } else {
            assert(p == 53);
            assert(n == pow2(53));
            let bits = 1076 * unit;
            assert(pow2(1) == 2);
            assert(number_of_nat(n) == bits);
            lemma_fundamental_div_mod_converse(bits as int, unit as int, 1076, 0);
            assert(exponent_of(bits as u64) == 1076);
            assert(fraction_of(bits as u64) == 0);
            assert(pow2((1076 - 1075) as nat) == 2);
            assert(index_of_number(bits as u64) == n);
        }
    }
}

} // verus!
