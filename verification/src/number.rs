//! Double-precision numbers brought to other types: rounded to integers, and
//! narrowed to single precision. A number is given by its IEEE 754 bit pattern:
//! one sign bit, eleven exponent bits, fifty-two fraction bits.

use vstd::prelude::*;
use vstd::arithmetic::power2::{
    lemma2_to64,
    lemma2_to64_rest,
    lemma_pow2_adds,
    lemma_pow2_pos,
    lemma_pow2_strictly_increases,
    pow2,
};
use vstd::bits::{lemma_u64_pow2_no_overflow, lemma_u64_shl_is_mul, lemma_u64_shr_is_div};

verus! {

/// Whether the sign bit is set.
pub open spec fn is_negative(bits: u64) -> bool {
    bits >= 0x8000_0000_0000_0000
}

/// The exponent bits, as a number.
pub open spec fn biased_exponent(bits: u64) -> nat {
    ((bits / 0x10_0000_0000_0000) % 0x800) as nat
}

/// The fraction bits, as a number.
pub open spec fn fraction(bits: u64) -> nat {
    (bits % 0x10_0000_0000_0000) as nat
}

/// Whether the pattern is that of no number.
pub open spec fn is_nan(bits: u64) -> bool {
    biased_exponent(bits) == 0x7ff && fraction(bits) != 0
}

/// Whether the pattern is that of an infinity.
pub open spec fn is_infinite(bits: u64) -> bool {
    biased_exponent(bits) == 0x7ff && fraction(bits) == 0
}

/// The digits of a finite number: its magnitude is `significand * 2^exponent`.
pub open spec fn significand(bits: u64) -> nat {
    if biased_exponent(bits) == 0 {
        fraction(bits)
    } else {
        0x10_0000_0000_0000 + fraction(bits)
    }
}

/// The scale of a finite number: its magnitude is `significand * 2^exponent`.
pub open spec fn exponent(bits: u64) -> int {
    if biased_exponent(bits) == 0 {
        -1074
    } else {
        biased_exponent(bits) - 1075
    }
}

/// The integer nearest to `m * 2^e`; of two that are equally near, the larger.
pub open spec fn round_scaled(m: nat, e: int) -> nat {
    if e >= 0 {
        m * pow2(e as nat)
    } else {
        (m + pow2((-e - 1) as nat)) / pow2((-e) as nat)
    }
}

/// The magnitude of a finite number, rounded to the nearest integer, halves
/// away from zero.
pub open spec fn rounded_magnitude(bits: u64) -> nat {
    round_scaled(significand(bits), exponent(bits))
}

/// The value in a range that is nearest to a given one.
pub open spec fn clamp(v: int, lo: int, hi: int) -> int {
    if v < lo {
        lo
    } else if v > hi {
        hi
    } else {
        v
    }
}

/// A number rounded to the nearest integer, halves away from zero, and then
/// brought into a range of integers: a value beyond the range gives the end of
/// the range on its side, and what is no number gives zero.
pub open spec fn round_to_range(bits: u64, lo: int, hi: int) -> int {
    if is_nan(bits) {
        0
    } else if is_infinite(bits) {
        if is_negative(bits) {
            lo
        } else {
            hi
        }
    } else if is_negative(bits) {
        clamp(-rounded_magnitude(bits), lo, hi)
    } else {
        clamp(rounded_magnitude(bits) as int, lo, hi)
    }
}

/// The magnitude of a double, in units of `2^-1074`. That of an infinity is
/// taken as if its exponent bits were those of a number.
pub open spec fn double_magnitude(bits: u64) -> nat {
    if biased_exponent(bits) == 0 {
        fraction(bits)
    } else {
        significand(bits) * pow2((biased_exponent(bits) - 1) as nat)
    }
}

/// The largest single-precision pattern that is a magnitude: that of infinity.
pub open spec fn single_infinity() -> nat {
    0x7f80_0000
}

/// The magnitude of a single-precision pattern whose sign bit is clear, in
/// units of `2^-149`. The patterns are in the order of their magnitudes, and
/// that of infinity is taken as if its exponent bits were those of a number.
pub open spec fn single_magnitude(pattern: nat) -> nat {
    let e = pattern / 0x80_0000;
    let f = pattern % 0x80_0000;
    if e == 0 {
        f
    } else {
        (0x80_0000 + f) * pow2((e - 1) as nat)
    }
}

/// Twice the magnitude halfway between those of a pattern and of the next,
/// in units of `2^-1074`.
pub open spec fn twice_midpoint(pattern: nat) -> nat {
    (single_magnitude(pattern) + single_magnitude(pattern + 1)) * pow2(925)
}

/// Whether a single-precision pattern, its sign bit clear, is the one whose
/// magnitude is nearest to that of a double; of two that are equally near, the
/// even pattern is the nearest. A magnitude from halfway between the largest
/// single and two to the 128th on has infinity as its nearest.
pub open spec fn is_nearest_single(bits: u64, pattern: nat) -> bool {
    let twice = 2 * double_magnitude(bits);
    &&& pattern <= single_infinity()
    &&& pattern > 0 ==> twice > twice_midpoint((pattern - 1) as nat) || (twice == twice_midpoint(
        (pattern - 1) as nat,
    ) && pattern % 2 == 0)
    &&& pattern < single_infinity() ==> twice < twice_midpoint(pattern) || (twice
        == twice_midpoint(pattern) && pattern % 2 == 0)
}

/// The single-precision pattern that a double narrows to. A number keeps its
/// sign and goes to the nearest single. What is no number becomes the quiet
/// pattern of no number, with the sign it had.
pub open spec fn narrow(bits: u64) -> u32 {
    let sign: nat = if is_negative(bits) {
        0x8000_0000
    } else {
        0
    };
    if is_nan(bits) {
        (sign + 0x7fc0_0000) as u32
    } else {
        (sign + choose|pattern: nat| is_nearest_single(bits, pattern)) as u32
    }
}

/// The growth of the magnitude from one single-precision pattern to the next,
/// in units of `2^-149`.
pub open spec fn single_step(pattern: nat) -> nat {
    if pattern / 0x80_0000 == 0 {
        1
    } else {
        pow2((pattern / 0x80_0000 - 1) as nat)
    }
}

/// A number without its `k` lowest binary digits, rounded to the nearest on
/// what they held; where they held exactly a half, to the even one.
pub open spec fn round_half_even(x: nat, k: nat) -> nat {
    let q = x / pow2(k);
    let r = x % pow2(k);
    let half = pow2((k - 1) as nat);
    if r > half || (r == half && q % 2 == 1) {
        q + 1
    } else {
        q
    }
}

/// The rounded magnitude of a number, as far as it fits: the largest value of
/// the result type stands for every magnitude beyond it.
fn saturated_magnitude(bits: u64) -> (r: u128)
    requires
        !is_nan(bits),
    ensures
        is_infinite(bits) ==> r == u128::MAX,
        !is_infinite(bits) ==> r == clamp(rounded_magnitude(bits) as int, 0, u128::MAX as int),
{
    let e: u64 = (bits >> 52) & 0x7ff;
    let f: u64 = bits & 0xf_ffff_ffff_ffff;
    proof {
        assert((bits >> 52) & 0x7ff == (bits / 0x10_0000_0000_0000) % 0x800) by (bit_vector);
        assert(bits & 0xf_ffff_ffff_ffff == bits % 0x10_0000_0000_0000) by (bit_vector);
        lemma2_to64();
        lemma2_to64_rest();
    }
    if e == 0x7ff {
        u128::MAX
    } else if e == 0 {
        proof {
            lemma_pow2_strictly_increases(52, 1073);
            lemma_pow2_adds(1073, 1);
            lemma_small_quotient(f as nat + pow2(1073), pow2(1074));
        }
        0
    } else {
        let m: u64 = f + 0x10_0000_0000_0000;
        if e >= 1075 {
            let s: u64 = e - 1075;
            if s >= 76 {
                proof {
                    lemma_pow2_adds(64, 64);
                    lemma_pow2_adds(52, 76);
                    if s > 76 {
                        lemma_pow2_strictly_increases(76, s as nat);
                    }
                    lemma_product_grows(pow2(52), m as nat, pow2(76), pow2(s as nat));
                }
                u128::MAX
            } else {
                let low: u64 = if s < 63 {
                    s
                } else {
                    63
                };
                let high: u64 = s - low;
                let p1: u64 = 1u64 << low;
                let p2: u64 = 1u64 << high;
                proof {
                    lemma_u64_pow2_no_overflow(low as nat);
                    lemma_u64_pow2_no_overflow(high as nat);
                    lemma_u64_shl_is_mul(1, low);
                    lemma_u64_shl_is_mul(1, high);
                    lemma_pow2_adds(low as nat, high as nat);
                    lemma_pow2_adds(64, 64);
                    lemma_pow2_adds(53, 75);
                    if s < 75 {
                        lemma_pow2_strictly_increases(s as nat, 75);
                    }
                    lemma_pow2_pos(high as nat);
                    lemma_product_stays_below(m as nat, pow2(53), pow2(s as nat), pow2(75));
                    lemma_product_splits(m as nat, p1 as nat, p2 as nat);
                }
                (m as u128) * (p1 as u128) * (p2 as u128)
            }
        } else {
            let k: u64 = 1075 - e;
            if k > 53 {
                proof {
                    if k > 54 {
                        lemma_pow2_strictly_increases(53, (k - 1) as nat);
                    }
                    lemma_pow2_adds((k - 1) as nat, 1);
                    lemma_small_quotient(m as nat + pow2((k - 1) as nat), pow2(k as nat));
                }
                0
            } else {
                let half: u64 = 1u64 << (k - 1);
                proof {
                    lemma_u64_pow2_no_overflow((k - 1) as nat);
                    lemma_u64_shl_is_mul(1, (k - 1) as u64);
                    if k < 53 {
                        lemma_pow2_strictly_increases((k - 1) as nat, 52);
                    }
                    lemma_u64_shr_is_div((m + half) as u64, k);
                }
                ((m + half) >> k) as u128
            }
        }
    }
}

/// Rounds a number into a range of signed integers.
fn round_signed(bits: u64, lo: i128, hi: i128) -> (r: i128)
    requires
        lo <= 0 <= hi,
    ensures
        r == round_to_range(bits, lo as int, hi as int),
{
    if is_nan_bits(bits) {
        return 0;
    }
    let magnitude = saturated_magnitude(bits);
    if bits >= 0x8000_0000_0000_0000 {
        if magnitude > i128::MAX as u128 {
            lo
        } else {
            let v: i128 = -(magnitude as i128);
            if v < lo {
                lo
            } else {
                v
            }
        }
    } else {
        if magnitude > hi as u128 {
            hi
        } else {
            magnitude as i128
        }
    }
}

/// Rounds a number into a range of unsigned integers that starts at zero.
fn round_unsigned(bits: u64, hi: u128) -> (r: u128)
    ensures
        r == round_to_range(bits, 0, hi as int),
{
    if is_nan_bits(bits) {
        return 0;
    }
    let magnitude = saturated_magnitude(bits);
    if bits >= 0x8000_0000_0000_0000 {
        0
    } else if magnitude > hi {
        hi
    } else {
        magnitude
    }
}

/// Whether a bit pattern is that of no number.
pub fn is_nan_bits(bits: u64) -> (r: bool)
    ensures
        r == is_nan(bits),
{
    proof {
        assert((bits >> 52) & 0x7ff == (bits / 0x10_0000_0000_0000) % 0x800) by (bit_vector);
        assert(bits & 0xf_ffff_ffff_ffff == bits % 0x10_0000_0000_0000) by (bit_vector);
    }
    (bits >> 52) & 0x7ff == 0x7ff && bits & 0xf_ffff_ffff_ffff != 0
}

/// Rounds a number to the nearest `i8`.
pub fn round_to_i8(bits: u64) -> (r: i8)
    ensures
        r == round_to_range(bits, i8::MIN as int, i8::MAX as int),
{
    round_signed(bits, i8::MIN as i128, i8::MAX as i128) as i8
}

/// Rounds a number to the nearest `i16`.
pub fn round_to_i16(bits: u64) -> (r: i16)
    ensures
        r == round_to_range(bits, i16::MIN as int, i16::MAX as int),
{
    round_signed(bits, i16::MIN as i128, i16::MAX as i128) as i16
}

/// Rounds a number to the nearest `i32`.
pub fn round_to_i32(bits: u64) -> (r: i32)
    ensures
        r == round_to_range(bits, i32::MIN as int, i32::MAX as int),
{
    round_signed(bits, i32::MIN as i128, i32::MAX as i128) as i32
}

/// Rounds a number to the nearest `i64`.
pub fn round_to_i64(bits: u64) -> (r: i64)
    ensures
        r == round_to_range(bits, i64::MIN as int, i64::MAX as int),
{
    round_signed(bits, i64::MIN as i128, i64::MAX as i128) as i64
}

/// Rounds a number to the nearest `i128`.
pub fn round_to_i128(bits: u64) -> (r: i128)
    ensures
        r == round_to_range(bits, i128::MIN as int, i128::MAX as int),
{
    round_signed(bits, i128::MIN as i128, i128::MAX as i128) as i128
}

/// Rounds a number to the nearest `u8`.
pub fn round_to_u8(bits: u64) -> (r: u8)
    ensures
        r == round_to_range(bits, 0, u8::MAX as int),
{
    round_unsigned(bits, u8::MAX as u128) as u8
}

/// Rounds a number to the nearest `u16`.
pub fn round_to_u16(bits: u64) -> (r: u16)
    ensures
        r == round_to_range(bits, 0, u16::MAX as int),
{
    round_unsigned(bits, u16::MAX as u128) as u16
}

/// Rounds a number to the nearest `u32`.
pub fn round_to_u32(bits: u64) -> (r: u32)
    ensures
        r == round_to_range(bits, 0, u32::MAX as int),
{
    round_unsigned(bits, u32::MAX as u128) as u32
}

/// Rounds a number to the nearest `u64`.
pub fn round_to_u64(bits: u64) -> (r: u64)
    ensures
        r == round_to_range(bits, 0, u64::MAX as int),
{
    round_unsigned(bits, u64::MAX as u128) as u64
}

/// Rounds a number to the nearest `u128`.
pub fn round_to_u128(bits: u64) -> (r: u128)
    ensures
        r == round_to_range(bits, 0, u128::MAX as int),
{
    round_unsigned(bits, u128::MAX as u128) as u128
}

/// Drops the `k` lowest binary digits of a number and rounds on what they
/// held.
fn round_shift(x: u64, k: u64) -> (n: u64)
    requires
        1 <= k <= 53,
        x < 0x8000_0000_0000_0000,
    ensures
        n == round_half_even(x as nat, k as nat),
{
    let q: u64 = x >> k;
    proof {
        lemma_u64_shr_is_div(x, k);
        lemma_pow2_pos(k as nat);
        lemma_u64_pow2_no_overflow(k as nat);
        lemma_u64_pow2_no_overflow((k - 1) as nat);
        vstd::arithmetic::div_mod::lemma_fundamental_div_mod(x as int, pow2(k as nat) as int);
        vstd::arithmetic::div_mod::lemma_mod_bound(x as int, pow2(k as nat) as int);
        assert(q * pow2(k as nat) == pow2(k as nat) * q) by (nonlinear_arith);
        lemma_u64_shl_is_mul(q, k);
        lemma_u64_shl_is_mul(1, (k - 1) as u64);
        lemma_pow2_adds((k - 1) as nat, 1);
        lemma2_to64();
        let p = pow2(k as nat) as int;
        let r = x as int % p;
        assert(q < 0x4000_0000_0000_0000) by (nonlinear_arith)
            requires
                x == p * q + r,
                r >= 0,
                p >= 2,
                x < 0x8000_0000_0000_0000,
        ;
    }
    let low: u64 = x - (q << k);
    let half: u64 = 1u64 << (k - 1);
    if low > half || (low == half && q % 2 == 1) {
        q + 1
    } else {
        q
    }
}

/// Narrows a double to single precision: to the nearest single, and of two
/// that are equally near to the even one.
pub fn narrow_to_single(bits: u64) -> (r: u32)
    ensures
        r == narrow(bits),
{
    let magnitude: u64 = bits & 0x7fff_ffff_ffff_ffff;
    let sign: u32 = if bits >= 0x8000_0000_0000_0000 {
        0x8000_0000
    } else {
        0
    };
    proof {
        assert(bits & 0x7fff_ffff_ffff_ffff == bits % 0x8000_0000_0000_0000) by (bit_vector);
        assert(magnitude / 0x10_0000_0000_0000 == biased_exponent(bits));
        assert(magnitude % 0x10_0000_0000_0000 == fraction(bits));
    }
    if magnitude > 0x7ff0_0000_0000_0000 {
        return sign + 0x7fc0_0000;
    }
    let pattern: u32 = if magnitude >= 0x47f0_0000_0000_0000 {
        proof {
            lemma_infinite_single(bits);
        }
        0x7f80_0000
    } else if magnitude >= 0x3810_0000_0000_0000 {
        let rounded = round_shift(magnitude - 0x3800_0000_0000_0000, 29);
        proof {
            lemma_normal_single(bits);
        }
        rounded as u32
    } else if magnitude >= 0x3690_0000_0000_0000 {
        proof {
            assert(magnitude >> 52 == magnitude / 0x10_0000_0000_0000) by (bit_vector);
            assert(magnitude & 0xf_ffff_ffff_ffff == magnitude % 0x10_0000_0000_0000)
                by (bit_vector);
        }
        let e: u64 = magnitude >> 52;
        let m: u64 = (magnitude & 0xf_ffff_ffff_ffff) + 0x10_0000_0000_0000;
        let rounded = round_shift(m, 926 - e);
        proof {
            lemma_small_single(bits);
        }
        rounded as u32
    } else {
        proof {
            lemma_zero_single(bits);
        }
        0
    };
    proof {
        lemma_nearest_single_is_unique(
            bits,
            pattern as nat,
            choose|nearest: nat| is_nearest_single(bits, nearest),
        );
    }
    sign + pattern
}

/// The magnitudes of the single-precision patterns grow from each to the next.
proof fn lemma_single_step(pattern: nat)
    ensures
        single_magnitude(pattern + 1) == single_magnitude(pattern) + single_step(pattern),
        single_step(pattern) > 0,
{
    let e = pattern / 0x80_0000;
    let f = pattern % 0x80_0000;
    lemma2_to64();
    if e > 0 {
        lemma_pow2_pos((e - 1) as nat);
    }
    if f + 1 < 0x80_0000 {
        assert((pattern + 1) / 0x80_0000 == e);
        assert((pattern + 1) % 0x80_0000 == f + 1);
        if e > 0 {
            let p = pow2((e - 1) as nat);
            assert((0x80_0000 + (f + 1)) * p == (0x80_0000 + f) * p + p) by (nonlinear_arith);
        }
    } else {
        assert((pattern + 1) / 0x80_0000 == e + 1);
        assert((pattern + 1) % 0x80_0000 == 0);
        assert(single_magnitude(pattern + 1) == (0x80_0000 + 0) * pow2(e));
        if e > 0 {
            let p = pow2((e - 1) as nat);
            lemma_pow2_adds((e - 1) as nat, 1);
            assert(pow2(e) == p * 2);
            assert((0x80_0000 + 0) * (p * 2) == (0x80_0000 + f) * p + p) by (nonlinear_arith)
                requires
                    f == 0x7f_ffff,
            ;
        } else {
            assert((0x80_0000 + 0) * pow2(0) == 0x80_0000);
        }
    }
}

/// The midpoints between neighbouring single-precision magnitudes grow too.
proof fn lemma_midpoints_grow(a: nat, b: nat)
    requires
        a < b,
    ensures
        twice_midpoint(a) < twice_midpoint(b),
    decreases b - a,
{
    lemma_pow2_pos(925);
    let unit = pow2(925);
    lemma_single_step(b);
    lemma_single_step((b - 1) as nat);
    let x = single_magnitude((b - 1) as nat);
    let y = single_magnitude(b);
    let z = single_magnitude(b + 1);
    assert((x + y) * unit < (y + z) * unit) by (nonlinear_arith)
        requires
            x < y < z,
            unit > 0,
    ;
    if a + 1 < b {
        lemma_midpoints_grow(a, (b - 1) as nat);
    }
}

/// No double has two nearest singles.
pub proof fn lemma_nearest_single_is_unique(bits: u64, first: nat, second: nat)
    requires
        is_nearest_single(bits, first),
        is_nearest_single(bits, second),
    ensures
        first == second,
{
    if first < second {
        if first + 1 < second {
            lemma_midpoints_grow(first, (second - 1) as nat);
        }
    } else if second < first {
        if second + 1 < first {
            lemma_midpoints_grow(second, (first - 1) as nat);
        }
    }
}

/// Rounding to the nearest, halves to even, finds the nearest single: where
/// the magnitude of a double lies between those of a pattern and of the next,
/// as far above the first as `x` is above a multiple of `2^k`, the rounded
/// pattern is the nearest.
proof fn lemma_rounding_is_nearest(bits: u64, x: nat, k: nat, unit: nat)
    requires
        k >= 1,
        unit > 0,
        x / pow2(k) < single_infinity(),
        double_magnitude(bits) == single_magnitude(x / pow2(k)) * pow2(925) + (x % pow2(k))
            * unit,
        single_step(x / pow2(k)) * pow2(925) == pow2(k) * unit,
    ensures
        is_nearest_single(bits, round_half_even(x, k)),
{
    let q = x / pow2(k);
    let r = x % pow2(k);
    let half = pow2((k - 1) as nat);
    let scale = pow2(925);
    let d = double_magnitude(bits);
    lemma_pow2_pos(k);
    lemma_pow2_pos(925);
    lemma_pow2_adds((k - 1) as nat, 1);
    lemma2_to64();
    vstd::arithmetic::div_mod::lemma_mod_bound(x as int, pow2(k) as int);
    lemma_single_step(q);
    lemma_single_step(q + 1);
    let below = single_magnitude(q);
    let step = single_step(q);
    let above = single_magnitude(q + 1);
    let beyond = single_magnitude(q + 2);
    assert(twice_midpoint(q) == 2 * (below * scale) + (half * 2) * unit) by (nonlinear_arith)
        requires
            twice_midpoint(q) == (below + above) * scale,
            above == below + step,
            step * scale == (half * 2) * unit,
    ;
    assert(2 * d == 2 * (below * scale) + (2 * r) * unit) by (nonlinear_arith)
        requires
            d == below * scale + r * unit,
    ;
    assert(twice_midpoint(q + 1) > 2 * d) by (nonlinear_arith)
        requires
            twice_midpoint(q + 1) == (above + beyond) * scale,
            beyond > above,
            above == below + step,
            step * scale == (half * 2) * unit,
            d == below * scale + r * unit,
            r < half * 2,
            unit > 0,
            scale > 0,
    ;
    if q > 0 {
        lemma_single_step((q - 1) as nat);
        let before = single_magnitude((q - 1) as nat);
        assert(twice_midpoint((q - 1) as nat) < 2 * d) by (nonlinear_arith)
            requires
                twice_midpoint((q - 1) as nat) == (before + below) * scale,
                before < below,
                d == below * scale + r * unit,
                scale > 0,
        ;
    }
    if r > half {
        assert((2 * r) * unit > (half * 2) * unit) by (nonlinear_arith)
            requires
                r > half,
                unit > 0,
        ;
    } else if r < half {
        assert((2 * r) * unit < (half * 2) * unit) by (nonlinear_arith)
            requires
                r < half,
                unit > 0,
        ;
    }
}

/// The nearest single of a double whose magnitude is in the range of the
/// normal singles.
proof fn lemma_normal_single(bits: u64)
    requires
        897 <= biased_exponent(bits) <= 1150,
    ensures
        is_nearest_single(
            bits,
            round_half_even(
                ((biased_exponent(bits) - 896) * 0x10_0000_0000_0000 + fraction(bits)) as nat,
                29,
            ),
        ),
{
    let e = biased_exponent(bits);
    let f = fraction(bits);
    let x = ((e - 896) * 0x10_0000_0000_0000 + f) as nat;
    lemma2_to64();
    let q = x / pow2(29);
    let r = x % pow2(29);
    let unit = pow2((e - 1) as nat);
    let high = f / 0x2000_0000;
    assert(q == (e - 896) * 0x80_0000 + high);
    assert(r == f % 0x2000_0000);
    assert(q / 0x80_0000 == e - 896);
    assert(q % 0x80_0000 == high);
    let rung = pow2((e - 897) as nat);
    lemma_pow2_pos((e - 1) as nat);
    lemma_pow2_adds((e - 897) as nat, 925);
    lemma_pow2_adds(29, (e - 1) as nat);
    assert(rung * pow2(925) == pow2(29) * unit);
    assert(single_magnitude(q) == (0x80_0000 + high) * rung);
    assert(double_magnitude(bits) == (0x10_0000_0000_0000 + f) * unit);
    assert((0x10_0000_0000_0000 + f) * unit == ((0x80_0000 + high) * rung) * pow2(925) + r
        * unit) by (nonlinear_arith)
        requires
            0x10_0000_0000_0000 + f == (0x80_0000 + high) * 0x2000_0000 + r,
            rung * pow2(925) == 0x2000_0000 * unit,
    ;
    lemma_rounding_is_nearest(bits, x, 29, unit);
}

/// The nearest single of a double whose magnitude is in the range of the
/// singles below the normal ones.
proof fn lemma_small_single(bits: u64)
    requires
        873 <= biased_exponent(bits) <= 896,
    ensures
        is_nearest_single(
            bits,
            round_half_even(significand(bits), (926 - biased_exponent(bits)) as nat),
        ),
{
    let e = biased_exponent(bits);
    let m = significand(bits);
    let k = (926 - e) as nat;
    let unit = pow2((e - 1) as nat);
    lemma2_to64();
    lemma2_to64_rest();
    lemma_pow2_pos(k);
    lemma_pow2_pos((e - 1) as nat);
    lemma_pow2_adds(k, (e - 1) as nat);
    if k > 30 {
        lemma_pow2_strictly_increases(30, k);
    }
    let q = m / pow2(k);
    let r = m % pow2(k);
    vstd::arithmetic::div_mod::lemma_fundamental_div_mod(m as int, pow2(k) as int);
    vstd::arithmetic::div_mod::lemma_mod_bound(m as int, pow2(k) as int);
    assert(q < 0x80_0000) by (nonlinear_arith)
        requires
            m == pow2(k) * q + r,
            m < 0x20_0000_0000_0000,
            pow2(k) >= 0x4000_0000,
    ;
    assert(single_magnitude(q) == q);
    assert(single_step(q) == 1);
    assert(m * unit == q * pow2(925) + r * unit) by (nonlinear_arith)
        requires
            m == pow2(k) * q + r,
            pow2(925) == pow2(k) * unit,
    ;
    assert(1 * pow2(925) == pow2(k) * unit);
    lemma_rounding_is_nearest(bits, m, k, unit);
}

/// A double below half the smallest single has zero as its nearest single.
proof fn lemma_zero_single(bits: u64)
    requires
        biased_exponent(bits) <= 872,
    ensures
        is_nearest_single(bits, 0),
{
    let e = biased_exponent(bits);
    lemma2_to64();
    lemma2_to64_rest();
    lemma_pow2_adds(924, 1);
    lemma_pow2_strictly_increases(53, 924);
    assert(twice_midpoint(0) == pow2(925)) by {
        assert(single_magnitude(0) == 0);
        assert(single_magnitude(1) == 1);
        assert((0 + 1) * pow2(925) == pow2(925)) by (nonlinear_arith);
    }
    if e > 0 {
        lemma_pow2_adds(53, 871);
        lemma_pow2_pos((e - 1) as nat);
        if e < 872 {
            lemma_pow2_strictly_increases((e - 1) as nat, 871);
        }
        lemma_product_stays_below(significand(bits), pow2(53), pow2((e - 1) as nat), pow2(871));
    }
}

/// A double of two to the 128th or more has infinity as its nearest single.
proof fn lemma_infinite_single(bits: u64)
    requires
        biased_exponent(bits) >= 1151,
    ensures
        is_nearest_single(bits, single_infinity()),
{
    let e = biased_exponent(bits);
    let top = single_infinity();
    lemma2_to64();
    lemma2_to64_rest();
    lemma_pow2_pos(925);
    lemma_single_step((top - 1) as nat);
    assert(single_magnitude(top) == 0x80_0000 * pow2(254));
    lemma_pow2_adds(23, 254);
    lemma_pow2_adds(277, 925);
    lemma_pow2_adds(52, 1150);
    if e > 1151 {
        lemma_pow2_strictly_increases(1150, (e - 1) as nat);
    }
    lemma_product_grows(pow2(52), significand(bits), pow2(1150), pow2((e - 1) as nat));
    let before = single_magnitude((top - 1) as nat);
    let last = single_magnitude(top);
    let scale = pow2(925);
    assert((before + last) * scale < 2 * (last * scale)) by (nonlinear_arith)
        requires
            before < last,
            scale > 0,
    ;
}

/// What `round_scaled` gives for a number with binary digits after the point
/// is an integer at most a half away from it, and the larger one where two
/// are: with `m` counting units of `2^-k`, the result counted in the same units
/// is above `m` less half a unit of one, and at most `m` and half a unit of one.
pub proof fn lemma_round_scaled_is_nearest(m: nat, k: nat)
    requires
        k >= 1,
    ensures
        m - pow2((k - 1) as nat) < round_scaled(m, -(k as int)) * pow2(k) <= m + pow2(
            (k - 1) as nat,
        ),
{
    let half = pow2((k - 1) as nat);
    let whole = pow2(k);
    lemma_pow2_pos(k);
    lemma_pow2_adds((k - 1) as nat, 1);
    lemma2_to64();
    vstd::arithmetic::div_mod::lemma_fundamental_div_mod((m + half) as int, whole as int);
    vstd::arithmetic::div_mod::lemma_mod_bound((m + half) as int, whole as int);
    let q = (m + half) / whole;
    assert(q * whole == whole * q) by (nonlinear_arith);
}

/// A quotient of a number by a larger one is zero.
proof fn lemma_small_quotient(x: nat, d: nat)
    requires
        x < d,
    ensures
        x / d == 0,
{
    vstd::arithmetic::div_mod::lemma_basic_div(x as int, d as int);
}

/// A product grows with its factors.
proof fn lemma_product_grows(a: nat, b: nat, c: nat, d: nat)
    requires
        a <= b,
        c <= d,
    ensures
        a * c <= b * d,
{
    assert(a * c <= b * d) by (nonlinear_arith)
        requires
            a <= b,
            c <= d,
    ;
}

/// A product of a factor below a bound and a positive factor up to a bound is
/// below the product of the bounds.
proof fn lemma_product_stays_below(a: nat, b: nat, c: nat, d: nat)
    requires
        a < b,
        0 < c <= d,
    ensures
        a * c < b * d,
{
    assert(a * c < b * d) by (nonlinear_arith)
        requires
            a < b,
            0 < c <= d,
    ;
}

/// A product of three factors, taken from the left, is the first times the
/// product of the other two; and the product of the first two is no more.
proof fn lemma_product_splits(m: nat, p: nat, q: nat)
    requires
        q > 0,
    ensures
        (m * p) * q == m * (p * q),
        m * p <= m * (p * q),
{
    assert((m * p) * q == m * (p * q)) by (nonlinear_arith);
    assert(m * p <= (m * p) * q) by (nonlinear_arith)
        requires
            q > 0,
    ;
}

} // verus!
