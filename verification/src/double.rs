//! Double-precision numbers by their bits. The library compares and truncates
//! them as integers; arithmetic on them is left to the callers.
use vstd::arithmetic::power2::pow2;
use crate::decimals::{
    law_rounding_is_nearest, lemma_rounded_scales, power_of_two, round_ratio, rounded,
};
use vstd::prelude::*;

verus! {

/// Two to the 52nd: how many significands there are to an exponent.
pub const SIGNIFICANDS: u64 = 4503599627370496;

/// Two to the 63rd: the sign bit.
pub const SIGN_BIT: u64 = 9223372036854775808;

/// The first bit pattern, without its sign, that is no finite number.
pub const INFINITE: u64 = 9218868437227405312;

/// The bits without the sign.
pub open spec fn unsigned_bits(bits: u64) -> nat {
    if bits < SIGN_BIT {
        bits as nat
    } else {
        (bits - SIGN_BIT) as nat
    }
}

/// A finite number: neither infinite nor not-a-number.
pub open spec fn is_finite(bits: u64) -> bool {
    unsigned_bits(bits) < INFINITE
}

/// The magnitude of the number with the unsigned bits `b`, in units of the
/// smallest positive double.
pub open spec fn magnitude(b: nat) -> nat {
    let e = b / (SIGNIFICANDS as nat);
    let m = b % (SIGNIFICANDS as nat);
    if e == 0 {
        m
    } else {
        (m + SIGNIFICANDS as nat) * pow2((e - 1) as nat)
    }
}

/// An integer that orders as the number does; the two zeros have the same.
pub open spec fn order_key(bits: u64) -> int {
    if bits < SIGN_BIT {
        bits as int
    } else {
        -(bits - SIGN_BIT)
    }
}

/// The number with a given key, in units of the smallest positive double.
pub open spec fn key_value(key: int) -> int {
    if key >= 0 {
        magnitude(key as nat) as int
    } else {
        -(magnitude((-key) as nat) as int)
    }
}

/// Not a number: such a double compares with nothing.
pub open spec fn is_nan(bits: u64) -> bool {
    unsigned_bits(bits) > INFINITE
}

/// Whether the bits are those of no number.
pub fn double_is_nan(bits: u64) -> (r: bool)
    ensures
        r == is_nan(bits),
{
    if bits < SIGN_BIT {
        bits > INFINITE
    } else {
        bits - SIGN_BIT > INFINITE
    }
}

/// The key of the number with the given bits.
pub fn double_key(bits: u64) -> (r: i64)
    ensures
        r == order_key(bits),
        r > i64::MIN,
{
    if bits < SIGN_BIT {
        bits as i64
    } else {
        -((bits - SIGN_BIT) as i64)
    }
}

/// The bits of the number with the given key.
pub fn key_bits(key: i64) -> (r: u64)
    requires
        key > i64::MIN,
    ensures
        order_key(r) == key,
{
    if key >= 0 {
        key as u64
    } else {
        SIGN_BIT + ((-key) as u64)
    }
}

/// Whether the number with the given bits is finite.
pub fn double_is_finite(bits: u64) -> (r: bool)
    ensures
        r == is_finite(bits),
{
    if bits < SIGN_BIT {
        bits < INFINITE
    } else {
        bits - SIGN_BIT < INFINITE
    }
}

proof fn lemma_magnitude_step(b: nat)
    ensures
        magnitude(b) < magnitude(b + 1),
{
    let s = SIGNIFICANDS as nat;
    let e = b / s;
    let m = b % s;
    assert(b == e * s + m) by {
        vstd::arithmetic::div_mod::lemma_fundamental_div_mod(b as int, s as int);
    }
    if m + 1 < s {
        assert((b + 1) / s == e && (b + 1) % s == m + 1) by {
            vstd::arithmetic::div_mod::lemma_fundamental_div_mod_converse(
                (b + 1) as int,
                s as int,
                e as int,
                (m + 1) as int,
            );
        }
        if e > 0 {
            let p = pow2((e - 1) as nat);
            vstd::arithmetic::power2::lemma_pow2_pos((e - 1) as nat);
            assert((m + s) * p < (m + 1 + s) * p) by (nonlinear_arith)
                requires
                    p > 0,
            ;
        }
    } else {
        assert((b + 1) / s == e + 1 && (b + 1) % s == 0) by {
            vstd::arithmetic::div_mod::lemma_fundamental_div_mod_converse(
                (b + 1) as int,
                s as int,
                (e + 1) as int,
                0,
            );
        }
        let q = pow2(e);
        vstd::arithmetic::power2::lemma_pow2_pos(e);
        if e == 0 {
            vstd::arithmetic::power2::lemma2_to64();
            assert(magnitude(b + 1) == s * q);
        } else {
            let p = pow2((e - 1) as nat);
            vstd::arithmetic::power2::lemma_pow2_pos((e - 1) as nat);
            vstd::arithmetic::power2::lemma_pow2_unfold(e);
            assert(q == 2 * p);
            assert((m + s) * p < s * (2 * p)) by (nonlinear_arith)
                requires
                    p > 0,
                    m + 1 == s,
            ;
        }
    }
}

proof fn lemma_magnitude_increases(a: nat, b: nat)
    requires
        a < b,
    ensures
        magnitude(a) < magnitude(b),
    decreases b,
{
    lemma_magnitude_step((b - 1) as nat);
    if a < b - 1 {
        lemma_magnitude_increases(a, (b - 1) as nat);
    }
}

/// Keys order as the numbers they stand for.
pub proof fn law_keys_order_as_numbers(a: int, b: int)
    ensures
        a < b <==> key_value(a) < key_value(b),
        a == b <==> key_value(a) == key_value(b),
{
    lemma_key_less(a, b);
    lemma_key_less(b, a);
}

proof fn lemma_key_less(a: int, b: int)
    ensures
        a < b ==> key_value(a) < key_value(b),
{
    if a < b {
        if a >= 0 {
            lemma_magnitude_increases(a as nat, b as nat);
        } else if b < 0 {
            lemma_magnitude_increases((-b) as nat, (-a) as nat);
        } else {
            lemma_magnitude_increases(0, (-a) as nat);
            assert(magnitude(0) == 0);
            if b > 0 {
                lemma_magnitude_increases(0, b as nat);
            }
        }
    }
}

/// The unit that magnitudes are counted in is so many times smaller than one.
pub open spec fn unit() -> nat {
    pow2(1074)
}

/// The whole part of a number, without its sign.
pub open spec fn whole_part(bits: u64) -> nat {
    magnitude(unsigned_bits(bits)) / unit()
}

/// A number without a fraction.
pub open spec fn is_whole(bits: u64) -> bool {
    magnitude(unsigned_bits(bits)) % unit() == 0
}

/// A number times ten, without its sign, rounded to the nearest integer.
pub open spec fn tenths_of(bits: u64) -> nat {
    rounded(magnitude(unsigned_bits(bits)) * 10, unit())
}

/// The significand and the binary places below one of the number with the
/// unsigned bits `b`: it is `m / 2^k`, or `m * 2^-k` where `k` is negative.
pub open spec fn scaled_form(b: nat, m: nat, k: int) -> bool {
    &&& k <= 1074
    &&& k >= -971
    &&& m < 2 * SIGNIFICANDS
    &&& magnitude(b) == m * pow2((1074 - k) as nat)
    &&& k < 0 ==> m >= SIGNIFICANDS
}

fn split_double(b: u64) -> (r: (u64, i32))
    requires
        b < INFINITE,
    ensures
        scaled_form(b as nat, r.0 as nat, r.1 as int),
{
    let e: u64 = b / SIGNIFICANDS;
    let m: u64 = b % SIGNIFICANDS;
    proof {
        assert(e < 2047) by (nonlinear_arith)
            requires
                e == b / 4503599627370496,
                b < 9218868437227405312,
        ;
        vstd::arithmetic::power2::lemma2_to64();
    }
    if e == 0 {
        proof {
            assert(magnitude(b as nat) == m);
            assert(m * pow2(0) == m);
        }
        (m, 1074)
    } else {
        (m + SIGNIFICANDS, 1075 - (e as i32))
    }
}

proof fn lemma_unit_parts(k: int)
    requires
        0 <= k <= 1074,
    ensures
        unit() == pow2((1074 - k) as nat) * pow2(k as nat),
        pow2((1074 - k) as nat) > 0,
        pow2(k as nat) > 0,
{
    vstd::arithmetic::power2::lemma_pow2_adds((1074 - k) as nat, k as nat);
    vstd::arithmetic::power2::lemma_pow2_pos((1074 - k) as nat);
    vstd::arithmetic::power2::lemma_pow2_pos(k as nat);
}

proof fn lemma_whole_of(b: nat, m: nat, k: int)
    requires
        scaled_form(b, m, k),
    ensures
        k >= 0 ==> magnitude(b) / unit() == m / pow2(k as nat) && (magnitude(b) % unit() == 0
            <==> m % pow2(k as nat) == 0),
        k < 0 ==> magnitude(b) / unit() == m * pow2((-k) as nat) && magnitude(b) % unit() == 0,
{
    if k >= 0 {
        lemma_unit_parts(k);
        let p = pow2((1074 - k) as nat);
        let q = pow2(k as nat);
        vstd::arithmetic::div_mod::lemma_fundamental_div_mod(m as int, q as int);
        let a = m / q;
        let r = m % q;
        assert(m * p == a * (p * q) + r * p) by (nonlinear_arith)
            requires
                m == q * a + r,
        ;
        assert(0 <= r * p < p * q) by (nonlinear_arith)
            requires
                0 <= r < q,
                p > 0,
        ;
        vstd::arithmetic::div_mod::lemma_fundamental_div_mod_converse(
            (m * p) as int,
            (p * q) as int,
            a as int,
            (r * p) as int,
        );
        assert(r * p == 0 <==> r == 0) by (nonlinear_arith)
            requires
                p > 0,
                r >= 0,
        ;
    } else {
        let j = (-k) as nat;
        vstd::arithmetic::power2::lemma_pow2_adds(1074, j);
        vstd::arithmetic::power2::lemma_pow2_pos(1074);
        let u = unit();
        let q = pow2(j);
        assert(pow2((1074 - k) as nat) == u * q);
        assert(m * (u * q) == (m * q) * u + 0) by (nonlinear_arith);
        vstd::arithmetic::div_mod::lemma_fundamental_div_mod_converse(
            (m * (u * q)) as int,
            u as int,
            (m * q) as int,
            0,
        );
    }
}

/// The whole part of a number without its sign, at most `max`.
pub fn double_whole(bits: u64, max: u64) -> (r: u64)
    requires
        is_finite(bits),
    ensures
        r == if whole_part(bits) <= max {
            whole_part(bits)
        } else {
            max as nat
        },
{
    let b: u64 = if bits < SIGN_BIT {
        bits
    } else {
        bits - SIGN_BIT
    };
    let (m, k) = split_double(b);
    proof {
        lemma_whole_of(b as nat, m as nat, k as int);
    }
    if k >= 64 {
        proof {
            vstd::arithmetic::power2::lemma2_to64();
            if k > 64 {
                vstd::arithmetic::power2::lemma_pow2_strictly_increases(64, k as nat);
            }
            let q = pow2(k as nat);
            assert((m as nat) / q == 0) by (nonlinear_arith)
                requires
                    (m as nat) < q,
                    m >= 0,
            ;
        }
        return 0;
    }
    if k >= 0 {
        let p = power_of_two(k as u32);
        let w = (m as u128) / p;
        proof {
            assert(w <= m) by (nonlinear_arith)
                requires
                    w == (m as u128) / p,
                    p > 0,
                    m >= 0,
            ;
        }
        if w <= max as u128 {
            return w as u64;
        }
        return max;
    }
    if k <= -12 {
        proof {
            let j = (-k) as nat;
            vstd::arithmetic::power2::lemma2_to64();
            if j > 12 {
                vstd::arithmetic::power2::lemma_pow2_strictly_increases(12, j);
            }
            let q = pow2(j);
            assert(m * q >= SIGNIFICANDS * 4096) by (nonlinear_arith)
                requires
                    m >= SIGNIFICANDS,
                    q >= 4096,
            ;
        }
        return max;
    }
    let p = power_of_two((-k) as u32);
    proof {
        vstd::arithmetic::power2::lemma2_to64();
        if -k < 12 {
            vstd::arithmetic::power2::lemma_pow2_strictly_increases((-k) as nat, 12);
        }
        assert(m * p <= 9007199254740992 * 4096) by (nonlinear_arith)
            requires
                m <= 9007199254740992,
                p <= 4096,
                m >= 0,
                p >= 0,
        ;
    }
    let w = (m as u128) * p;
    if w <= max as u128 {
        w as u64
    } else {
        max
    }
}

/// Whether a number has no fraction.
pub fn double_is_whole(bits: u64) -> (r: bool)
    requires
        is_finite(bits),
    ensures
        r == is_whole(bits),
{
    let b: u64 = if bits < SIGN_BIT {
        bits
    } else {
        bits - SIGN_BIT
    };
    let (m, k) = split_double(b);
    proof {
        lemma_whole_of(b as nat, m as nat, k as int);
    }
    if k < 0 {
        return true;
    }
    if k >= 64 {
        proof {
            vstd::arithmetic::power2::lemma2_to64();
            if k > 64 {
                vstd::arithmetic::power2::lemma_pow2_strictly_increases(64, k as nat);
            }
            let q = pow2(k as nat);
            vstd::arithmetic::div_mod::lemma_small_mod(m as nat, q);
        }
        return m == 0;
    }
    let p = power_of_two(k as u32);
    (m as u128) % p == 0
}

/// A number with a fraction times ten, without its sign, rounded to the nearest
/// integer.
pub fn double_tenths(bits: u64) -> (r: u64)
    requires
        is_finite(bits),
        !is_whole(bits),
    ensures
        r == tenths_of(bits),
{
    let b: u64 = if bits < SIGN_BIT {
        bits
    } else {
        bits - SIGN_BIT
    };
    let (m, k) = split_double(b);
    proof {
        lemma_whole_of(b as nat, m as nat, k as int);
        assert(k >= 0);
        lemma_unit_parts(k as int);
        let p = pow2((1074 - k) as nat);
        let q = pow2(k as nat);
        assert(magnitude(b as nat) * 10 == (m * 10) * p) by (nonlinear_arith)
            requires
                magnitude(b as nat) == m * p,
        ;
        assert(unit() == q * p) by (nonlinear_arith)
            requires
                unit() == p * q,
        ;
        lemma_rounded_scales((m * 10) as nat, q, p);
    }
    if k >= 64 {
        proof {
            vstd::arithmetic::power2::lemma2_to64();
            if k > 64 {
                vstd::arithmetic::power2::lemma_pow2_strictly_increases(64, k as nat);
            }
            let q = pow2(k as nat);
            let n = (m * 10) as nat;
            assert(2 * n < q);
            vstd::arithmetic::div_mod::lemma_small_mod(n, q);
            assert(n / q == 0) by (nonlinear_arith)
                requires
                    n < q,
                    n >= 0,
            ;
        }
        return 0;
    }
    let p = power_of_two(k as u32);
    let r = round_ratio((m as u128) * 10, p);
    r as u64
}

/// Powers of two as doubles: the exponent counts from 1023, and the whole part is the power.
pub proof fn law_powers_of_two(bits: u64, k: nat)
    requires
        k <= 1023,
        bits as int == (1023 + k) * 4503599627370496,
    ensures
        is_finite(bits),
        whole_part(bits) == pow2(k),
        is_whole(bits),
{
    let s = SIGNIFICANDS as nat;
    let e = (1023 + k) as nat;
    assert(bits < SIGN_BIT);
    assert(unsigned_bits(bits) == e * s);
    assert(e * s / s == e);
    assert(e * s % s == 0);
    assert(pow2(52) == 4503599627370496) by {
        vstd::arithmetic::power2::lemma2_to64_rest();
    }
    vstd::arithmetic::power2::lemma_pow2_adds(52, (e - 1) as nat);
    vstd::arithmetic::power2::lemma_pow2_adds(1074, k);
    assert(52 + (e - 1) == 1074 + k);
    let m = magnitude(unsigned_bits(bits));
    assert(m == pow2(52) * pow2((e - 1) as nat));
    assert(m == unit() * pow2(k));
    vstd::arithmetic::power2::lemma_pow2_pos(1074);
    vstd::arithmetic::power2::lemma_pow2_pos(k);
    vstd::arithmetic::div_mod::lemma_div_by_multiple(pow2(k) as int, unit() as int);
    vstd::arithmetic::div_mod::lemma_mod_multiples_basic(pow2(k) as int, unit() as int);
    assert(unit() * pow2(k) == pow2(k) * unit()) by (nonlinear_arith);
}

/// What is finite and what is no number, by the bits without their sign; the sign does not
/// count for either.
pub proof fn law_finite_or_no_number(bits: u64, other: u64)
    requires
        bits < 9223372036854775808,
        other as int == bits + 9223372036854775808,
    ensures
        is_finite(bits) <==> bits < 9218868437227405312,
        is_nan(bits) <==> bits > 9218868437227405312,
        is_finite(other) == is_finite(bits),
        is_nan(other) == is_nan(bits),
        order_key(bits) == bits,
        order_key(other) == -(bits as int),
        whole_part(other) == whole_part(bits),
        is_whole(other) == is_whole(bits),
{
}

/// The tenths of a number are the nearest ones.
pub proof fn law_tenths_are_nearest(bits: u64)
    ensures
        ({
            let ten = magnitude(unsigned_bits(bits)) * 10;
            &&& 2 * tenths_of(bits) * pow2(1074) <= 2 * ten + pow2(1074)
            &&& 2 * ten <= 2 * tenths_of(bits) * pow2(1074) + pow2(1074)
        }),
{
    vstd::arithmetic::power2::lemma_pow2_pos(1074);
    law_rounding_is_nearest(magnitude(unsigned_bits(bits)) * 10, unit());
}

} // verus!
