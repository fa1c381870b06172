//! Numbers with a few decimals: rounding to the nearest, ties to even, and the
//! text of the result.
use vstd::arithmetic::div_mod::{lemma_fundamental_div_mod, lemma_fundamental_div_mod_converse};
use vstd::arithmetic::power2::{lemma_pow2_adds, lemma_pow2_pos, lemma_pow2_strictly_increases,
    lemma_pow2_unfold, pow2};
use crate::double::SIGNIFICANDS;
use crate::numeral::{dec_u64, decimal, digit_char};
use crate::text::{cat3, cat4};
use vstd::prelude::*;
use vstd::string::*;

verus! {

/// `n / d` rounded to the nearest integer, ties to the even one.
pub open spec fn rounded(n: nat, d: nat) -> nat {
    let q = n / d;
    let r = n % d;
    if 2 * r < d || (2 * r == d && q % 2 == 0) {
        q
    } else {
        q + 1
    }
}

/// Rounding does not depend on how the fraction is written.
pub proof fn lemma_rounded_scales(n: nat, d: nat, k: nat)
    requires
        d > 0,
        k > 0,
    ensures
        rounded(n * k, d * k) == rounded(n, d),
{
    let q = n / d;
    let r = n % d;
    lemma_fundamental_div_mod(n as int, d as int);
    assert(n * k == (d * k) * q + r * k) by (nonlinear_arith)
        requires
            n == d * q + r,
    ;
    assert(0 <= r * k < d * k) by (nonlinear_arith)
        requires
            0 <= r < d,
            k > 0,
    ;
    assert(n * k == q * (d * k) + r * k) by (nonlinear_arith)
        requires
            n * k == (d * k) * q + r * k,
    ;
    lemma_fundamental_div_mod_converse((n * k) as int, (d * k) as int, q as int, (r * k) as int);
    assert(2 * (r * k) < d * k <==> 2 * r < d) by (nonlinear_arith)
        requires
            k > 0,
    ;
    assert(2 * (r * k) == d * k <==> 2 * r == d) by (nonlinear_arith)
        requires
            k > 0,
    ;
}

/// `n / d` rounded, for what fits a machine.
pub fn round_ratio(n: u128, d: u128) -> (r: u128)
    requires
        0 < d < 0x8000_0000_0000_0000_0000_0000_0000_0000,
        n < 0x8000_0000_0000_0000_0000_0000_0000_0000,
    ensures
        r == rounded(n as nat, d as nat),
        r <= n + 1,
{
    let q = n / d;
    let r = n % d;
    proof {
        assert(q <= n) by (nonlinear_arith)
            requires
                q == n / d,
                d > 0,
                n >= 0,
        ;
    }
    if r < d - r || (r == d - r && q % 2 == 0) {
        q
    } else {
        q + 1
    }
}

/// The number of `n` tenths.
pub open spec fn tenths_text(n: nat) -> Seq<char> {
    decimal(n / 10) + "."@ + decimal(n % 10)
}

/// The number of `n` hundredths.
pub open spec fn hundredths_text(n: nat) -> Seq<char> {
    decimal(n / 100) + "."@ + decimal((n / 10) % 10) + decimal(n % 10)
}

/// The number of `n` tenths.
pub fn show_tenths(n: u64) -> (r: String)
    ensures
        r@ == tenths_text(n as nat),
{
    let a = dec_u64(n / 10);
    let b = dec_u64(n % 10);
    cat3(a.as_str(), ".", b.as_str())
}

/// The number of `n` hundredths.
pub fn show_hundredths(n: u64) -> (r: String)
    ensures
        r@ == hundredths_text(n as nat),
{
    let a = dec_u64(n / 100);
    let b = dec_u64((n / 10) % 10);
    let c = dec_u64(n % 10);
    cat4(a.as_str(), ".", b.as_str(), c.as_str())
}

/// Two to the `k`th, for what fits a machine.
pub fn power_of_two(k: u32) -> (r: u128)
    requires
        k < 127,
    ensures
        r == pow2(k as nat),
        0 < r < 0x8000_0000_0000_0000_0000_0000_0000_0000,
{
    let mut p: u128 = 1;
    let mut i: u32 = 0;
    proof {
        vstd::arithmetic::power2::lemma2_to64();
        lemma_pow2_strictly_increases(k as nat, 127);
        lemma_pow2_127();
    }
    while i < k
        invariant
            i <= k < 127,
            p == pow2(i as nat),
            pow2(k as nat) < 0x8000_0000_0000_0000_0000_0000_0000_0000,
        decreases k - i,
    {
        proof {
            lemma_pow2_unfold((i + 1) as nat);
            if i + 1 < k {
                lemma_pow2_strictly_increases((i + 1) as nat, k as nat);
            }
        }
        p = p * 2;
        i += 1;
    }
    proof {
        lemma_pow2_pos(k as nat);
    }
    p
}

proof fn lemma_pow2_127()
    ensures
        pow2(127) == 0x8000_0000_0000_0000_0000_0000_0000_0000,
{
    vstd::arithmetic::power2::lemma2_to64();
    lemma_pow2_adds(64, 63);
    lemma_pow2_unfold(64);
    assert(pow2(63) == 0x8000_0000_0000_0000);
}

/// An integer as a double tells it: to 53 binary digits, ties to even.
pub open spec fn as_double(n: nat) -> nat {
    as_double_from(n, 0)
}

/// The same, where the digits below the `k`th may have to go.
pub open spec fn as_double_from(n: nat, k: nat) -> nat
    decreases 64 - k,
{
    if n < SIGNIFICANDS * 2 * pow2(k) || k >= 64 {
        rounded(n, pow2(k)) * pow2(k)
    } else {
        as_double_from(n, k + 1)
    }
}

/// An integer as a double tells it.
pub fn round_to_double(n: u64) -> (r: u128)
    ensures
        r == as_double(n as nat),
        r < 0x2_0000_0000_0000_0000,
{
    let mut k: u32 = 0;
    let mut p: u128 = 1;
    proof {
        vstd::arithmetic::power2::lemma2_to64();
    }
    while (n as u128) >= 9007199254740992 * p
        invariant
            k <= 12,
            p == pow2(k as nat),
            k == 0 ==> p == 1,
            p <= 4096,
            as_double(n as nat) == as_double_from(n as nat, k as nat),
        decreases 12 - k,
    {
        proof {
            lemma_pow2_unfold((k + 1) as nat);
            vstd::arithmetic::power2::lemma2_to64();
            assert(p < 2048) by {
                if p >= 2048 {
                    assert((n as u128) >= 9007199254740992 * 2048);
                }
            }
            if k >= 11 {
                assert(p >= 2048) by {
                    if k > 11 {
                        lemma_pow2_strictly_increases(11, k as nat);
                    }
                }
            }
        }
        p = p * 2;
        k += 1;
    }
    let q = round_ratio(n as u128, p);
    proof {
        let nn = n as nat;
        let pp = p as nat;
        lemma_fundamental_div_mod(nn as int, pp as int);
        let quo = nn / pp;
        assert(quo * pp <= nn) by (nonlinear_arith)
            requires
                nn == pp * quo + nn % pp,
                nn % pp >= 0,
        ;
        assert(q <= quo + 1);
        assert(q * p <= nn + pp) by (nonlinear_arith)
            requires
                q <= quo + 1,
                quo * pp <= nn,
                pp == p,
        ;
    }
    q * p
}

/// A rounded fraction is an integer that no other is nearer to; of two that are equally
/// near it is the even one.
pub proof fn law_rounding_is_nearest(n: nat, d: nat)
    requires
        d > 0,
    ensures
        2 * rounded(n, d) * d <= 2 * n + d,
        2 * n <= 2 * rounded(n, d) * d + d,
        2 * rounded(n, d) * d == 2 * n + d || 2 * n == 2 * rounded(n, d) * d + d ==> rounded(n, d)
            % 2 == 0,
        n % d == 0 ==> rounded(n, d) * d == n,
{
    let q = n / d;
    let r = n % d;
    vstd::arithmetic::div_mod::lemma_fundamental_div_mod(n as int, d as int);
    let x = rounded(n, d);
    assert(q * d == d * q) by (nonlinear_arith);
    assert(n == q * d + r);
    if x == q {
        assert(2 * x * d == 2 * (q * d)) by (nonlinear_arith)
            requires
                x == q,
        ;
    } else {
        assert(2 * x * d == 2 * (q * d) + 2 * d) by (nonlinear_arith)
            requires
                x == q + 1,
        ;
        if 2 * x * d == 2 * n + d {
            assert(2 * r == d);
        }
    }
    assert(n % d == 0 ==> x == q);
}

/// Tenths are the whole number, a point and one digit; hundredths have two.
pub proof fn law_decimals_are_digits(w: nat, a: nat, b: nat)
    requires
        a < 10,
        b < 10,
    ensures
        tenths_text(10 * w + a) == decimal(w) + seq!['.', digit_char(a)],
        hundredths_text(100 * w + 10 * a + b) == decimal(w) + seq![
            '.',
            digit_char(a),
            digit_char(b),
        ],
{
    reveal_strlit(".");
    assert((10 * w + a) / 10 == w && (10 * w + a) % 10 == a);
    let n = 100 * w + 10 * a + b;
    assert(n / 100 == w && (n / 10) % 10 == a && n % 10 == b);
    assert(decimal(w) + "."@ + decimal(a) =~= decimal(w) + seq!['.', digit_char(a)]);
    assert(decimal(w) + "."@ + decimal(a) + decimal(b) =~= decimal(w) + seq![
        '.',
        digit_char(a),
        digit_char(b),
    ]);
}

/// Integers of up to 53 binary digits are told exactly.
pub proof fn law_small_integers_are_exact(n: nat)
    requires
        n <= 9007199254740992,
    ensures
        as_double(n) == n,
{
    vstd::arithmetic::power2::lemma2_to64();
    if n < 9007199254740992 {
        assert(pow2(0) == 1);
        assert(rounded(n, 1) == n);
    } else {
        assert(pow2(0) == 1 && pow2(1) == 2);
        assert(as_double_from(n, 0) == as_double_from(n, 1));
        assert(rounded(n, 2) == 4503599627370496);
    }
}

} // verus!
