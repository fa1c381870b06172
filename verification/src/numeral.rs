//! Numbers in text: the decimal and hexadecimal forms that the tool reads and
//! writes.
use crate::text::to_chars;
use vstd::prelude::*;
use vstd::string::*;

verus! {

/// The digit character of a value below ten.
pub open spec fn digit_char(d: nat) -> char {
    (d + 48) as u8 as char
}

/// `n` in decimal, without leading zeros.
pub open spec fn decimal(n: nat) -> Seq<char>
    decreases n,
{
    if n < 10 {
        seq![digit_char(n)]
    } else {
        decimal(n / 10).push(digit_char(n % 10))
    }
}

/// `n` in decimal, with a leading `-` where it is negative.
pub open spec fn signed_decimal(n: int) -> Seq<char> {
    if n < 0 {
        seq!['-'] + decimal((-n) as nat)
    } else {
        decimal(n as nat)
    }
}

/// The value of a digit character in bases up to sixteen, letters in either
/// case.
pub open spec fn digit_value(c: char, base: nat) -> Option<nat> {
    let v = if '0' <= c <= '9' {
        (c as nat - 48) as nat
    } else if 'a' <= c <= 'f' {
        (c as nat - 87) as nat
    } else if 'A' <= c <= 'F' {
        (c as nat - 55) as nat
    } else {
        base
    };
    if v < base {
        Some(v)
    } else {
        None
    }
}

/// The number that a run of digits stands for; `None` where a character is no
/// digit. The empty run stands for zero.
pub open spec fn digits_value(s: Seq<char>, base: nat) -> Option<nat>
    decreases s.len(),
{
    if s.len() == 0 {
        Some(0)
    } else {
        match (digits_value(s.drop_last(), base), digit_value(s.last(), base)) {
            (Some(h), Some(d)) => Some(h * base + d),
            _ => None,
        }
    }
}

/// The natural number written in `s`: an optional `+`, then at least one digit.
pub open spec fn natural_value(s: Seq<char>, base: nat) -> Option<nat> {
    let t = if s.len() > 0 && s[0] == '+' {
        s.skip(1)
    } else {
        s
    };
    if t.len() == 0 {
        None
    } else {
        digits_value(t, base)
    }
}

/// The integer written in `s`: an optional sign, then at least one digit.
pub open spec fn integer_value(s: Seq<char>, base: nat) -> Option<int> {
    if s.len() > 0 && s[0] == '-' {
        if s.len() == 1 {
            None
        } else {
            match digits_value(s.skip(1), base) {
                Some(n) => Some(-(n as int)),
                None => None,
            }
        }
    } else {
        match natural_value(s, base) {
            Some(n) => Some(n as int),
            None => None,
        }
    }
}

/// `integer_value` within the bounds of a machine type.
pub open spec fn bounded(v: Option<int>, lo: int, hi: int) -> Option<int> {
    match v {
        Some(n) if lo <= n <= hi => Some(n),
        _ => None,
    }
}

fn digit_of(c: char, base: u8) -> (r: Option<u8>)
    requires
        2 <= base <= 16,
    ensures
        r is Some <==> digit_value(c, base as nat) is Some,
        r is Some ==> r->0 as nat == digit_value(c, base as nat)->0 && r->0 < base,
{
    let v: u8 = if '0' <= c && c <= '9' {
        c as u8 - 48
    } else if 'a' <= c && c <= 'f' {
        c as u8 - 87
    } else if 'A' <= c && c <= 'F' {
        c as u8 - 55
    } else {
        base
    };
    if v < base {
        Some(v)
    } else {
        None
    }
}

proof fn lemma_digits_none(s: Seq<char>, base: nat, k: int)
    requires
        0 <= k < s.len(),
        digit_value(s[k], base) is None,
    ensures
        digits_value(s, base) is None,
    decreases s.len(),
{
    if k < s.len() - 1 {
        lemma_digits_none(s.drop_last(), base, k);
    }
}

proof fn lemma_digits_grow(s: Seq<char>, base: nat, k: int)
    requires
        0 <= k <= s.len(),
        base >= 1,
        digits_value(s, base) is Some,
    ensures
        digits_value(s.take(k), base) is Some,
        digits_value(s.take(k), base)->0 <= digits_value(s, base)->0,
    decreases s.len() - k,
{
    if k < s.len() {
        lemma_digits_grow(s.drop_last(), base, k);
        assert(s.drop_last().take(k) =~= s.take(k));
        let h = digits_value(s.drop_last(), base)->0;
        let d = digit_value(s.last(), base)->0;
        assert(h * base + d >= h) by (nonlinear_arith)
            requires
                base >= 1,
                h >= 0,
                d >= 0,
        ;
    } else {
        assert(s.take(k) =~= s);
    }
}

/// The number that the digits `v[lo..]` stand for, where it is at most `max`.
fn read_digits(v: &Vec<char>, lo: usize, base: u8, max: u64) -> (r: Option<u64>)
    requires
        lo <= v@.len(),
        2 <= base <= 16,
    ensures
        match digits_value(v@.skip(lo as int), base as nat) {
            Some(n) => if n <= max { r == Some(n as u64) } else { r is None },
            None => r is None,
        },
{
    let ghost s = v@.skip(lo as int);
    let mut acc: u64 = 0;
    let mut i: usize = lo;
    while i < v.len()
        invariant
            lo <= i <= v@.len(),
            2 <= base <= 16,
            s == v@.skip(lo as int),
            digits_value(s.take(i - lo), base as nat) == Some(acc as nat),
            acc <= max,
        decreases v@.len() - i,
    {
        let c = v[i];
        proof {
            assert(s.take(i - lo + 1).drop_last() =~= s.take(i - lo));
            assert(s.take(i - lo + 1).last() == c);
            assert(s[i - lo] == c);
        }
        match digit_of(c, base) {
            None => {
                proof {
                    lemma_digits_none(s, base as nat, i - lo);
                }
                return None;
            },
            Some(d) => {
                proof {
                    assert(0 <= acc * base <= 0xffff_ffff_ffff_ffff * 16) by (nonlinear_arith)
                        requires
                            0 <= acc <= 0xffff_ffff_ffff_ffff,
                            2 <= base <= 16,
                    ;
                }
                let wide: u128 = acc as u128 * base as u128 + d as u128;
                if wide > max as u128 {
                    proof {
                        if digits_value(s, base as nat) is Some {
                            lemma_digits_grow(s, base as nat, i - lo + 1);
                        }
                    }
                    return None;
                }
                acc = wide as u64;
            },
        }
        i += 1;
    }
    proof {
        assert(s.take(i - lo) =~= s);
    }
    Some(acc)
}

/// Reads an unsigned number of at most `max`.
pub fn parse_unsigned(s: &str, base: u8, max: u64) -> (r: Option<u64>)
    requires
        2 <= base <= 16,
    ensures
        match natural_value(s@, base as nat) {
            Some(n) => if n <= max { r == Some(n as u64) } else { r is None },
            None => r is None,
        },
{
    let v = to_chars(s);
    let lo: usize = if v.len() > 0 && v[0] == '+' {
        1
    } else {
        0
    };
    if lo == v.len() {
        return None;
    }
    proof {
        if lo == 0 {
            assert(v@.skip(0) =~= v@);
        }
    }
    read_digits(&v, lo, base, max)
}

/// Reads a decimal `u64`.
pub fn parse_u64(s: &str) -> (r: Option<u64>)
    ensures
        match natural_value(s@, 10) {
            Some(n) => if n <= u64::MAX { r == Some(n as u64) } else { r is None },
            None => r is None,
        },
{
    parse_unsigned(s, 10, u64::MAX)
}

/// Reads an `i64` in the given base.
pub fn parse_i64(s: &str, base: u8) -> (r: Option<i64>)
    requires
        2 <= base <= 16,
    ensures
        match bounded(integer_value(s@, base as nat), i64::MIN as int, i64::MAX as int) {
            Some(n) => r == Some(n as i64),
            None => r is None,
        },
{
    let v = to_chars(s);
    if v.len() > 0 && v[0] == '-' {
        if v.len() == 1 {
            return None;
        }
        match read_digits(&v, 1, base, 0x8000_0000_0000_0000) {
            Some(n) => if n == 0x8000_0000_0000_0000 {
                Some(i64::MIN)
            } else {
                Some(-(n as i64))
            },
            None => None,
        }
    } else {
        match parse_unsigned(s, base, 0x7fff_ffff_ffff_ffff) {
            Some(n) => Some(n as i64),
            None => None,
        }
    }
}

/// `n` in decimal.
pub fn dec_u64(n: u64) -> (r: String)
    ensures
        r@ == decimal(n as nat),
    decreases n,
{
    let mut r = if n < 10 {
        String::new()
    } else {
        dec_u64(n / 10)
    };
    let d: u8 = (n % 10) as u8;
    r.push((d + 48) as char);
    proof {
        if n < 10 {
            assert(r@ =~= seq![digit_char(n as nat)]);
        }
    }
    r
}

/// `n` in decimal, signed.
pub fn dec_i64(n: i64) -> (r: String)
    ensures
        r@ == signed_decimal(n as int),
{
    if n < 0 {
        let m: u64 = (-(n as i128)) as u64;
        let mut r = String::new();
        r.push('-');
        let d = dec_u64(m);
        r.append(d.as_str());
        proof {
            assert(r@ =~= seq!['-'] + decimal(m as nat));
        }
        r
    } else {
        dec_u64(n as u64)
    }
}

proof fn lemma_decimal_digits(n: nat)
    ensures
        digits_value(decimal(n), 10) == Some(n),
        decimal(n).len() > 0,
        forall|i: int| 0 <= i < decimal(n).len() ==> '0' <= #[trigger] decimal(n)[i] <= '9',
    decreases n,
{
    if n < 10 {
        let s = decimal(n);
        assert(s.drop_last() =~= Seq::empty());
        assert(digits_value(s.drop_last(), 10) == Some(0nat));
    } else {
        lemma_decimal_digits(n / 10);
        let s = decimal(n);
        assert(s.drop_last() =~= decimal(n / 10));
        assert(s.last() == digit_char(n % 10));
        assert((n / 10) * 10 + n % 10 == n);
    }
}

/// A number is read as the number that it was written for, with or without a plus.
pub proof fn law_numbers_are_read_as_written(n: nat)
    ensures
        natural_value(decimal(n), 10) == Some(n),
        natural_value(seq!['+'] + decimal(n), 10) == Some(n),
        forall|i: int| 0 <= i < decimal(n).len() ==> '0' <= #[trigger] decimal(n)[i] <= '9',
        decimal(n).len() > 0,
{
    lemma_decimal_digits(n);
    let p = seq!['+'] + decimal(n);
    assert(p.skip(1) =~= decimal(n));
    assert('0' <= decimal(n)[0] <= '9');
}

/// The same with a sign.
pub proof fn law_integers_are_read_as_written(n: int)
    ensures
        integer_value(signed_decimal(n), 10) == Some(n),
{
    if n < 0 {
        lemma_decimal_digits((-n) as nat);
        let s = signed_decimal(n);
        assert(s[0] == '-');
        assert(s.skip(1) =~= decimal((-n) as nat));
    } else {
        law_numbers_are_read_as_written(n as nat);
        assert('0' <= decimal(n as nat)[0] <= '9');
    }
}

/// A text with a character that is no digit is no number, and nor is one without digits.
pub proof fn law_only_digits_are_numbers(s: Seq<char>, i: int)
    requires
        s.len() > 0 ==> 0 <= i < s.len() && !('0' <= s[i] <= '9') && (i > 0 || s[i] != '+'),
    ensures
        natural_value(s, 10) is None,
{
    if s.len() > 0 {
        if s[0] == '+' {
            lemma_no_digits(s.skip(1), i - 1);
        } else {
            lemma_no_digits(s, i);
        }
    }
}

proof fn lemma_no_digits(s: Seq<char>, i: int)
    requires
        0 <= i < s.len(),
        !('0' <= s[i] <= '9'),
    ensures
        digits_value(s, 10) is None,
    decreases s.len(),
{
    if i < s.len() - 1 {
        assert(s.drop_last()[i] == s[i]);
        lemma_no_digits(s.drop_last(), i);
    }
}

/// Digits from ten on are letters, small ones or capitals.
pub proof fn law_letters_are_digits_too(c: char)
    ensures
        'a' <= c <= 'f' ==> digit_value(c, 16) == Some((c as int - 'a' as int + 10) as nat),
        'A' <= c <= 'F' ==> digit_value(c, 16) == Some((c as int - 'A' as int + 10) as nat),
        '0' <= c <= '9' ==> digit_value(c, 16) == Some((c as int - '0' as int) as nat),
        !('0' <= c <= '9') && !('a' <= c <= 'f') && !('A' <= c <= 'F') ==> digit_value(c, 16)
            is None,
        !('0' <= c <= '9') ==> digit_value(c, 10) is None,
{
}

/// Both bounds belong to what is in bounds.
pub proof fn law_bounds_are_in_bounds(n: int, lo: int, hi: int)
    ensures
        lo <= n <= hi ==> bounded(Some(n), lo, hi) == Some(n),
        n < lo || n > hi ==> bounded(Some(n), lo, hi) is None,
        bounded(None, lo, hi) is None,
{
}

} // verus!
