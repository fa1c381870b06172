//! Dates out of Unix time.
use crate::numeral::{dec_u64, decimal, digit_char};
use crate::order::{lemma_less_by_front, lemma_less_same_front, lex_less};
use crate::text::{cat4, cat5, to_chars};
use vstd::prelude::*;
use vstd::string::*;

verus! {

pub open spec fn is_leap(y: int) -> bool {
    y % 4 == 0 && (y % 100 != 0 || y % 400 == 0)
}

/// The days from the start of the year 0 to the start of the year `y`.
pub open spec fn year_start(y: int) -> int {
    365 * y + (y + 3) / 4 - (y + 99) / 100 + (y + 399) / 400
}

/// The length of a month.
pub open spec fn month_length(y: int, m: int) -> int {
    if m == 2 {
        if is_leap(y) {
            29
        } else {
            28
        }
    } else if m == 4 || m == 6 || m == 9 || m == 11 {
        30
    } else {
        31
    }
}

/// The days of a year before a month.
pub open spec fn month_start(y: int, m: int) -> int
    decreases m,
{
    if m <= 1 {
        0
    } else {
        month_start(y, m - 1) + month_length(y, m - 1)
    }
}

/// The day with the number `days`, counted from 1970-01-01, is the `d`th of the month
/// `m` of the year `y`.
pub open spec fn is_date(days: int, y: int, m: int, d: int) -> bool {
    &&& 1 <= m <= 12
    &&& 1 <= d <= month_length(y, m)
    &&& year_start(y) - year_start(1970) + month_start(y, m) + d - 1 == days
}

proof fn lemma_year_step(y: int)
    requires
        y >= 0,
    ensures
        year_start(y + 1) == year_start(y) + if is_leap(y) {
            366int
        } else {
            365int
        },
{
    assert((y + 4) / 4 == (y + 3) / 4 + if y % 4 == 0 {
        1int
    } else {
        0int
    });
    assert((y + 100) / 100 == (y + 99) / 100 + if y % 100 == 0 {
        1int
    } else {
        0int
    });
    assert((y + 400) / 400 == (y + 399) / 400 + if y % 400 == 0 {
        1int
    } else {
        0int
    });
    assert(y % 400 == 0 ==> y % 100 == 0);
    assert(y % 100 == 0 ==> y % 4 == 0);
}

proof fn lemma_year_cycle(y: int, k: int)
    requires
        y >= 0,
        k >= 0,
    ensures
        year_start(y + 400 * k) == year_start(y) + 146097 * k,
{
    assert((y + 400 * k + 3) / 4 == (y + 3) / 4 + 100 * k);
    assert((y + 400 * k + 99) / 100 == (y + 99) / 100 + 4 * k);
    assert((y + 400 * k + 399) / 400 == (y + 399) / 400 + k);
}

proof fn lemma_leap_cycle(y: int, k: int)
    requires
        y >= 0,
        k >= 0,
    ensures
        is_leap(y + 400 * k) == is_leap(y),
{
    assert((y + 400 * k) % 4 == y % 4);
    assert((y + 400 * k) % 100 == y % 100);
    assert((y + 400 * k) % 400 == y % 400);
}

fn length_of_month(leap: bool, m: u64) -> (r: u64)
    requires
        1 <= m <= 12,
    ensures
        forall|y: int| is_leap(y) == leap ==> r == #[trigger] month_length(y, m as int),
{
    if m == 2 {
        if leap {
            29
        } else {
            28
        }
    } else if m == 4 || m == 6 || m == 9 || m == 11 {
        30
    } else {
        31
    }
}

/// The date of the day with the number `days`, counted from 1970-01-01.
pub fn civil_date(days: u64) -> (r: (u64, u64, u64))
    requires
        days <= 0x1_0000_0000_0000,
    ensures
        is_date(days as int, r.0 as int, r.1 as int, r.2 as int),
        r.0 <= days + 1970,
{
    // Days since the start of the year 1600, which begins a cycle of 400 years.
    let since: u64 = days + 135140;
    let cycle: u64 = since / 146097;
    let mut rest: u64 = since % 146097;
    let mut y: u64 = 1600;
    let mut leap = true;
    proof {
        assert(year_start(1970) - year_start(1600) == 135140);
        assert(is_leap(1600));
    }
    let ghost start = rest as int;
    loop
        invariant
            1600 <= y <= 2000,
            leap == is_leap(y as int),
            0 <= start < 146097,
            start == year_start(y as int) - year_start(1600) + rest,
        ensures
            rest < 365 || (leap && rest < 366),
        decreases 2000 - y,
    {
        let len: u64 = if leap {
            366
        } else {
            365
        };
        if rest < len {
            break ;
        }
        proof {
            lemma_year_step(y as int);
            assert(year_start(2000) - year_start(1600) == 146097);
            if y == 2000 {
                assert(false);
            }
        }
        rest = rest - len;
        y = y + 1;
        leap = y % 4 == 0 && (y % 100 != 0 || y % 400 == 0);
    }
    let year: u64 = y + 400 * cycle;
    let ghost gy = year as int;
    proof {
        lemma_year_cycle(y as int, cycle as int);
        lemma_leap_cycle(y as int, cycle as int);
        assert(year_start(gy) - year_start(1970) + rest == days);
        lemma_month_total(gy);
        assert(month_start(gy, 1) == 0);
    }
    let mut m: u64 = 1;
    let ghost whole = rest as int;
    loop
        invariant
            1 <= m <= 12,
            leap == is_leap(gy),
            whole == month_start(gy, m as int) + rest,
            whole < month_start(gy, 13),
        ensures
            rest < month_length(gy, m as int),
        decreases 12 - m,
    {
        let len = length_of_month(leap, m);
        proof {
            assert(len == month_length(gy, m as int));
            assert(month_start(gy, m + 1) == month_start(gy, m as int) + month_length(
                gy,
                m as int,
            ));
        }
        if rest < len {
            break ;
        }
        rest = rest - len;
        m = m + 1;
    }
    (year, m, rest + 1)
}

proof fn lemma_month_total(y: int)
    ensures
        month_start(y, 13) == if is_leap(y) {
            366int
        } else {
            365int
        },
{
    reveal_with_fuel(month_start, 14);
}

proof fn lemma_year_monotone(a: int, b: int)
    requires
        0 <= a <= b,
    ensures
        year_start(a) <= year_start(b),
        a < b ==> year_start(a + 1) <= year_start(b),
    decreases b - a,
{
    if a < b {
        lemma_year_monotone(a + 1, b);
        lemma_year_step(a);
    }
}

proof fn lemma_month_monotone(y: int, a: int, b: int)
    requires
        1 <= a <= b,
    ensures
        month_start(y, a) <= month_start(y, b),
        a < b ==> month_start(y, a) + month_length(y, a) <= month_start(y, b),
    decreases b - a,
{
    if a < b {
        lemma_month_monotone(y, a, b - 1);
        if a < b - 1 {
        } else {
            assert(month_start(y, b) == month_start(y, a) + month_length(y, a));
        }
    }
}

proof fn lemma_date_in_year(days: int, y: int, m: int, d: int)
    requires
        is_date(days, y, m, d),
        y >= 0,
    ensures
        year_start(y) <= days + year_start(1970) < year_start(y + 1),
{
    lemma_month_monotone(y, 1, m);
    lemma_month_monotone(y, m, 13);
    lemma_month_total(y);
    lemma_year_step(y);
}

/// A day has one date only.
pub proof fn law_dates_are_unique(days: int, y: int, m: int, d: int, v: int, n: int, e: int)
    requires
        is_date(days, y, m, d),
        is_date(days, v, n, e),
        y >= 0,
        v >= 0,
    ensures
        y == v && m == n && d == e,
{
    lemma_date_in_year(days, y, m, d);
    lemma_date_in_year(days, v, n, e);
    if y < v {
        lemma_year_monotone(y, v);
    } else if v < y {
        lemma_year_monotone(v, y);
    }
    if m < n {
        lemma_month_monotone(y, m, n);
    } else if n < m {
        lemma_month_monotone(y, n, m);
    }
}

/// A number with zeros in front of it, to at least so many digits.
pub open spec fn padded(n: nat, width: nat) -> Seq<char> {
    let d = decimal(n);
    if d.len() >= width {
        d
    } else {
        Seq::new((width - d.len()) as nat, |i: int| '0') + d
    }
}

fn pad(n: u64, width: usize) -> (r: String)
    ensures
        r@ == padded(n as nat, width as nat),
{
    let d = dec_u64(n);
    let v = to_chars(d.as_str());
    if v.len() >= width {
        return d;
    }
    let zeros: usize = width - v.len();
    let mut r = String::new();
    let mut i: usize = 0;
    while i < zeros
        invariant
            i <= zeros,
            r@ == Seq::new(i as nat, |k: int| '0'),
        decreases zeros - i,
    {
        r.push('0');
        proof {
            assert(r@ =~= Seq::new((i + 1) as nat, |k: int| '0'));
        }
        i += 1;
    }
    r.append(d.as_str());
    r
}

/// A moment as `YYYY-MM-DDTHH:MM:SSZ`.
pub open spec fn moment_text(y: nat, m: nat, d: nat, secs_of_day: nat) -> Seq<char> {
    padded(y, 4) + "-"@ + padded(m, 2) + "-"@ + padded(d, 2) + "T"@ + padded(secs_of_day / 3600, 2)
        + ":"@ + padded((secs_of_day % 3600) / 60, 2) + ":"@ + padded(secs_of_day % 60, 2) + "Z"@
}

/// The text of a Unix time: its date and the time of its day.
pub open spec fn is_timestamp(secs: nat, t: Seq<char>) -> bool {
    exists|y: nat, m: nat, d: nat|
        is_date((secs / 86400) as int, y as int, m as int, d as int) && t == #[trigger] moment_text(
            y,
            m,
            d,
            secs % 86400,
        )
}

/// A Unix time as `YYYY-MM-DDTHH:MM:SSZ`, in UTC.
pub fn format_iso8601_utc(unix_secs: u64) -> (r: String)
    ensures
        is_timestamp(unix_secs as nat, r@),
{
    let days: u64 = unix_secs / 86400;
    let secs: u64 = unix_secs % 86400;
    let (year, month, day) = civil_date(days);
    let y = pad(year, 4);
    let mo = pad(month, 2);
    let d = pad(day, 2);
    let h = pad(secs / 3600, 2);
    let mi = pad((secs % 3600) / 60, 2);
    let s = pad(secs % 60, 2);
    let date = cat5(y.as_str(), "-", mo.as_str(), "-", d.as_str());
    let head = cat5(date.as_str(), "T", h.as_str(), ":", mi.as_str());
    let r = cat4(head.as_str(), ":", s.as_str(), "Z");
    proof {
        assert(r@ == moment_text(year as nat, month as nat, day as nat, secs as nat));
    }
    r
}

proof fn lemma_two_digits(n: nat)
    requires
        n < 100,
    ensures
        padded(n, 2) == seq![digit_char(n / 10), digit_char(n % 10)],
{
    reveal_with_fuel(decimal, 3);
    assert(padded(n, 2) =~= seq![digit_char(n / 10), digit_char(n % 10)]);
}

proof fn lemma_four_digits(n: nat)
    requires
        n < 10000,
    ensures
        padded(n, 4) == padded(n / 100, 2) + padded(n % 100, 2),
{
    reveal_with_fuel(decimal, 5);
    lemma_two_digits(n / 100);
    lemma_two_digits(n % 100);
    assert(n / 10 / 10 == n / 100);
    assert(n / 10 / 10 / 10 == n / 100 / 10);
    assert(n / 10 % 10 == n % 100 / 10);
    assert(n % 10 == n % 100 % 10);
    assert(padded(n, 4) =~= padded(n / 100, 2) + padded(n % 100, 2));
}

proof fn lemma_two_digits_less(a: nat, b: nat)
    requires
        a < b < 100,
    ensures
        lex_less(padded(a, 2), padded(b, 2)),
{
    lemma_two_digits(a);
    lemma_two_digits(b);
    let x = padded(a, 2);
    let y = padded(b, 2);
    reveal_with_fuel(lex_less, 3);
    if a / 10 == b / 10 {
        assert(a % 10 < b % 10);
        assert(x.skip(1)[0] == digit_char(a % 10));
        assert(y.skip(1)[0] == digit_char(b % 10));
    } else {
        assert(a / 10 < b / 10);
    }
}

proof fn lemma_four_digits_less(a: nat, b: nat)
    requires
        a < b < 10000,
    ensures
        lex_less(padded(a, 4), padded(b, 4)),
{
    lemma_four_digits(a);
    lemma_four_digits(b);
    if a / 100 == b / 100 {
        lemma_two_digits_less(a % 100, b % 100);
        lemma_less_same_front(padded(a / 100, 2), padded(a % 100, 2), padded(b % 100, 2));
    } else {
        lemma_two_digits_less(a / 100, b / 100);
        lemma_two_digits(a / 100);
        lemma_two_digits(b / 100);
        lemma_less_by_front(
            padded(a / 100, 2),
            padded(b / 100, 2),
            padded(a % 100, 2),
            padded(b % 100, 2),
        );
    }
}

/// A later day has a later date.
proof fn lemma_later_date(a: int, b: int, y: int, m: int, d: int, v: int, n: int, e: int)
    requires
        a < b,
        is_date(a, y, m, d),
        is_date(b, v, n, e),
        y >= 0,
        v >= 0,
    ensures
        y < v || (y == v && (m < n || (m == n && d < e))),
{
    lemma_date_in_year(a, y, m, d);
    lemma_date_in_year(b, v, n, e);
    if v < y {
        lemma_year_monotone(v, y);
    } else if v == y && n < m {
        lemma_month_monotone(y, n, m);
    }
}

proof fn lemma_moment_length(y: nat, m: nat, d: nat, secs: nat)
    requires
        y < 10000,
        m < 100,
        d < 100,
        secs < 86400,
    ensures
        moment_text(y, m, d, secs).len() == 20,
        padded(y, 4).len() == 4,
        padded(m, 2).len() == 2,
        padded(d, 2).len() == 2,
        padded(secs / 3600, 2).len() == 2,
        padded((secs % 3600) / 60, 2).len() == 2,
        padded(secs % 60, 2).len() == 2,
{
    reveal_strlit("-");
    reveal_strlit("T");
    reveal_strlit(":");
    reveal_strlit("Z");
    lemma_four_digits(y);
    lemma_two_digits(y / 100);
    lemma_two_digits(y % 100);
    lemma_two_digits(m);
    lemma_two_digits(d);
    lemma_two_digits(secs / 3600);
    lemma_two_digits((secs % 3600) / 60);
    lemma_two_digits(secs % 60);
}

/// Three fields with a separator between them and an end behind them.
spec fn three_fields(
    f: Seq<char>,
    g: Seq<char>,
    h: Seq<char>,
    sep: Seq<char>,
    end: Seq<char>,
) -> Seq<char> {
    f + (sep + (g + (sep + (h + end))))
}

/// The first of three fields in which two texts differ decides.
proof fn lemma_fields_less(
    f: Seq<char>,
    g: Seq<char>,
    h: Seq<char>,
    i: Seq<char>,
    j: Seq<char>,
    k: Seq<char>,
    sep: Seq<char>,
    end: Seq<char>,
)
    requires
        f.len() == i.len(),
        g.len() == j.len(),
        h.len() == k.len(),
        lex_less(f, i) || (f == i && (lex_less(g, j) || (g == j && lex_less(h, k)))),
    ensures
        lex_less(three_fields(f, g, h, sep, end), three_fields(i, j, k, sep, end)),
{
    let (x3, y3) = (h + end, k + end);
    let (x2, y2) = (g + (sep + x3), j + (sep + y3));
    if lex_less(f, i) {
        lemma_less_by_front(f, i, sep + x2, sep + y2);
    } else {
        lemma_less_same_front(f, sep + x2, sep + y2);
        lemma_less_same_front(sep, x2, y2);
        if lex_less(g, j) {
            lemma_less_by_front(g, j, sep + x3, sep + y3);
        } else {
            lemma_less_same_front(g, sep + x3, sep + y3);
            lemma_less_same_front(sep, x3, y3);
            lemma_less_by_front(h, k, end, end);
        }
    }
}

spec fn date_text(y: nat, m: nat, d: nat) -> Seq<char> {
    three_fields(padded(y, 4), padded(m, 2), padded(d, 2), "-"@, "T"@)
}

spec fn time_text(secs: nat) -> Seq<char> {
    three_fields(
        padded(secs / 3600, 2),
        padded((secs % 3600) / 60, 2),
        padded(secs % 60, 2),
        ":"@,
        "Z"@,
    )
}

#[verifier::rlimit(50)]
proof fn lemma_moment_parts(y: nat, m: nat, d: nat, secs: nat)
    ensures
        moment_text(y, m, d, secs) == date_text(y, m, d) + time_text(secs),
{
    assert(moment_text(y, m, d, secs) =~= date_text(y, m, d) + time_text(secs));
}

proof fn lemma_date_less(y: nat, m: nat, d: nat, v: nat, n: nat, e: nat)
    requires
        y < v || (y == v && (m < n || (m == n && d < e))),
        y < 10000,
        v < 10000,
        m < 100,
        n < 100,
        d < 100,
        e < 100,
    ensures
        lex_less(date_text(y, m, d), date_text(v, n, e)),
        date_text(y, m, d).len() == date_text(v, n, e).len(),
{
    lemma_moment_length(y, m, d, 0);
    lemma_moment_length(v, n, e, 0);
    if y < v {
        lemma_four_digits_less(y, v);
    } else if m < n {
        lemma_two_digits_less(m, n);
    } else {
        lemma_two_digits_less(d, e);
    }
    lemma_fields_less(
        padded(y, 4),
        padded(m, 2),
        padded(d, 2),
        padded(v, 4),
        padded(n, 2),
        padded(e, 2),
        "-"@,
        "T"@,
    );
}

proof fn lemma_time_less(p: nat, q: nat)
    requires
        p < q < 86400,
    ensures
        lex_less(time_text(p), time_text(q)),
{
    lemma_moment_length(0, 0, 0, p);
    lemma_moment_length(0, 0, 0, q);
    if p / 3600 < q / 3600 {
        lemma_two_digits_less(p / 3600, q / 3600);
    } else if (p % 3600) / 60 < (q % 3600) / 60 {
        lemma_two_digits_less((p % 3600) / 60, (q % 3600) / 60);
    } else {
        assert(p % 3600 < q % 3600);
        assert(p % 60 == p % 3600 % 60);
        assert(q % 60 == q % 3600 % 60);
        lemma_two_digits_less(p % 60, q % 60);
    }
    lemma_fields_less(
        padded(p / 3600, 2),
        padded((p % 3600) / 60, 2),
        padded(p % 60, 2),
        padded(q / 3600, 2),
        padded((q % 3600) / 60, 2),
        padded(q % 60, 2),
        ":"@,
        "Z"@,
    );
}

/// The date of a second before the year 10000 has a year of four digits.
proof fn lemma_date_bounds(secs: nat, y: nat, m: nat, d: nat)
    requires
        secs < 253_402_300_800,
        is_date((secs / 86400) as int, y as int, m as int, d as int),
    ensures
        y < 10000,
        m < 100,
        d < 100,
{
    lemma_date_in_year((secs / 86400) as int, y as int, m as int, d as int);
    assert(year_start(10000) - year_start(1970) == 2932897);
    if y >= 10000 {
        lemma_year_monotone(10000, y as int);
    }
}

/// Later seconds print as greater texts, and no two alike: before the year 10000 every
/// text has 20 characters, and that of an earlier second stands before that of a later
/// one.
pub proof fn law_later_seconds_print_greater(a: nat, b: nat, s: Seq<char>, t: Seq<char>)
    requires
        a < b < 253_402_300_800,
        is_timestamp(a, s),
        is_timestamp(b, t),
    ensures
        s.len() == 20,
        t.len() == 20,
        lex_less(s, t),
{
    let (y, m, d) = choose|y: nat, m: nat, d: nat|
        is_date((a / 86400) as int, y as int, m as int, d as int) && s == #[trigger] moment_text(
            y,
            m,
            d,
            a % 86400,
        );
    let (v, n, e) = choose|y: nat, m: nat, d: nat|
        is_date((b / 86400) as int, y as int, m as int, d as int) && t == #[trigger] moment_text(
            y,
            m,
            d,
            b % 86400,
        );
    let (p, q) = (a % 86400, b % 86400);
    lemma_date_bounds(a, y, m, d);
    lemma_date_bounds(b, v, n, e);
    lemma_moment_length(y, m, d, p);
    lemma_moment_length(v, n, e, q);
    lemma_moment_parts(y, m, d, p);
    lemma_moment_parts(v, n, e, q);
    if a / 86400 < b / 86400 {
        lemma_later_date(
            (a / 86400) as int,
            (b / 86400) as int,
            y as int,
            m as int,
            d as int,
            v as int,
            n as int,
            e as int,
        );
        lemma_date_less(y, m, d, v, n, e);
        lemma_less_by_front(date_text(y, m, d), date_text(v, n, e), time_text(p), time_text(q));
    } else {
        law_dates_are_unique(
            (a / 86400) as int,
            y as int,
            m as int,
            d as int,
            v as int,
            n as int,
            e as int,
        );
        lemma_time_less(p, q);
        lemma_less_same_front(date_text(y, m, d), time_text(p), time_text(q));
    }
}

/// How the calendar goes on from the first of January 1970: to the next day of the month,
/// or else to the next month, or else to the next year.
pub proof fn law_the_next_day(days: int, y: int, m: int, d: int)
    requires
        is_date(days, y, m, d),
        y >= 0,
    ensures
        is_date(0, 1970, 1, 1),
        d < month_length(y, m) ==> is_date(days + 1, y, m, d + 1),
        d == month_length(y, m) && m < 12 ==> is_date(days + 1, y, m + 1, 1),
        d == month_length(y, m) && m == 12 ==> is_date(days + 1, y + 1, 1, 1),
{
    lemma_year_step(y);
    lemma_month_total(y);
    assert(month_start(y, 13) == month_start(y, 12) + month_length(y, 12));
    assert(month_start(y + 1, 1) == 0);
    assert(month_start(y, m + 1) == month_start(y, m) + month_length(y, m));
}

/// The lengths of the months. February has 29 days in every fourth year, but in none that
/// ends a century unless it is a multiple of four hundred.
pub proof fn law_lengths_of_the_months(y: int, m: int)
    requires
        1 <= m <= 12,
    ensures
        m == 1 || m == 3 || m == 5 || m == 7 || m == 8 || m == 10 || m == 12 ==> month_length(y, m)
            == 31,
        m == 4 || m == 6 || m == 9 || m == 11 ==> month_length(y, m) == 30,
        m == 2 && y % 4 != 0 ==> month_length(y, m) == 28,
        m == 2 && y % 4 == 0 && y % 100 != 0 ==> month_length(y, m) == 29,
        m == 2 && y % 100 == 0 && y % 400 != 0 ==> month_length(y, m) == 28,
        m == 2 && y % 400 == 0 ==> month_length(y, m) == 29,
{
    if y % 400 == 0 {
        assert(y % 4 == 0 && y % 100 == 0);
    }
    if y % 100 == 0 {
        assert(y % 4 == 0);
    }
}

/// How a moment is written: every field at its place with its digits, the greater fields
/// first, the time of the day in hours, minutes and seconds.
pub proof fn law_how_a_moment_is_written(
    y: nat,
    m: nat,
    d: nat,
    hour: nat,
    minute: nat,
    second: nat,
)
    requires
        y < 10000,
        m < 100,
        d < 100,
        hour < 24,
        minute < 60,
        second < 60,
    ensures
        ({
            let t = moment_text(y, m, d, hour * 3600 + minute * 60 + second);
            &&& t.len() == 20
            &&& t[0] == digit_char(y / 1000)
            &&& t[1] == digit_char(y / 100 % 10)
            &&& t[2] == digit_char(y / 10 % 10)
            &&& t[3] == digit_char(y % 10)
            &&& t[4] == '-' && t[5] == digit_char(m / 10) && t[6] == digit_char(m % 10)
            &&& t[7] == '-' && t[8] == digit_char(d / 10) && t[9] == digit_char(d % 10)
            &&& t[10] == 'T' && t[11] == digit_char(hour / 10) && t[12] == digit_char(hour % 10)
            &&& t[13] == ':' && t[14] == digit_char(minute / 10) && t[15] == digit_char(minute % 10)
            &&& t[16] == ':' && t[17] == digit_char(second / 10) && t[18] == digit_char(second % 10)
            &&& t[19] == 'Z'
        }),
{
    reveal_strlit("-");
    reveal_strlit("T");
    reveal_strlit(":");
    reveal_strlit("Z");
    let s = hour * 3600 + minute * 60 + second;
    assert(s / 3600 == hour);
    assert(s % 3600 == minute * 60 + second);
    assert((s % 3600) / 60 == minute);
    assert(s % 60 == second);
    lemma_four_digits(y);
    lemma_two_digits(y / 100);
    lemma_two_digits(y % 100);
    lemma_two_digits(m);
    lemma_two_digits(d);
    lemma_two_digits(hour);
    lemma_two_digits(minute);
    lemma_two_digits(second);
    assert(y / 100 / 10 == y / 1000);
    assert(y % 100 / 10 == y / 10 % 10);
    assert(y % 100 % 10 == y % 10);
}

} // verus!
