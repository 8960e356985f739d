//! Canonical textual form of an access timestamp.
//!
//! A timestamp is a nonnegative count of whole seconds since the Unix epoch,
//! compared and rendered in UTC. Its canonical form is the 19-character
//! string `YYYY-MM-DD HH:MM:SS`; the form is lossless: parsing the rendered
//! string recovers exactly the original second count.

use vstd::prelude::*;

verus! {

/// Upper bound (exclusive) on renderable timestamps: the first second of
/// year 10000, the first instant that does not fit a four-digit year.
pub const MAX_RENDERABLE_SECONDS: i64 = 253402300800;

/// Number of days from 1970-01-01 to 10000-01-01.
pub const DAYS_TO_YEAR_10000: u64 = 2932897;

pub open spec fn renderable(secs: int) -> bool {
    0 <= secs < MAX_RENDERABLE_SECONDS
}

pub open spec fn is_leap_year(y: int) -> bool {
    (y % 4 == 0 && y % 100 != 0) || y % 400 == 0
}

pub open spec fn days_in_year(y: int) -> int {
    if is_leap_year(y) {
        366
    } else {
        365
    }
}

pub open spec fn days_in_month(y: int, m: int) -> int {
    if m == 2 {
        if is_leap_year(y) {
            29
        } else {
            28
        }
    } else if m == 4 || m == 6 || m == 9 || m == 11 {
        30
    } else {
        31
    }
}

/// Days from 1970-01-01 to the first day of year `y`.
pub open spec fn days_before_year(y: int) -> int
    decreases y,
{
    if y <= 1970 {
        0
    } else {
        days_before_year(y - 1) + days_in_year(y - 1)
    }
}

/// Days from the first day of year `y` to the first day of month `m` of `y`.
pub open spec fn days_before_month(y: int, m: int) -> int
    decreases m,
{
    if m <= 1 {
        0
    } else {
        days_before_month(y, m - 1) + days_in_month(y, m - 1)
    }
}

/// Starting at year `y` with `days` whole days remaining, peel off whole
/// years; the result is the reached year and the day offset within it.
pub open spec fn year_and_day(y: int, days: int) -> (int, int)
    decreases days,
{
    if days < days_in_year(y) {
        (y, days)
    } else {
        year_and_day(y + 1, days - days_in_year(y))
    }
}

/// Starting at month `m` of year `y` with `days` whole days remaining, peel
/// off whole months; the result is the reached month and the day offset
/// within it.
pub open spec fn month_and_day(y: int, m: int, days: int) -> (int, int)
    decreases 12 - m,
{
    if m >= 12 || days < days_in_month(y, m) {
        (m, days)
    } else {
        month_and_day(y, m + 1, days - days_in_month(y, m))
    }
}

proof fn lemma_days_before_year_monotone(a: int, b: int)
    requires
        a <= b,
    ensures
        days_before_year(a) <= days_before_year(b),
    decreases b - a,
{
    if a < b {
        lemma_days_before_year_monotone(a, b - 1);
    }
}

/// Number of leap years strictly before year `y` (counting from year 1).
spec fn leaps_before(y: int) -> int {
    (y - 1) / 4 - (y - 1) / 100 + (y - 1) / 400
}

proof fn lemma_div_step(n: int, d: int)
    requires
        1 <= n,
        0 < d,
    ensures
        n / d - (n - 1) / d == if n % d == 0 {
            1int
        } else {
            0int
        },
{
    vstd::arithmetic::div_mod::lemma_fundamental_div_mod(n, d);
    let q = n / d;
    let r = n % d;
    assert(n == q * d + r) by (nonlinear_arith)
        requires
            n == d * q + r,
    ;
    if r == 0 {
        assert(n - 1 == (q - 1) * d + (d - 1)) by (nonlinear_arith)
            requires
                n == q * d,
        ;
        vstd::arithmetic::div_mod::lemma_fundamental_div_mod_converse(n - 1, d, q - 1, d - 1);
    } else {
        vstd::arithmetic::div_mod::lemma_fundamental_div_mod_converse(n - 1, d, q, r - 1);
    }
}

proof fn lemma_leap_step(y: int)
    requires
        1971 <= y,
    ensures
        leaps_before(y) - leaps_before(y - 1) == if is_leap_year(y - 1) {
            1int
        } else {
            0int
        },
{
    let n = y - 1;
    lemma_div_step(n, 4);
    lemma_div_step(n, 100);
    lemma_div_step(n, 400);
    if n % 400 == 0 {
        vstd::arithmetic::div_mod::lemma_fundamental_div_mod(n, 400);
        assert(n == (4 * (n / 400)) * 100);
        vstd::arithmetic::div_mod::lemma_mod_multiples_basic(4 * (n / 400), 100);
    }
    if n % 100 == 0 {
        vstd::arithmetic::div_mod::lemma_fundamental_div_mod(n, 100);
        assert(n == (25 * (n / 100)) * 4);
        vstd::arithmetic::div_mod::lemma_mod_multiples_basic(25 * (n / 100), 4);
    }
}

proof fn lemma_days_before_year_closed(y: int)
    requires
        1970 <= y,
    ensures
        days_before_year(y) == 365 * (y - 1970) + leaps_before(y) - leaps_before(1970),
    decreases y,
{
    if y > 1970 {
        lemma_days_before_year_closed(y - 1);
        lemma_leap_step(y);
    }
}

pub proof fn lemma_days_to_year_10000()
    ensures
        days_before_year(10000) == DAYS_TO_YEAR_10000,
{
    lemma_days_before_year_closed(10000);
    vstd::arithmetic::div_mod::lemma_fundamental_div_mod_converse(9999, 4, 2499, 3);
    vstd::arithmetic::div_mod::lemma_fundamental_div_mod_converse(9999, 100, 99, 99);
    vstd::arithmetic::div_mod::lemma_fundamental_div_mod_converse(9999, 400, 24, 399);
    vstd::arithmetic::div_mod::lemma_fundamental_div_mod_converse(1969, 4, 492, 1);
    vstd::arithmetic::div_mod::lemma_fundamental_div_mod_converse(1969, 100, 19, 69);
    vstd::arithmetic::div_mod::lemma_fundamental_div_mod_converse(1969, 400, 4, 369);
}

proof fn lemma_days_before_month_monotone(y: int, a: int, b: int)
    requires
        a <= b,
    ensures
        days_before_month(y, a) <= days_before_month(y, b),
    decreases b - a,
{
    if a < b {
        lemma_days_before_month_monotone(y, a, b - 1);
    }
}

/// Summing the twelve month lengths gives the year length.
proof fn lemma_months_cover_year(y: int)
    ensures
        days_before_month(y, 13) == days_in_year(y),
{
    reveal_with_fuel(days_before_month, 13);
}

/// Peeling years from `lo` consumes exactly the days between the two year
/// starts before stopping inside year `y`.
proof fn lemma_year_peel(lo: int, y: int, k: int)
    requires
        1970 <= lo <= y,
        0 <= k < days_in_year(y),
    ensures
        year_and_day(lo, days_before_year(y) - days_before_year(lo) + k) == (y, k),
    decreases y - lo,
{
    if lo < y {
        lemma_days_before_year_monotone(lo + 1, y);
        lemma_year_peel(lo + 1, y, k);
    }
}

/// Whatever year the peeling stops in, the consumed days are exactly the
/// days between the year starts, and the rest fits inside that year.
proof fn lemma_year_unpeel(lo: int, days: int)
    requires
        1970 <= lo,
        0 <= days,
    ensures
        ({
            let (y, yd) = year_and_day(lo, days);
            &&& lo <= y
            &&& 0 <= yd < days_in_year(y)
            &&& days_before_year(y) - days_before_year(lo) + yd == days
        }),
    decreases days,
{
    if days >= days_in_year(lo) {
        lemma_year_unpeel(lo + 1, days - days_in_year(lo));
    }
}

/// Peeling months from `lo` consumes exactly the days between the two month
/// starts before stopping inside month `m`.
proof fn lemma_month_peel(y: int, lo: int, m: int, k: int)
    requires
        1 <= lo <= m <= 12,
        0 <= k < days_in_month(y, m),
    ensures
        month_and_day(y, lo, days_before_month(y, m) - days_before_month(y, lo) + k) == (m, k),
    decreases m - lo,
{
    if lo < m {
        lemma_days_before_month_monotone(y, lo + 1, m);
        lemma_month_peel(y, lo + 1, m, k);
    }
}

/// Whatever month the peeling stops in, the consumed days are exactly the
/// days between the month starts, and the rest fits inside that month.
proof fn lemma_month_unpeel(y: int, lo: int, days: int)
    requires
        1 <= lo <= 12,
        0 <= days,
        days_before_month(y, lo) + days < days_before_month(y, 13),
    ensures
        ({
            let (m, md) = month_and_day(y, lo, days);
            &&& lo <= m <= 12
            &&& 0 <= md < days_in_month(y, m)
            &&& days_before_month(y, m) - days_before_month(y, lo) + md == days
        }),
    decreases 12 - lo,
{
    if lo < 12 && days >= days_in_month(y, lo) {
        lemma_month_unpeel(y, lo + 1, days - days_in_month(y, lo));
    } else if lo == 12 && days >= days_in_month(y, lo) {
        assert(days_before_month(y, 13) == days_before_month(y, 12) + days_in_month(y, 12));
    }
}

pub open spec fn digit_char(d: int) -> char {
    if d == 0 {
        '0'
    } else if d == 1 {
        '1'
    } else if d == 2 {
        '2'
    } else if d == 3 {
        '3'
    } else if d == 4 {
        '4'
    } else if d == 5 {
        '5'
    } else if d == 6 {
        '6'
    } else if d == 7 {
        '7'
    } else if d == 8 {
        '8'
    } else {
        '9'
    }
}

/// The canonical 19 characters for the given field values.
pub open spec fn stamp_chars(y: int, mo: int, d: int, h: int, mi: int, s: int) -> Seq<char> {
    seq![
        digit_char(y / 1000 % 10),
        digit_char(y / 100 % 10),
        digit_char(y / 10 % 10),
        digit_char(y % 10),
        '-',
        digit_char(mo / 10 % 10),
        digit_char(mo % 10),
        '-',
        digit_char(d / 10 % 10),
        digit_char(d % 10),
        ' ',
        digit_char(h / 10 % 10),
        digit_char(h % 10),
        ':',
        digit_char(mi / 10 % 10),
        digit_char(mi % 10),
        ':',
        digit_char(s / 10 % 10),
        digit_char(s % 10),
    ]
}

/// The canonical textual form of a renderable timestamp.
pub open spec fn stamp_of(secs: int) -> Seq<char> {
    let days = secs / 86400;
    let rem = secs % 86400;
    let yp = year_and_day(1970, days);
    let mp = month_and_day(yp.0, 1, yp.1);
    stamp_chars(yp.0, mp.0, mp.1 + 1, rem / 3600, rem / 60 % 60, rem % 60)
}

fn leap_year(y: u32) -> (r: bool)
    ensures
        r == is_leap_year(y as int),
{
    (y % 4 == 0 && y % 100 != 0) || y % 400 == 0
}

fn year_len(y: u32) -> (r: u64)
    ensures
        r as int == days_in_year(y as int),
{
    if leap_year(y) {
        366
    } else {
        365
    }
}

fn month_len(y: u32, m: u32) -> (r: u64)
    ensures
        r as int == days_in_month(y as int, m as int),
{
    if m == 2 {
        if leap_year(y) {
            29
        } else {
            28
        }
    } else if m == 4 || m == 6 || m == 9 || m == 11 {
        30
    } else {
        31
    }
}

fn digit(d: u32) -> (c: char)
    requires
        d < 10,
    ensures
        c == digit_char(d as int),
{
    if d == 0 {
        '0'
    } else if d == 1 {
        '1'
    } else if d == 2 {
        '2'
    } else if d == 3 {
        '3'
    } else if d == 4 {
        '4'
    } else if d == 5 {
        '5'
    } else if d == 6 {
        '6'
    } else if d == 7 {
        '7'
    } else if d == 8 {
        '8'
    } else {
        '9'
    }
}

fn push_two_digits(out: &mut String, n: u32)
    requires
        n < 100,
    ensures
        final(out)@ == old(out)@.push(digit_char(n as int / 10 % 10)).push(
            digit_char(n as int % 10),
        ),
{
    proof {
        vstd::arithmetic::div_mod::lemma_small_mod((n as int / 10) as nat, 10);
    }
    crate::strbuf::push_char(out, digit(n / 10));
    crate::strbuf::push_char(out, digit(n % 10));
}

fn push_four_digits(out: &mut String, n: u32)
    requires
        n < 10000,
    ensures
        final(out)@ == old(out)@.push(digit_char(n as int / 1000 % 10)).push(
            digit_char(n as int / 100 % 10),
        ).push(digit_char(n as int / 10 % 10)).push(digit_char(n as int % 10)),
{
    proof {
        vstd::arithmetic::div_mod::lemma_small_mod((n as int / 1000) as nat, 10);
    }
    crate::strbuf::push_char(out, digit(n / 1000));
    crate::strbuf::push_char(out, digit(n / 100 % 10));
    crate::strbuf::push_char(out, digit(n / 10 % 10));
    crate::strbuf::push_char(out, digit(n % 10));
}

/// Renders a timestamp into its canonical `YYYY-MM-DD HH:MM:SS` form.
pub fn render_timestamp(secs: i64) -> (r: String)
    requires
        renderable(secs as int),
    ensures
        r@ == stamp_of(secs as int),
{
    let total: u64 = secs as u64;
    let days: u64 = total / 86400;
    let rem: u64 = total % 86400;
    proof {
        lemma_days_to_year_10000();
        vstd::arithmetic::div_mod::lemma_fundamental_div_mod_converse(
            2932896 * 86400 + 86399int,
            86400,
            2932896,
            86399,
        );
        vstd::arithmetic::div_mod::lemma_div_is_ordered(
            total as int,
            2932896 * 86400 + 86399int,
            86400,
        );
    }
    assert(days < 2932897);
    let mut y: u32 = 1970;
    let mut yd: u64 = days;
    let mut len: u64 = year_len(y);
    while yd >= len
        invariant
            1970 <= y <= 9999,
            len as int == days_in_year(y as int),
            year_and_day(1970, days as int) == year_and_day(y as int, yd as int),
            days_before_year(y as int) + yd as int == days as int,
            days < 2932897,
            days_before_year(10000) == 2932897,
        decreases yd,
    {
        proof {
            if y == 9999 {
                assert(days_before_year(10000) == days_before_year(9999) + days_in_year(9999));
                assert(false);
            }
            assert(days_before_year(y as int + 1) == days_before_year(y as int) + days_in_year(
                y as int,
            ));
        }
        yd = yd - len;
        y = y + 1;
        len = year_len(y);
    }
    proof {
        assert(year_and_day(y as int, yd as int) == (y as int, yd as int));
    }
    let mut m: u32 = 1;
    let mut md: u64 = yd;
    let mut mlen: u64 = month_len(y, m);
    proof {
        lemma_months_cover_year(y as int);
        lemma_month_unpeel(y as int, 1, yd as int);
    }
    while m < 12 && md >= mlen
        invariant
            1 <= m <= 12,
            mlen as int == days_in_month(y as int, m as int),
            month_and_day(y as int, 1, yd as int) == month_and_day(y as int, m as int, md as int),
            md <= yd,
        decreases 12 - m,
    {
        md = md - mlen;
        m = m + 1;
        mlen = month_len(y, m);
    }
    proof {
        assert(month_and_day(y as int, m as int, md as int) == (m as int, md as int));
        assert(month_and_day(y as int, 1, yd as int) == (m as int, md as int));
    }
    let day: u32 = (md + 1) as u32;
    let hour: u32 = (rem / 3600) as u32;
    let minute: u32 = ((rem / 60) % 60) as u32;
    let second: u32 = (rem % 60) as u32;
    proof {
        vstd::arithmetic::div_mod::lemma_div_is_ordered(rem as int, 86399, 3600);
        vstd::arithmetic::div_mod::lemma_fundamental_div_mod_converse(86399, 3600, 23, 3599);
    }
    let mut out: String = String::new();
    push_four_digits(&mut out, y);
    crate::strbuf::push_char(&mut out, '-');
    push_two_digits(&mut out, m);
    crate::strbuf::push_char(&mut out, '-');
    push_two_digits(&mut out, day);
    crate::strbuf::push_char(&mut out, ' ');
    push_two_digits(&mut out, hour);
    crate::strbuf::push_char(&mut out, ':');
    push_two_digits(&mut out, minute);
    crate::strbuf::push_char(&mut out, ':');
    push_two_digits(&mut out, second);
    proof {
        assert(out@ =~= stamp_of(secs as int));
    }
    out
}

pub open spec fn digit_val(c: char) -> int {
    if c == '0' {
        0
    } else if c == '1' {
        1
    } else if c == '2' {
        2
    } else if c == '3' {
        3
    } else if c == '4' {
        4
    } else if c == '5' {
        5
    } else if c == '6' {
        6
    } else if c == '7' {
        7
    } else if c == '8' {
        8
    } else if c == '9' {
        9
    } else {
        -1
    }
}

pub open spec fn two_val(t: Seq<char>, i: int) -> int {
    digit_val(t[i]) * 10 + digit_val(t[i + 1])
}

pub open spec fn four_val(t: Seq<char>, i: int) -> int {
    digit_val(t[i]) * 1000 + digit_val(t[i + 1]) * 100 + digit_val(t[i + 2]) * 10 + digit_val(
        t[i + 3],
    )
}

/// A character sequence is a well-formed canonical timestamp: the exact
/// `YYYY-MM-DD HH:MM:SS` shape with all fields in range for a renderable
/// second count.
pub open spec fn wf_stamp(t: Seq<char>) -> bool {
    &&& t.len() == 19
    &&& digit_val(t[0]) >= 0
    &&& digit_val(t[1]) >= 0
    &&& digit_val(t[2]) >= 0
    &&& digit_val(t[3]) >= 0
    &&& t[4] == '-'
    &&& digit_val(t[5]) >= 0
    &&& digit_val(t[6]) >= 0
    &&& t[7] == '-'
    &&& digit_val(t[8]) >= 0
    &&& digit_val(t[9]) >= 0
    &&& t[10] == ' '
    &&& digit_val(t[11]) >= 0
    &&& digit_val(t[12]) >= 0
    &&& t[13] == ':'
    &&& digit_val(t[14]) >= 0
    &&& digit_val(t[15]) >= 0
    &&& t[16] == ':'
    &&& digit_val(t[17]) >= 0
    &&& digit_val(t[18]) >= 0
    &&& 1970 <= four_val(t, 0)
    &&& 1 <= two_val(t, 5) <= 12
    &&& 1 <= two_val(t, 8) <= days_in_month(four_val(t, 0), two_val(t, 5))
    &&& two_val(t, 11) < 24
    &&& two_val(t, 14) < 60
    &&& two_val(t, 17) < 60
}

/// The second count encoded by the fields of a well-formed stamp.
pub open spec fn seconds_of_fields(y: int, mo: int, d: int, h: int, mi: int, s: int) -> int {
    (days_before_year(y) + days_before_month(y, mo) + (d - 1)) * 86400 + h * 3600 + mi * 60 + s
}

pub open spec fn stamp_seconds(t: Seq<char>) -> int {
    seconds_of_fields(
        four_val(t, 0),
        two_val(t, 5),
        two_val(t, 8),
        two_val(t, 11),
        two_val(t, 14),
        two_val(t, 17),
    )
}

proof fn lemma_digits2(n: int, d0: int, d1: int)
    requires
        0 <= d0 < 10,
        0 <= d1 < 10,
        n == d0 * 10 + d1,
    ensures
        n / 10 % 10 == d0,
        n % 10 == d1,
{
    vstd::arithmetic::div_mod::lemma_fundamental_div_mod_converse(n, 10, d0, d1);
    vstd::arithmetic::div_mod::lemma_small_mod(d0 as nat, 10);
}

proof fn lemma_digits4(n: int, d0: int, d1: int, d2: int, d3: int)
    requires
        0 <= d0 < 10,
        0 <= d1 < 10,
        0 <= d2 < 10,
        0 <= d3 < 10,
        n == d0 * 1000 + d1 * 100 + d2 * 10 + d3,
    ensures
        n / 1000 % 10 == d0,
        n / 100 % 10 == d1,
        n / 10 % 10 == d2,
        n % 10 == d3,
{
    vstd::arithmetic::div_mod::lemma_fundamental_div_mod_converse(
        n,
        1000,
        d0,
        d1 * 100 + d2 * 10 + d3,
    );
    vstd::arithmetic::div_mod::lemma_small_mod(d0 as nat, 10);
    vstd::arithmetic::div_mod::lemma_fundamental_div_mod_converse(
        n,
        100,
        d0 * 10 + d1,
        d2 * 10 + d3,
    );
    vstd::arithmetic::div_mod::lemma_fundamental_div_mod_converse(d0 * 10 + d1, 10, d0, d1);
    vstd::arithmetic::div_mod::lemma_fundamental_div_mod_converse(
        n,
        10,
        d0 * 100 + d1 * 10 + d2,
        d3,
    );
    vstd::arithmetic::div_mod::lemma_fundamental_div_mod_converse(
        d0 * 100 + d1 * 10 + d2,
        10,
        d0 * 10 + d1,
        d2,
    );
}

/// The canonical form of the second count encoded by valid fields is
/// exactly the characters of those fields.
proof fn lemma_stamp_of_fields(y: int, mo: int, d: int, h: int, mi: int, s: int)
    requires
        1970 <= y <= 9999,
        1 <= mo <= 12,
        1 <= d <= days_in_month(y, mo),
        0 <= h < 24,
        0 <= mi < 60,
        0 <= s < 60,
    ensures
        renderable(seconds_of_fields(y, mo, d, h, mi, s)),
        stamp_of(seconds_of_fields(y, mo, d, h, mi, s)) == stamp_chars(y, mo, d, h, mi, s),
{
    let k = days_before_month(y, mo) + (d - 1);
    let days = days_before_year(y) + k;
    let rem = h * 3600 + mi * 60 + s;
    let secs = seconds_of_fields(y, mo, d, h, mi, s);
    lemma_months_cover_year(y);
    lemma_days_before_month_monotone(y, 1, mo);
    lemma_days_before_year_monotone(1970, y);
    lemma_days_before_month_monotone(y, mo + 1, 13);
    assert(days_before_month(y, mo + 1) == days_before_month(y, mo) + days_in_month(y, mo));
    assert(0 <= k < days_in_year(y));
    lemma_days_to_year_10000();
    lemma_days_before_year_monotone(y + 1, 10000);
    assert(days_before_year(y + 1) == days_before_year(y) + days_in_year(y));
    assert(0 <= days < 2932897);
    assert(secs == days * 86400 + rem);
    vstd::arithmetic::div_mod::lemma_fundamental_div_mod_converse(secs, 86400, days, rem);
    vstd::arithmetic::mul::lemma_mul_inequality(days, 2932896, 86400);
    assert(renderable(secs));
    lemma_year_peel(1970, y, k);
    assert(year_and_day(1970, days) == (y, k));
    lemma_month_peel(y, 1, mo, d - 1);
    assert(month_and_day(y, 1, k) == (mo, d - 1));
    vstd::arithmetic::div_mod::lemma_fundamental_div_mod_converse(rem, 3600, h, mi * 60 + s);
    vstd::arithmetic::div_mod::lemma_fundamental_div_mod_converse(rem, 60, h * 60 + mi, s);
    vstd::arithmetic::div_mod::lemma_fundamental_div_mod_converse(h * 60 + mi, 60, h, mi);
}

proof fn lemma_digit_roundtrip(d: int)
    requires
        0 <= d < 10,
    ensures
        digit_val(digit_char(d)) == d,
{
}

proof fn lemma_digit_val_char(c: char)
    requires
        digit_val(c) >= 0,
    ensures
        digit_char(digit_val(c)) == c,
{
}

/// A sequence with the stamp shape whose fields decode to the given valid
/// values is well formed, and is the canonical form of the second count
/// those values encode.
proof fn lemma_fields_to_stamp(t: Seq<char>, y: int, mo: int, d: int, h: int, mi: int, s: int)
    requires
        t.len() == 19,
        t[4] == '-',
        t[7] == '-',
        t[10] == ' ',
        t[13] == ':',
        t[16] == ':',
        digit_val(t[0]) >= 0,
        digit_val(t[1]) >= 0,
        digit_val(t[2]) >= 0,
        digit_val(t[3]) >= 0,
        digit_val(t[5]) >= 0,
        digit_val(t[6]) >= 0,
        digit_val(t[8]) >= 0,
        digit_val(t[9]) >= 0,
        digit_val(t[11]) >= 0,
        digit_val(t[12]) >= 0,
        digit_val(t[14]) >= 0,
        digit_val(t[15]) >= 0,
        digit_val(t[17]) >= 0,
        digit_val(t[18]) >= 0,
        four_val(t, 0) == y,
        two_val(t, 5) == mo,
        two_val(t, 8) == d,
        two_val(t, 11) == h,
        two_val(t, 14) == mi,
        two_val(t, 17) == s,
        1970 <= y,
        1 <= mo <= 12,
        1 <= d <= days_in_month(y, mo),
        0 <= h < 24,
        0 <= mi < 60,
        0 <= s < 60,
    ensures
        wf_stamp(t),
        renderable(seconds_of_fields(y, mo, d, h, mi, s)),
        stamp_of(seconds_of_fields(y, mo, d, h, mi, s)) == t,
{
    assert(y <= 9999);
    lemma_stamp_of_fields(y, mo, d, h, mi, s);
    lemma_digits4(y, digit_val(t[0]), digit_val(t[1]), digit_val(t[2]), digit_val(t[3]));
    lemma_digits2(mo, digit_val(t[5]), digit_val(t[6]));
    lemma_digits2(d, digit_val(t[8]), digit_val(t[9]));
    lemma_digits2(h, digit_val(t[11]), digit_val(t[12]));
    lemma_digits2(mi, digit_val(t[14]), digit_val(t[15]));
    lemma_digits2(s, digit_val(t[17]), digit_val(t[18]));
    lemma_digit_val_char(t[0]);
    lemma_digit_val_char(t[1]);
    lemma_digit_val_char(t[2]);
    lemma_digit_val_char(t[3]);
    lemma_digit_val_char(t[5]);
    lemma_digit_val_char(t[6]);
    lemma_digit_val_char(t[8]);
    lemma_digit_val_char(t[9]);
    lemma_digit_val_char(t[11]);
    lemma_digit_val_char(t[12]);
    lemma_digit_val_char(t[14]);
    lemma_digit_val_char(t[15]);
    lemma_digit_val_char(t[17]);
    lemma_digit_val_char(t[18]);
    assert(stamp_chars(y, mo, d, h, mi, s) =~= t);
}

/// Decoding the canonical form of a renderable second count yields a
/// well-formed stamp that encodes that same count.
pub proof fn lemma_stamp_decode(secs: int)
    requires
        renderable(secs),
    ensures
        wf_stamp(stamp_of(secs)),
        stamp_seconds(stamp_of(secs)) == secs,
{
    let days = secs / 86400;
    let rem = secs % 86400;
    vstd::arithmetic::div_mod::lemma_fundamental_div_mod(secs, 86400);
    vstd::arithmetic::div_mod::lemma_div_pos_is_pos(secs, 86400);
    vstd::arithmetic::div_mod::lemma_fundamental_div_mod_converse(
        2932896 * 86400 + 86399int,
        86400,
        2932896,
        86399,
    );
    vstd::arithmetic::div_mod::lemma_div_is_ordered(secs, 2932896 * 86400 + 86399int, 86400);
    assert(0 <= days < 2932897);
    lemma_year_unpeel(1970, days);
    let (y, yd) = year_and_day(1970, days);
    lemma_days_to_year_10000();
    if y >= 10000 {
        lemma_days_before_year_monotone(10000, y);
    }
    assert(1970 <= y <= 9999);
    lemma_months_cover_year(y);
    lemma_month_unpeel(y, 1, yd);
    let (mo, md) = month_and_day(y, 1, yd);
    let h = rem / 3600;
    let mi = rem / 60 % 60;
    let s = rem % 60;
    vstd::arithmetic::div_mod::lemma_fundamental_div_mod(rem, 3600);
    vstd::arithmetic::div_mod::lemma_fundamental_div_mod(rem, 60);
    vstd::arithmetic::div_mod::lemma_fundamental_div_mod(rem / 60, 60);
    vstd::arithmetic::div_mod::lemma_div_is_ordered(rem, 86399, 3600);
    vstd::arithmetic::div_mod::lemma_fundamental_div_mod_converse(86399, 3600, 23, 3599);
    vstd::arithmetic::div_mod::lemma_div_is_ordered(rem, 86399, 60);
    vstd::arithmetic::div_mod::lemma_fundamental_div_mod_converse(86399, 60, 1439, 59);
    assert(0 <= h < 24);
    assert(0 <= mi < 60);
    assert(0 <= s < 60);
    // rem recomposes from its three fields
    assert(rem == h * 3600 + mi * 60 + s) by {
        let q = rem / 60;
        vstd::arithmetic::div_mod::lemma_fundamental_div_mod_converse(q, 60, q / 60, q % 60);
        assert(rem == (q / 60) * 3600 + (q % 60) * 60 + rem % 60);
        // q / 60 == rem / 3600
        vstd::arithmetic::div_mod::lemma_div_denominator(rem, 60, 60);
    };
    let t = stamp_of(secs);
    assert(t == stamp_chars(y, mo, md + 1, h, mi, s));
    lemma_digit_roundtrip(y / 1000 % 10);
    lemma_digit_roundtrip(y / 100 % 10);
    lemma_digit_roundtrip(y / 10 % 10);
    lemma_digit_roundtrip(y % 10);
    lemma_digit_roundtrip(mo / 10 % 10);
    lemma_digit_roundtrip(mo % 10);
    lemma_digit_roundtrip((md + 1) / 10 % 10);
    lemma_digit_roundtrip((md + 1) % 10);
    lemma_digit_roundtrip(h / 10 % 10);
    lemma_digit_roundtrip(h % 10);
    lemma_digit_roundtrip(mi / 10 % 10);
    lemma_digit_roundtrip(mi % 10);
    lemma_digit_roundtrip(s / 10 % 10);
    lemma_digit_roundtrip(s % 10);
    // each field is recovered from its digits
    lemma_digit_sum4(y);
    lemma_digit_sum2(mo);
    lemma_digit_sum2(md + 1);
    lemma_digit_sum2(h);
    lemma_digit_sum2(mi);
    lemma_digit_sum2(s);
    assert(four_val(t, 0) == y);
    assert(two_val(t, 5) == mo);
    assert(two_val(t, 8) == md + 1);
    assert(two_val(t, 11) == h);
    assert(two_val(t, 14) == mi);
    assert(two_val(t, 17) == s);
}

proof fn lemma_digit_sum2(n: int)
    requires
        0 <= n < 100,
    ensures
        (n / 10 % 10) * 10 + n % 10 == n,
{
    vstd::arithmetic::div_mod::lemma_fundamental_div_mod(n, 10);
    vstd::arithmetic::div_mod::lemma_div_is_ordered(n, 99, 10);
    vstd::arithmetic::div_mod::lemma_fundamental_div_mod_converse(99, 10, 9, 9);
    vstd::arithmetic::div_mod::lemma_div_pos_is_pos(n, 10);
    vstd::arithmetic::div_mod::lemma_small_mod((n / 10) as nat, 10);
}

proof fn lemma_digit_sum4(n: int)
    requires
        0 <= n < 10000,
    ensures
        (n / 1000 % 10) * 1000 + (n / 100 % 10) * 100 + (n / 10 % 10) * 10 + n % 10 == n,
{
    vstd::arithmetic::div_mod::lemma_fundamental_div_mod(n, 1000);
    let d0 = n / 1000;
    let r1 = n % 1000;
    vstd::arithmetic::div_mod::lemma_div_is_ordered(n, 9999, 1000);
    vstd::arithmetic::div_mod::lemma_fundamental_div_mod_converse(9999, 1000, 9, 999);
    vstd::arithmetic::div_mod::lemma_div_pos_is_pos(n, 1000);
    vstd::arithmetic::div_mod::lemma_small_mod(d0 as nat, 10);
    vstd::arithmetic::div_mod::lemma_fundamental_div_mod(r1, 100);
    let d1 = r1 / 100;
    let r2 = r1 % 100;
    vstd::arithmetic::div_mod::lemma_div_is_ordered(r1, 999, 100);
    vstd::arithmetic::div_mod::lemma_fundamental_div_mod_converse(999, 100, 9, 99);
    vstd::arithmetic::div_mod::lemma_div_pos_is_pos(r1, 100);
    vstd::arithmetic::div_mod::lemma_fundamental_div_mod(r2, 10);
    let d2 = r2 / 10;
    let d3 = r2 % 10;
    vstd::arithmetic::div_mod::lemma_div_is_ordered(r2, 99, 10);
    vstd::arithmetic::div_mod::lemma_fundamental_div_mod_converse(99, 10, 9, 9);
    vstd::arithmetic::div_mod::lemma_div_pos_is_pos(r2, 10);
    lemma_digits4(n, d0, d1, d2, d3);
}

/// The canonical form is lossless: two renderable second counts with the
/// same canonical form are the same count.
pub proof fn lemma_stamp_lossless(s1: int, s2: int)
    requires
        renderable(s1),
        renderable(s2),
        stamp_of(s1) == stamp_of(s2),
    ensures
        s1 == s2,
{
    lemma_stamp_decode(s1);
    lemma_stamp_decode(s2);
}

fn digit_value(c: char) -> (v: Option<u32>)
    ensures
        match v {
            Some(d) => digit_val(c) == d && d < 10,
            None => digit_val(c) < 0,
        },
{
    if c == '0' {
        Some(0)
    } else if c == '1' {
        Some(1)
    } else if c == '2' {
        Some(2)
    } else if c == '3' {
        Some(3)
    } else if c == '4' {
        Some(4)
    } else if c == '5' {
        Some(5)
    } else if c == '6' {
        Some(6)
    } else if c == '7' {
        Some(7)
    } else if c == '8' {
        Some(8)
    } else if c == '9' {
        Some(9)
    } else {
        None
    }
}

/// Parses a canonical `YYYY-MM-DD HH:MM:SS` string back into its second
/// count. Succeeds exactly on well-formed stamps, and on the rendering of a
/// timestamp it recovers that timestamp.
#[verifier::rlimit(80)]
pub fn parse_timestamp(t: &str) -> (r: Option<i64>)
    ensures
        r is Some <==> wf_stamp(t@),
        r matches Some(s) ==> renderable(s as int) && stamp_of(s as int) == t@,
{
    if t.unicode_len() != 19 {
        return None;
    }
    if !(t.get_char(4) == '-' && t.get_char(7) == '-' && t.get_char(10) == ' ' && t.get_char(13)
        == ':' && t.get_char(16) == ':') {
        return None;
    }
    let a0 = match digit_value(t.get_char(0)) {
        Some(v) => v,
        None => {
            return None;
        },
    };
    let a1 = match digit_value(t.get_char(1)) {
        Some(v) => v,
        None => {
            return None;
        },
    };
    let a2 = match digit_value(t.get_char(2)) {
        Some(v) => v,
        None => {
            return None;
        },
    };
    let a3 = match digit_value(t.get_char(3)) {
        Some(v) => v,
        None => {
            return None;
        },
    };
    let b0 = match digit_value(t.get_char(5)) {
        Some(v) => v,
        None => {
            return None;
        },
    };
    let b1 = match digit_value(t.get_char(6)) {
        Some(v) => v,
        None => {
            return None;
        },
    };
    let c0 = match digit_value(t.get_char(8)) {
        Some(v) => v,
        None => {
            return None;
        },
    };
    let c1 = match digit_value(t.get_char(9)) {
        Some(v) => v,
        None => {
            return None;
        },
    };
    let e0 = match digit_value(t.get_char(11)) {
        Some(v) => v,
        None => {
            return None;
        },
    };
    let e1 = match digit_value(t.get_char(12)) {
        Some(v) => v,
        None => {
            return None;
        },
    };
    let f0 = match digit_value(t.get_char(14)) {
        Some(v) => v,
        None => {
            return None;
        },
    };
    let f1 = match digit_value(t.get_char(15)) {
        Some(v) => v,
        None => {
            return None;
        },
    };
    let g0 = match digit_value(t.get_char(17)) {
        Some(v) => v,
        None => {
            return None;
        },
    };
    let g1 = match digit_value(t.get_char(18)) {
        Some(v) => v,
        None => {
            return None;
        },
    };
    let y: u32 = a0 * 1000 + a1 * 100 + a2 * 10 + a3;
    let mo: u32 = b0 * 10 + b1;
    let d: u32 = c0 * 10 + c1;
    let h: u32 = e0 * 10 + e1;
    let mi: u32 = f0 * 10 + f1;
    let s: u32 = g0 * 10 + g1;
    if y < 1970 || mo < 1 || mo > 12 || d < 1 || h > 23 || mi > 59 || s > 59 {
        return None;
    }
    if (d as u64) > month_len(y, mo) {
        return None;
    }
    // accumulate the days before year `y`
    proof {
        lemma_days_to_year_10000();
    }
    let mut days: u64 = 0;
    let mut yy: u32 = 1970;
    while yy < y
        invariant
            1970 <= yy <= y <= 9999,
            days as int == days_before_year(yy as int),
            days_before_year(10000) == 2932897,
        decreases y - yy,
    {
        proof {
            lemma_days_before_year_monotone(yy as int + 1, 10000);
            assert(days_before_year(yy as int + 1) == days_before_year(yy as int) + days_in_year(
                yy as int,
            ));
        }
        days = days + year_len(yy);
        yy = yy + 1;
    }
    // accumulate the days before month `mo` of year `y`
    let mut month_days: u64 = 0;
    let mut mm: u32 = 1;
    while mm < mo
        invariant
            1 <= mm <= mo <= 12,
            month_days as int == days_before_month(y as int, mm as int),
            month_days <= 31 * (mm - 1),
        decreases mo - mm,
    {
        month_days = month_days + month_len(y, mm);
        mm = mm + 1;
    }
    proof {
        lemma_months_cover_year(y as int);
        lemma_days_before_month_monotone(y as int, mo as int + 1, 13);
        assert(days_before_month(y as int, mo as int + 1) == days_before_month(y as int, mo as int)
            + days_in_month(y as int, mo as int));
        lemma_days_before_year_monotone(y as int + 1, 10000);
        assert(days_before_year(y as int + 1) == days_before_year(y as int) + days_in_year(
            y as int,
        ));
    }
    let total_days: u64 = days + month_days + (d as u64 - 1);
    assert(total_days < 2932897);
    let rem: u64 = (h as u64) * 3600 + (mi as u64) * 60 + (s as u64);
    let secs: u64 = total_days * 86400 + rem;
    proof {
        lemma_fields_to_stamp(
            t@,
            y as int,
            mo as int,
            d as int,
            h as int,
            mi as int,
            s as int,
        );
        assert(secs as int == seconds_of_fields(
            y as int,
            mo as int,
            d as int,
            h as int,
            mi as int,
            s as int,
        ));
    }
    Some(secs as i64)
}

} // verus!
