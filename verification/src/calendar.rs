//! Unix seconds as a date and a time of day in UTC.

use crate::number;
use crate::number::{zero_padded_int_text, zero_padded_text};
use crate::text;
use vstd::prelude::*;
use vstd::string::StringExecFns;

verus! {

broadcast use vstd::string::group_string_axioms;

/// A day of the Gregorian calendar, carried back before its adoption.
pub struct Date {
    pub year: i64,
    pub month: u64,
    pub day: u64,
}

/// Whether a year has 366 days.
pub open spec fn is_leap(year: int) -> bool {
    year % 4 == 0 && (year % 100 != 0 || year % 400 == 0)
}

/// How many days a month has.
pub open spec fn days_in_month(year: int, month: int) -> int {
    if month == 2 {
        if is_leap(year) {
            29
        } else {
            28
        }
    } else if month == 4 || month == 6 || month == 9 || month == 11 {
        30
    } else {
        31
    }
}

/// Days from the first of January 1970 to the first of January of a year.
pub open spec fn year_start(year: int) -> int {
    365 * (year - 1970) + (year - 1) / 4 - (year - 1) / 100 + (year - 1) / 400 - 477
}

/// Days from the first of January to the first of a month of the same year.
pub open spec fn month_start(year: int, month: int) -> int
    decreases month,
{
    if month <= 1 {
        0
    } else {
        month_start(year, month - 1) + days_in_month(year, month - 1)
    }
}

impl Date {
    /// Whether the calendar has this day.
    pub open spec fn valid(self) -> bool {
        &&& 1 <= self.month <= 12
        &&& 1 <= self.day <= days_in_month(self.year as int, self.month as int)
    }

    /// Days from the first of January 1970 to this day.
    pub open spec fn day_number(self) -> int {
        year_start(self.year as int) + month_start(self.year as int, self.month as int) + self.day
            - 1
    }
}

/// Year after year, the start of the year moves by the length of the year.
pub proof fn years_follow_each_other(year: int)
    ensures
        year_start(1970) == 0,
        year_start(year + 1) == year_start(year) + (if is_leap(year) {
            366int
        } else {
            365int
        }),
{
}

proof fn lemma_month_starts(year: int)
    ensures
        month_start(year, 1) == 0,
        month_start(year, 2) == 31,
        month_start(year, 3) == 31 + days_in_month(year, 2),
        month_start(year, 4) == 62 + days_in_month(year, 2),
        month_start(year, 5) == 92 + days_in_month(year, 2),
        month_start(year, 6) == 123 + days_in_month(year, 2),
        month_start(year, 7) == 153 + days_in_month(year, 2),
        month_start(year, 8) == 184 + days_in_month(year, 2),
        month_start(year, 9) == 215 + days_in_month(year, 2),
        month_start(year, 10) == 245 + days_in_month(year, 2),
        month_start(year, 11) == 276 + days_in_month(year, 2),
        month_start(year, 12) == 306 + days_in_month(year, 2),
{
    reveal_with_fuel(month_start, 13);
}

/// Days in the first `y` years of a four-century cycle whose years begin in
/// March.
spec fn cycle_days(y: int) -> int {
    365 * y + y / 4 - y / 100
}

proof fn lemma_year_of_cycle(doe: int)
    requires
        0 <= doe < 146097,
    ensures
        ({
            let yoe = (doe - doe / 1460 + doe / 36524 - doe / 146096) / 365;
            &&& 0 <= yoe < 400
            &&& cycle_days(yoe) <= doe
            &&& yoe < 399 ==> doe < cycle_days(yoe + 1)
        }),
{
}

/// Four centuries shift a year by whole multiples of every cycle.
proof fn lemma_four_centuries(x: int, era: int)
    ensures
        (x + era * 400) / 4 == x / 4 + 100 * era,
        (x + era * 400) / 100 == x / 100 + 4 * era,
        (x + era * 400) / 400 == x / 400 + era,
        (x + era * 400) % 4 == x % 4,
        (x + era * 400) % 100 == x % 100,
        (x + era * 400) % 400 == x % 400,
{
}

proof fn lemma_march_first(era: int, yoe: int)
    requires
        0 <= yoe < 400,
    ensures
        ({
            let year = yoe + era * 400;
            &&& year_start(year) + 31 + days_in_month(year, 2) == era * 146097 + cycle_days(yoe)
                - 719468
            &&& is_leap(year + 1) == (yoe % 4 == 3 && (yoe % 100 != 99 || yoe == 399))
            &&& year_start(year + 1) == era * 146097 + cycle_days(yoe) - 719468 + 306
        }),
{
    let year = yoe + era * 400;
    lemma_four_centuries(yoe - 1, era);
    lemma_four_centuries(yoe, era);
    lemma_four_centuries(yoe + 1, era);
    assert(yoe - 1 + era * 400 == year - 1);
    assert(yoe + 1 + era * 400 == year + 1);
    years_follow_each_other(year);
    assert(is_leap(year) == is_leap(yoe));
    assert(is_leap(year + 1) == is_leap(yoe + 1));
    assert(year_start(year) == year_start(yoe) + era * 146097);
}

/// Within a year that begins in March: the month and the day that the
/// formula gives for a day of the year.
proof fn lemma_month_of_year(year: int, doy: int)
    requires
        0 <= doy <= 365,
        doy == 365 ==> is_leap(year + 1),
    ensures
        ({
            let mp = (5 * doy + 2) / 153;
            let day = doy - (153 * mp + 2) / 5 + 1;
            let month = if mp < 10 {
                mp + 3
            } else {
                mp - 9
            };
            &&& 0 <= mp <= 11
            &&& month >= 3 ==> {
                &&& 1 <= day <= days_in_month(year, month)
                &&& month_start(year, month) + day - 1 == 31 + days_in_month(year, 2) + doy
            }
            &&& month <= 2 ==> {
                &&& 1 <= day <= days_in_month(year + 1, month)
                &&& month_start(year + 1, month) + day - 1 == doy - 306
            }
        }),
{
    lemma_month_starts(year);
    lemma_month_starts(year + 1);
    let mp = (5 * doy + 2) / 153;
    assert(mp == 0 || mp == 1 || mp == 2 || mp == 3 || mp == 4 || mp == 5 || mp == 6 || mp == 7
        || mp == 8 || mp == 9 || mp == 10 || mp == 11);
}

/// A quotient rounded down, and the remainder that it leaves.
fn floor_div(a: i64, b: i64) -> (r: (i64, i64))
    requires
        b > 0,
    ensures
        r.0 == (a as int) / (b as int),
        r.1 == (a as int) % (b as int),
{
    if a >= 0 {
        (a / b, a % b)
    } else {
        let n = -(a + 1);
        let q = -(n / b) - 1;
        let rest = b - 1 - n % b;
        proof {
            let m = n as int / (b as int);
            vstd::arithmetic::div_mod::lemma_fundamental_div_mod(n as int, b as int);
            assert(b * (-m - 1) == -(b * m) - b) by (nonlinear_arith);
            assert((-m - 1) * b == b * (-m - 1)) by (nonlinear_arith);
            vstd::arithmetic::div_mod::lemma_fundamental_div_mod_converse(
                a as int,
                b as int,
                -m - 1,
                rest as int,
            );
        }
        (q, rest)
    }
}

/// The day that lies `days` days after the first of January 1970.
pub fn civil_from_days(days: i64) -> (date: Date)
    requires
        -200_000_000_000_000 <= days <= 200_000_000_000_000,
    ensures
        date.valid(),
        date.day_number() == days,
{
    let z: i64 = days + 719_468;
    let (era, doe) = floor_div(z, 146_097);
    let yoe: i64 = (doe - doe / 1460 + doe / 36_524 - doe / 146_096) / 365;
    proof {
        lemma_year_of_cycle(doe as int);
        lemma_march_first(era as int, yoe as int);
    }
    let doy: i64 = doe - (365 * yoe + yoe / 4 - yoe / 100);
    proof {
        assert(doy == doe - cycle_days(yoe as int));
        assert(0 <= doy <= 365);
        lemma_month_of_year(yoe + era * 400, doy as int);
    }
    let mp: i64 = (5 * doy + 2) / 153;
    let day: i64 = doy - (153 * mp + 2) / 5 + 1;
    let month: i64 = if mp < 10 {
        mp + 3
    } else {
        mp - 9
    };
    let year: i64 = yoe + era * 400 + (if month <= 2 {
        1
    } else {
        0
    });
    Date { year, month: month as u64, day: day as u64 }
}

proof fn lemma_years_ordered(a: int, b: int)
    requires
        a < b,
    ensures
        year_start(a) + 365 + (if is_leap(a) {
            1int
        } else {
            0int
        }) <= year_start(b),
    decreases b - a,
{
    years_follow_each_other(a);
    if a + 1 < b {
        lemma_years_ordered(a + 1, b);
    }
}

proof fn lemma_months_ordered(year: int, a: int, b: int)
    requires
        1 <= a < b <= 13,
    ensures
        month_start(year, a) + days_in_month(year, a) <= month_start(year, b),
    decreases b - a,
{
    reveal_with_fuel(month_start, 2);
    if a + 1 < b {
        lemma_months_ordered(year, a + 1, b);
    }
}

/// Within its year, a day comes before the year's end.
proof fn lemma_day_in_year(date: Date)
    requires
        date.valid(),
    ensures
        year_start(date.year as int) <= date.day_number(),
        date.day_number() < year_start(date.year + 1),
{
    let year = date.year as int;
    lemma_month_starts(year);
    years_follow_each_other(year);
    reveal_with_fuel(month_start, 2);
    lemma_months_ordered(year, date.month as int, 13);
    assert(month_start(year, 13) == month_start(year, 12) + 31);
    if date.month > 1 {
        lemma_months_ordered(year, 1, date.month as int);
    }
}

/// A day has one date: two valid dates with the same day number are the same.
pub proof fn one_date_per_day(a: Date, b: Date)
    requires
        a.valid(),
        b.valid(),
        a.day_number() == b.day_number(),
    ensures
        a == b,
{
    lemma_day_in_year(a);
    lemma_day_in_year(b);
    if a.year < b.year {
        lemma_years_ordered(a.year as int, b.year as int);
        years_follow_each_other(a.year as int);
    } else if b.year < a.year {
        lemma_years_ordered(b.year as int, a.year as int);
        years_follow_each_other(b.year as int);
    } else if a.month < b.month {
        lemma_months_ordered(a.year as int, a.month as int, b.month as int);
    } else if b.month < a.month {
        lemma_months_ordered(a.year as int, b.month as int, a.month as int);
    }
}

/// The date of the day that lies `days` days after the first of January 1970.
pub open spec fn date_of(days: int) -> Date {
    choose|date: Date| date.valid() && #[trigger] date.day_number() == days
}

/// `YYYY-MM-DD HH:MM` for a date and a second of that day.
pub open spec fn time_text(date: Date, second: int) -> Seq<char> {
    let month = number::zero_padded(number::decimal(date.month as nat), 2);
    let day = number::zero_padded(number::decimal(date.day as nat), 2);
    let hour = number::zero_padded(number::decimal((second / 3600) as nat), 2);
    let minute = number::zero_padded(number::decimal((second % 3600 / 60) as nat), 2);
    number::zero_padded_int(date.year as int, 4) + "-"@ + month + "-"@ + day + " "@ + hour + ":"@
        + minute
}

/// Unix seconds as UTC `YYYY-MM-DD HH:MM`.
pub open spec fn shown(secs: int) -> Seq<char> {
    time_text(date_of(secs / 86400), secs % 86400)
}

/// Unix seconds as UTC `YYYY-MM-DD HH:MM`.
pub fn fmt_time(secs: i64) -> (r: String)
    ensures
        r@ == shown(secs as int),
{
    let (days, tod) = floor_div(secs, 86_400);
    let hh: i64 = tod / 3600;
    let mm: i64 = (tod % 3600) / 60;
    let date = civil_from_days(days);
    proof {
        let other = date_of(secs as int / 86400);
        assert(other.valid() && other.day_number() == days);
        one_date_per_day(date, other);
        lemma_day_in_year(date);
    }
    assert(date.year > i64::MIN);
    let mut s = zero_padded_int_text(date.year, 4);
    s.append("-");
    s.append(zero_padded_text(date.month, 2).as_str());
    s.append("-");
    s.append(zero_padded_text(date.day, 2).as_str());
    s.append(" ");
    s.append(zero_padded_text(hh as u64, 2).as_str());
    s.append(":");
    s.append(zero_padded_text(mm as u64, 2).as_str());
    s
}

/// Every day has a date.
proof fn lemma_date_exists(days: int)
    requires
        -1_000_000_000 <= days <= 1_000_000_000,
    ensures
        date_of(days).valid(),
        date_of(days).day_number() == days,
{
    let z = days + 719468;
    let era = z / 146097;
    let doe = z % 146097;
    let yoe = (doe - doe / 1460 + doe / 36524 - doe / 146096) / 365;
    lemma_year_of_cycle(doe);
    lemma_march_first(era, yoe);
    let doy = doe - cycle_days(yoe);
    lemma_month_of_year(yoe + era * 400, doy);
    let mp = (5 * doy + 2) / 153;
    let day = doy - (153 * mp + 2) / 5 + 1;
    let month = if mp < 10 {
        mp + 3
    } else {
        mp - 9
    };
    let year = yoe + era * 400 + (if month <= 2 {
        1int
    } else {
        0
    });
    let date = Date { year: year as i64, month: month as u64, day: day as u64 };
    assert(date.valid() && date.day_number() == days);
}

/// A number below ten as one digit.
spec fn digit(n: int) -> char {
    number::digit_char(n as nat)
}

/// A number below a hundred as two digits.
spec fn two_digits(n: int) -> Seq<char> {
    seq![digit(n / 10), digit(n % 10)]
}

/// A number below ten thousand as four digits.
spec fn four_digits(n: int) -> Seq<char> {
    two_digits(n / 100) + two_digits(n % 100)
}

proof fn lemma_two_digits(n: int)
    requires
        0 <= n < 100,
    ensures
        number::zero_padded(number::decimal(n as nat), 2) == two_digits(n),
{
    reveal_with_fuel(number::decimal, 2);
    assert(number::zero_padded(number::decimal(n as nat), 2) =~= two_digits(n));
}

proof fn lemma_four_digits(n: int)
    requires
        0 <= n < 10000,
    ensures
        number::zero_padded_int(n, 4) == four_digits(n),
{
    reveal_with_fuel(number::decimal, 4);
    let s = number::decimal(n as nat);
    if n < 10 {
        assert(s =~= seq![digit(n)]);
    } else if n < 100 {
        assert(s =~= seq![digit(n / 10), digit(n % 10)]);
    } else if n < 1000 {
        assert(n / 10 / 10 == n / 100);
        assert(s =~= seq![digit(n / 100), digit(n / 10 % 10), digit(n % 10)]);
        assert(n % 100 / 10 == n / 10 % 10);
        assert(n % 100 % 10 == n % 10);
    } else {
        assert(n / 10 / 10 == n / 100);
        assert(n / 10 / 10 / 10 == n / 1000);
        assert(s =~= seq![digit(n / 1000), digit(n / 100 % 10), digit(n / 10 % 10), digit(n % 10)]);
        assert(n / 100 / 10 == n / 1000);
        assert(n % 100 / 10 == n / 10 % 10);
        assert(n % 100 % 10 == n % 10);
    }
    assert(number::zero_padded_int(n, 4) =~= four_digits(n));
}

proof fn lemma_two_ordered(a: int, b: int)
    requires
        0 <= a < b < 100,
    ensures
        text::ordered_before(two_digits(a), two_digits(b)),
{
    let x = two_digits(a);
    let y = two_digits(b);
    if a / 10 < b / 10 {
        assert(x.take(0) =~= y.take(0));
        assert(x[0] < y[0]);
    } else {
        assert(a / 10 == b / 10);
        assert(a % 10 < b % 10);
        assert(x.take(1) =~= y.take(1));
        assert(x[1] < y[1]);
    }
}

proof fn lemma_four_ordered(a: int, b: int)
    requires
        0 <= a < b < 10000,
    ensures
        text::ordered_before(four_digits(a), four_digits(b)),
{
    let x = four_digits(a);
    let y = four_digits(b);
    let none = Seq::<char>::empty();
    if a / 100 < b / 100 {
        lemma_two_ordered(a / 100, b / 100);
        text::order_shows_within(
            none,
            two_digits(a / 100),
            two_digits(b / 100),
            two_digits(a % 100),
            two_digits(b % 100),
        );
        assert(none + two_digits(a / 100) + two_digits(a % 100) =~= x);
        assert(none + two_digits(b / 100) + two_digits(b % 100) =~= y);
    } else {
        assert(a / 100 == b / 100);
        lemma_two_ordered(a % 100, b % 100);
        text::order_shows_within(
            two_digits(a / 100),
            two_digits(a % 100),
            two_digits(b % 100),
            none,
            none,
        );
        assert(two_digits(a / 100) + two_digits(a % 100) + none =~= x);
        assert(two_digits(b / 100) + two_digits(b % 100) + none =~= y);
    }
}

/// A moment of a year with four digits.
spec fn in_four_digits(secs: int) -> bool {
    -62_167_219_200 <= secs <= 253_402_300_799
}

/// The five numbers of a date and a time of day, as text.
spec fn spelled(year: int, month: int, day: int, hour: int, minute: int) -> Seq<char> {
    four_digits(year) + "-"@ + two_digits(month) + "-"@ + two_digits(day) + " "@ + two_digits(hour)
        + ":"@ + two_digits(minute)
}

proof fn lemma_spelled(secs: int)
    requires
        in_four_digits(secs),
    ensures
        ({
            let date = date_of(secs / 86400);
            let second = secs % 86400;
            &&& date.valid()
            &&& date.day_number() == secs / 86400
            &&& 0 <= date.year < 10000
            &&& shown(secs) == spelled(
                date.year as int,
                date.month as int,
                date.day as int,
                second / 3600,
                second % 3600 / 60,
            )
            &&& shown(secs).len() == 16
        }),
{
    let days = secs / 86400;
    let second = secs % 86400;
    lemma_date_exists(days);
    let date = date_of(days);
    lemma_day_in_year(date);
    assert(year_start(0) == -719528);
    assert(year_start(10000) == 2932897);
    assert(date.year >= 0) by {
        if date.year < -1 {
            lemma_years_ordered(date.year + 1, 0);
        }
    }
    assert(date.year < 10000) by {
        if date.year > 10000 {
            lemma_years_ordered(10000, date.year as int);
        }
    }
    lemma_four_digits(date.year as int);
    lemma_two_digits(date.month as int);
    lemma_two_digits(date.day as int);
    lemma_two_digits(second / 3600);
    lemma_two_digits(second % 3600 / 60);
    reveal_strlit("-");
    reveal_strlit(" ");
    reveal_strlit(":");
}

/// The earlier of two dates has the smaller year, or month, or day.
proof fn lemma_dates_ordered(a: Date, b: Date)
    requires
        a.valid(),
        b.valid(),
        a.day_number() < b.day_number(),
    ensures
        a.year < b.year || a.year == b.year && (a.month < b.month || a.month == b.month && a.day
            < b.day),
{
    lemma_day_in_year(a);
    lemma_day_in_year(b);
    if b.year < a.year {
        lemma_years_ordered(b.year as int, a.year as int);
        years_follow_each_other(b.year as int);
    } else if a.year == b.year && b.month < a.month {
        lemma_months_ordered(a.year as int, b.month as int, a.month as int);
    }
}

/// The first number in which two moments differ orders their texts.
proof fn lemma_spelled_ordered(
    y: int,
    m: int,
    d: int,
    h: int,
    n: int,
    y2: int,
    m2: int,
    d2: int,
    h2: int,
    n2: int,
)
    requires
        0 <= y < 10000,
        0 <= y2 < 10000,
        0 <= m < 100,
        0 <= m2 < 100,
        0 <= d < 100,
        0 <= d2 < 100,
        0 <= h < 100,
        0 <= h2 < 100,
        0 <= n < 100,
        0 <= n2 < 100,
        y < y2 || y == y2 && (m < m2 || m == m2 && (d < d2 || d == d2 && (h < h2 || h == h2 && n
            < n2))),
    ensures
        text::ordered_before(spelled(y, m, d, h, n), spelled(y2, m2, d2, h2, n2)),
{
    let s = spelled(y, m, d, h, n);
    let t = spelled(y2, m2, d2, h2, n2);
    let none = Seq::<char>::empty();
    if y < y2 {
        lemma_four_ordered(y, y2);
        let rest = "-"@ + two_digits(m) + "-"@ + two_digits(d) + " "@ + two_digits(h) + ":"@
            + two_digits(n);
        let rest2 = "-"@ + two_digits(m2) + "-"@ + two_digits(d2) + " "@ + two_digits(h2) + ":"@
            + two_digits(n2);
        text::order_shows_within(none, four_digits(y), four_digits(y2), rest, rest2);
        assert(none + four_digits(y) + rest =~= s);
        assert(none + four_digits(y2) + rest2 =~= t);
    } else if m < m2 {
        lemma_two_ordered(m, m2);
        let start = four_digits(y) + "-"@;
        let rest = "-"@ + two_digits(d) + " "@ + two_digits(h) + ":"@ + two_digits(n);
        let rest2 = "-"@ + two_digits(d2) + " "@ + two_digits(h2) + ":"@ + two_digits(n2);
        text::order_shows_within(start, two_digits(m), two_digits(m2), rest, rest2);
        assert(start + two_digits(m) + rest =~= s);
        assert(start + two_digits(m2) + rest2 =~= t);
    } else if d < d2 {
        lemma_two_ordered(d, d2);
        let start = four_digits(y) + "-"@ + two_digits(m) + "-"@;
        let rest = " "@ + two_digits(h) + ":"@ + two_digits(n);
        let rest2 = " "@ + two_digits(h2) + ":"@ + two_digits(n2);
        text::order_shows_within(start, two_digits(d), two_digits(d2), rest, rest2);
        assert(start + two_digits(d) + rest =~= s);
        assert(start + two_digits(d2) + rest2 =~= t);
    } else if h < h2 {
        lemma_two_ordered(h, h2);
        let start = four_digits(y) + "-"@ + two_digits(m) + "-"@ + two_digits(d) + " "@;
        let rest = ":"@ + two_digits(n);
        let rest2 = ":"@ + two_digits(n2);
        text::order_shows_within(start, two_digits(h), two_digits(h2), rest, rest2);
        assert(start + two_digits(h) + rest =~= s);
        assert(start + two_digits(h2) + rest2 =~= t);
    } else {
        lemma_two_ordered(n, n2);
        let start = four_digits(y) + "-"@ + two_digits(m) + "-"@ + two_digits(d) + " "@
            + two_digits(h) + ":"@;
        text::order_shows_within(start, two_digits(n), two_digits(n2), none, none);
        assert(start + two_digits(n) + none =~= s);
        assert(start + two_digits(n2) + none =~= t);
    }
}

/// From the year 0000 to the year 9999, times are shown in sixteen characters
/// that sort as the times do, and two of them are the same exactly within one
/// minute.
pub proof fn shown_times_sort(a: int, b: int)
    requires
        -62_167_219_200 <= a <= b <= 253_402_300_799,
    ensures
        shown(a).len() == 16,
        shown(b).len() == 16,
        shown(a) == shown(b) || text::ordered_before(shown(a), shown(b)),
        shown(a) == shown(b) <==> a / 60 == b / 60,
{
    lemma_spelled(a);
    lemma_spelled(b);
    let da = date_of(a / 86400);
    let db = date_of(b / 86400);
    let sa = a % 86400;
    let sb = b % 86400;
    lemma_minutes(a);
    lemma_minutes(b);
    if a / 60 == b / 60 {
        assert(a / 86400 == b / 86400);
        assert(sa / 60 == sb / 60);
    } else {
        assert(a / 60 < b / 60);
        if a / 86400 < b / 86400 {
            lemma_dates_ordered(da, db);
        } else {
            assert(a / 86400 == b / 86400);
            assert(sa / 60 < sb / 60);
        }
        lemma_spelled_ordered(
            da.year as int,
            da.month as int,
            da.day as int,
            sa / 3600,
            sa % 3600 / 60,
            db.year as int,
            db.month as int,
            db.day as int,
            sb / 3600,
            sb % 3600 / 60,
        );
        text::order_is_strict(shown(a));
    }
}

/// The minute of a moment is that of its day and its second of the day.
proof fn lemma_minutes(secs: int)
    ensures
        secs / 60 == secs / 86400 * 1440 + secs % 86400 / 60,
        0 <= secs % 86400 < 86400,
        secs % 86400 / 60 == secs % 86400 / 3600 * 60 + secs % 86400 % 3600 / 60,
        0 <= secs % 86400 / 3600 < 24,
        0 <= secs % 86400 % 3600 / 60 < 60,
{
}

/// The months have their lengths: thirty days hath September, April, June and
/// November; February has 28, and 29 in every fourth year but for three of
/// four turns of the century.
pub proof fn months_have_their_lengths(year: int)
    ensures
        days_in_month(year, 1) == 31,
        days_in_month(year, 2) == 28 + (if year % 400 == 0 || year % 4 == 0 && year % 100 != 0 {
            1int
        } else {
            0
        }),
        days_in_month(year, 3) == 31,
        days_in_month(year, 4) == 30,
        days_in_month(year, 5) == 31,
        days_in_month(year, 6) == 30,
        days_in_month(year, 7) == 31,
        days_in_month(year, 8) == 31,
        days_in_month(year, 9) == 30,
        days_in_month(year, 10) == 31,
        days_in_month(year, 11) == 30,
        days_in_month(year, 12) == 31,
{
}

/// Day after day: counting starts at the first of January 1970, and goes on by
/// one from a day to the next, over the end of a month and of a year.
pub proof fn days_follow_each_other(date: Date, next: Date, first: Date)
    requires
        date.valid(),
        first.year == 1970 && first.month == 1 && first.day == 1,
        ({
            let length = days_in_month(date.year as int, date.month as int);
            ||| date.day < length && next.year == date.year && next.month == date.month && next.day
                == date.day + 1
            ||| date.day == length && date.month < 12 && next.year == date.year && next.month
                == date.month + 1 && next.day == 1
            ||| date.day == length && date.month == 12 && next.year == date.year + 1 && next.month
                == 1 && next.day == 1
        }),
    ensures
        first.day_number() == 0,
        next.valid(),
        next.day_number() == date.day_number() + 1,
{
    let year = date.year as int;
    years_follow_each_other(year);
    lemma_month_starts(year);
    lemma_month_starts(year + 1);
    lemma_month_starts(1970);
    reveal_with_fuel(month_start, 2);
}

/// Two digits say the number that they were made of.
proof fn lemma_two_say(n: int)
    requires
        0 <= n < 100,
    ensures
        number::is_digits(two_digits(n)),
        number::digits_value(two_digits(n)) == n,
{
    let s = two_digits(n);
    reveal_with_fuel(number::digits_value, 3);
    assert(s.drop_last() =~= seq![digit(n / 10)]);
    assert(s.drop_last().drop_last() =~= Seq::empty());
}

/// Four digits say the number that they were made of.
proof fn lemma_four_say(n: int)
    requires
        0 <= n < 10000,
    ensures
        number::is_digits(four_digits(n)),
        number::digits_value(four_digits(n)) == n,
{
    let s = four_digits(n);
    let a = n / 100;
    let b = n % 100;
    assert(s =~= seq![digit(a / 10), digit(a % 10), digit(b / 10), digit(b % 10)]);
    reveal_with_fuel(number::digits_value, 5);
    assert(s.drop_last() =~= seq![digit(a / 10), digit(a % 10), digit(b / 10)]);
    assert(s.drop_last().drop_last() =~= seq![digit(a / 10), digit(a % 10)]);
    assert(s.drop_last().drop_last().drop_last() =~= seq![digit(a / 10)]);
    assert(s.drop_last().drop_last().drop_last().drop_last() =~= Seq::empty());
}

/// A moment is shown by its date and its time of day in UTC: the year, the
/// month, the day, the hour and the minute can be read from it, each in its
/// place, and the second is left out.
pub proof fn times_are_shown_in_utc(
    date: Date,
    hour: int,
    minute: int,
    second: int,
    secs: i64,
    r: String,
)
    requires
        date.valid(),
        0 <= date.year <= 9999,
        0 <= hour < 24,
        0 <= minute < 60,
        0 <= second < 60,
        secs == date.day_number() * 86400 + hour * 3600 + minute * 60 + second,
        call_ensures(fmt_time, (secs,), r),
    ensures
        r@.len() == 16,
        number::digits_value(r@.subrange(0, 4)) == date.year,
        r@[4] == '-',
        number::digits_value(r@.subrange(5, 7)) == date.month,
        r@[7] == '-',
        number::digits_value(r@.subrange(8, 10)) == date.day,
        r@[10] == ' ',
        number::digits_value(r@.subrange(11, 13)) == hour,
        r@[13] == ':',
        number::digits_value(r@.subrange(14, 16)) == minute,
        forall|i: int|
            0 <= i < 16 && i != 4 && i != 7 && i != 10 && i != 13 ==> '0' <= #[trigger] r@[i]
                <= '9',
{
    let days = date.day_number();
    assert(secs as int / 86400 == days && secs as int % 86400 == hour * 3600 + minute * 60 + second);
    lemma_day_in_year(date);
    assert(year_start(0) == -719528);
    assert(year_start(10000) == 2932897);
    if date.year > 0 {
        lemma_years_ordered(0, date.year as int);
    }
    if date.year < 9999 {
        lemma_years_ordered(date.year + 1, 10000);
    }
    lemma_spelled(secs as int);
    one_date_per_day(date, date_of(days));
    let tod = hour * 3600 + minute * 60 + second;
    assert(tod / 3600 == hour);
    assert(tod % 3600 / 60 == minute);
    reveal_strlit("-");
    reveal_strlit(" ");
    reveal_strlit(":");
    lemma_four_say(date.year as int);
    lemma_two_say(date.month as int);
    lemma_two_say(date.day as int);
    lemma_two_say(hour);
    lemma_two_say(minute);
    assert(r@ == spelled(date.year as int, date.month as int, date.day as int, hour, minute));
    assert(r@.subrange(0, 4) =~= four_digits(date.year as int));
    assert(r@.subrange(5, 7) =~= two_digits(date.month as int));
    assert(r@.subrange(8, 10) =~= two_digits(date.day as int));
    assert(r@.subrange(11, 13) =~= two_digits(hour));
    assert(r@.subrange(14, 16) =~= two_digits(minute));
}

/// Outside of the years 0000 to 9999 too, a moment is shown by its year, with a
/// sign where it is negative and with four characters at least, and by two
/// digits for each other number.
pub proof fn far_times_are_shown_alike(
    date: Date,
    hour: int,
    minute: int,
    second: int,
    secs: i64,
    r: String,
)
    requires
        date.valid(),
        0 <= hour < 24,
        0 <= minute < 60,
        0 <= second < 60,
        secs == date.day_number() * 86400 + hour * 3600 + minute * 60 + second,
        call_ensures(fmt_time, (secs,), r),
    ensures
        r@ == number::zero_padded_int(date.year as int, 4) + "-"@ + number::zero_padded(
            number::decimal(date.month as nat),
            2,
        ) + "-"@ + number::zero_padded(number::decimal(date.day as nat), 2) + " "@
            + number::zero_padded(number::decimal(hour as nat), 2) + ":"@ + number::zero_padded(
            number::decimal(minute as nat),
            2,
        ),
{
    let days = date.day_number();
    assert(secs as int / 86400 == days && secs as int % 86400 == hour * 3600 + minute * 60 + second);
    let other = date_of(days);
    assert(date.valid() && date.day_number() == days);
    one_date_per_day(date, other);
    let tod = hour * 3600 + minute * 60 + second;
    assert(tod / 3600 == hour);
    assert(tod % 3600 / 60 == minute);
}

} // verus!
