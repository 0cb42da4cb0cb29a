use vstd::arithmetic::div_mod::{lemma_fundamental_div_mod, lemma_fundamental_div_mod_converse};
use vstd::prelude::*;

use crate::micros::ten_to;
use crate::text::{
    decimal_text, digit, padded, padded_text, precedes, precedes_is_irreflexive,
    precedes_is_transitive, zeros,
};

verus! {

/// Whether a year of the Gregorian calendar has a 29th of February.
pub open spec fn leap(year: int) -> bool {
    year % 4 == 0 && (year % 100 != 0 || year % 400 == 0)
}

pub open spec fn year_length(year: int) -> int {
    if leap(year) {
        366
    } else {
        365
    }
}

pub open spec fn month_length(year: int, month: int) -> int {
    if month == 2 {
        if leap(year) {
            29
        } else {
            28
        }
    } else if month == 4 || month == 6 || month == 9 || month == 11 {
        30
    } else {
        31
    }
}

/// The days of the years from 1970 up to, and not counting, a year.
pub open spec fn days_before_year(year: int) -> int
    decreases year - 1970,
{
    if year <= 1970 {
        0
    } else {
        days_before_year(year - 1) + year_length(year - 1)
    }
}

/// The days of the months before a month.
pub open spec fn days_before_month(year: int, month: int) -> int
    decreases month,
{
    if month <= 1 {
        0
    } else {
        days_before_month(year, month - 1) + month_length(year, month - 1)
    }
}

/// A day of the Gregorian calendar.
pub struct Date {
    pub year: int,
    pub month: int,
    pub day: int,
}

impl Date {
    pub open spec fn valid(self) -> bool {
        self.year >= 1970 && 1 <= self.month <= 12 && 1 <= self.day <= month_length(
            self.year,
            self.month,
        )
    }

    /// The days from the first of January 1970 to this one.
    pub open spec fn days(self) -> int {
        days_before_year(self.year) + days_before_month(self.year, self.month) + self.day - 1
    }
}

/// The date that lies a number of days after the first of January 1970.
pub open spec fn date_after(days: int) -> Date {
    choose|date: Date| date.valid() && #[trigger] date.days() == days
}

proof fn lemma_years_in_order(a: int, b: int)
    requires
        1970 <= a < b,
    ensures
        days_before_year(a) + year_length(a) <= days_before_year(b),
    decreases b - a,
{
    if a + 1 < b {
        lemma_years_in_order(a, b - 1);
    }
}

proof fn lemma_months_in_order(year: int, a: int, b: int)
    requires
        1 <= a < b,
    ensures
        days_before_month(year, a) + month_length(year, a) <= days_before_month(year, b),
    decreases b - a,
{
    if a + 1 < b {
        lemma_months_in_order(year, a, b - 1);
    }
}

proof fn lemma_within_year(date: Date)
    requires
        date.valid(),
    ensures
        0 <= days_before_month(date.year, date.month) + date.day - 1 < year_length(date.year),
        0 <= days_before_month(date.year, date.month),
{
    reveal_with_fuel(days_before_month, 13);
    if date.month < 12 {
        lemma_months_in_order(date.year, date.month, 12);
    }
}

/// No two dates lie the same number of days after the epoch.
pub proof fn a_day_has_one_date(a: Date, b: Date)
    requires
        a.valid(),
        b.valid(),
        a.days() == b.days(),
    ensures
        a == b,
{
    lemma_within_year(a);
    lemma_within_year(b);
    if a.year < b.year {
        lemma_years_in_order(a.year, b.year);
    } else if b.year < a.year {
        lemma_years_in_order(b.year, a.year);
    } else if a.month < b.month {
        lemma_months_in_order(a.year, a.month, b.month);
    } else if b.month < a.month {
        lemma_months_in_order(a.year, b.month, a.month);
    }
}

/// The leap years up to a year.
spec fn leaps(year: int) -> int {
    year / 4 - year / 100 + year / 400
}

proof fn lemma_days_before_year(year: int)
    requires
        year >= 1970,
    ensures
        days_before_year(year) == 365 * (year - 1970) + leaps(year - 1) - 477,
    decreases year,
{
    if year > 1970 {
        lemma_days_before_year(year - 1);
        lemma_leaps_grow(year - 1);
    }
}

/// The days of the first years of a cycle of 400 that begins in March.
spec fn cycle_days(years: int) -> int {
    365 * years + years / 4 - years / 100
}

/// The year of a day within a cycle of 400 years that begins in March.
#[verifier::spinoff_prover]
proof fn lemma_year_of_cycle(doe: int, yoe: int)
    requires
        0 <= doe < 146_097,
        yoe == (doe - doe / 1460 + doe / 36_524 - doe / 146_096) / 365,
    ensures
        0 <= yoe < 400,
        cycle_days(yoe) <= doe <= cycle_days(yoe) + 365,
        doe == cycle_days(yoe) + 365 ==> leap(yoe + 1),
{
}

/// The days of a year before a month, counted from March on.
proof fn lemma_days_before_month(year: int, month: int)
    requires
        1 <= month <= 12,
    ensures
        month == 1 ==> days_before_month(year, month) == 0,
        month == 2 ==> days_before_month(year, month) == 31,
        month >= 3 ==> days_before_month(year, month) == month_length(year, 2) + 31 + (153 * (month
            - 3) + 2) / 5,
{
    reveal_with_fuel(days_before_month, 13);
}

/// A day of a year that begins in March lies within its month.
#[verifier::spinoff_prover]
proof fn lemma_day_of_month(doy: int, mp: int, day: int)
    requires
        0 <= doy <= 365,
        mp == (5 * doy + 2) / 153,
        day == doy - (153 * mp + 2) / 5 + 1,
    ensures
        0 <= mp <= 11,
        1 <= day <= 31,
        mp == 1 || mp == 3 || mp == 6 || mp == 8 ==> day <= 30,
        mp == 11 ==> day == doy - 336,
        mp == 10 ==> day == doy - 305,
{
}

/// A quotient grows at the multiples of its divisor.
proof fn lemma_quotient_grows(n: int, d: int)
    requires
        d > 0,
    ensures
        n / d == (n - 1) / d + if n % d == 0 {
            1int
        } else {
            0int
        },
{
    let (q, r) = (n / d, n % d);
    lemma_fundamental_div_mod(n, d);
    assert(0 <= r < d) by (nonlinear_arith)
        requires
            d > 0,
            r == n % d,
    ;
    assert((q - 1) * d == d * q - d && q * d == d * q) by (nonlinear_arith);
    if r == 0 {
        lemma_fundamental_div_mod_converse(n - 1, d, q - 1, d - 1);
    } else {
        lemma_fundamental_div_mod_converse(n - 1, d, q, r - 1);
    }
}

/// A year is a leap year when the count of them grows.
#[verifier::spinoff_prover]
proof fn lemma_leaps_grow(year: int)
    requires
        year >= 1,
    ensures
        leaps(year) == leaps(year - 1) + if leap(year) {
            1int
        } else {
            0int
        },
{
    lemma_quotient_grows(year, 4);
    lemma_quotient_grows(year, 100);
    lemma_quotient_grows(year, 400);
    assert(year % 400 == 0 ==> year % 100 == 0);
    assert(year % 100 == 0 ==> year % 4 == 0);
}

/// The calendar repeats itself every 400 years.
#[verifier::spinoff_prover]
proof fn lemma_leap_repeats(era: int, year: int)
    requires
        era >= 0,
        year >= 0,
    ensures
        leap(year + 400 * era) == leap(year),
{
    assert((year + 400 * era) % 4 == year % 4);
    assert((year + 400 * era) % 100 == year % 100);
    assert((year + 400 * era) % 400 == year % 400);
}

/// A year of a cycle of 400 counts as it does in the calendar.
#[verifier::spinoff_prover]
proof fn lemma_year_in_era(era: int, yoe: int, y: int)
    requires
        era >= 0,
        0 <= yoe < 400,
        y == yoe + 400 * era,
    ensures
        146_097 * era + cycle_days(yoe) == 365 * y + leaps(y),
        leap(yoe + 1) == leap(y + 1),
        y >= 1 ==> leaps(y) == leaps(y - 1) + if leap(y) {
            1int
        } else {
            0int
        },
{
    assert(146_097 * era + cycle_days(yoe) == 365 * y + leaps(y)) by {
        assert(y / 400 == era);
        assert(y / 100 == 4 * era + yoe / 100);
        assert(y / 4 == 100 * era + yoe / 4);
    }
    lemma_leap_repeats(era, yoe + 1);
    if y >= 1 {
        lemma_leaps_grow(y);
    }
}

/// A count of days from the first of March of the year 0, taken apart into a year
/// that begins in March, a month of it and a day, is the date of that day.
#[verifier::spinoff_prover]
proof fn lemma_date_of_day(days: int, era: int, yoe: int, doy: int, mp: int, date: Date)
    requires
        days >= 0,
        era >= 0,
        0 <= yoe < 400,
        days + 719_468 == 146_097 * era + cycle_days(yoe) + doy,
        0 <= doy <= 365,
        doy == 365 ==> leap(yoe + 1),
        mp == (5 * doy + 2) / 153,
        date.day == doy - (153 * mp + 2) / 5 + 1,
        date.month == if mp < 10 {
            mp + 3
        } else {
            mp - 9
        },
        date.year == yoe + 400 * era + if date.month <= 2 {
            1int
        } else {
            0int
        },
    ensures
        date.valid(),
        date.days() == days,
{
    let y = yoe + 400 * era;
    lemma_day_of_month(doy, mp, date.day);
    lemma_year_in_era(era, yoe, y);
    assert(days + 719_468 == 365 * y + leaps(y) + doy);
    assert(y >= 1969);
    assert(date.year >= 1970) by {
        if y == 1969 {
            assert(leaps(1969) == 477);
            assert(doy >= 306);
        }
    }
    lemma_days_before_year(date.year);
    lemma_days_before_month(date.year, date.month);
}

/// A date is the only one that lies as many days after the epoch.
pub proof fn date_after_is_the_date(date: Date)
    requires
        date.valid(),
    ensures
        date_after(date.days()) == date,
{
    let found = date_after(date.days());
    assert(found.valid() && found.days() == date.days());
    a_day_has_one_date(found, date);
}

/// Every day on or after the epoch has a date.
pub proof fn every_day_has_a_date(days: int)
    requires
        days >= 0,
    ensures
        date_after(days).valid(),
        date_after(days).days() == days,
{
    let z = days + 719_468;
    let era = z / 146_097;
    let doe = z % 146_097;
    let yoe = (doe - doe / 1460 + doe / 36_524 - doe / 146_096) / 365;
    lemma_year_of_cycle(doe, yoe);
    let doy = doe - cycle_days(yoe);
    let mp = (5 * doy + 2) / 153;
    let month = if mp < 10 {
        mp + 3
    } else {
        mp - 9
    };
    let date = Date {
        year: yoe + 400 * era + if month <= 2 {
            1int
        } else {
            0int
        },
        month,
        day: doy - (153 * mp + 2) / 5 + 1,
    };
    lemma_date_of_day(days, era, yoe, doy, mp, date);
    assert(date.valid() && date.days() == days);
}

/// A date and a time of day as `YYYY-MM-DD HH:MM UTC`.
pub open spec fn stamp(date: Date, hour: nat, minute: nat) -> Seq<char> {
    padded_text(date.year as nat, 4) + "-"@ + padded_text(date.month as nat, 2) + "-"@
        + padded_text(date.day as nat, 2) + " "@ + padded_text(hour, 2) + ":"@ + padded_text(
        minute,
        2,
    ) + " UTC"@
}

/// A Unix-millisecond timestamp as `YYYY-MM-DD HH:MM UTC`.
pub open spec fn period_text(ms: u64) -> Seq<char> {
    let secs = ms as nat / 1000;
    stamp(date_after((secs / 86400) as int), secs % 86400 / 3600, secs % 3600 / 60)
}

/// Format a Unix-millisecond timestamp as `YYYY-MM-DD HH:MM UTC`.
pub fn fmt_period(ms: u64) -> (r: String)
    ensures
        r@ == period_text(ms),
{
    let secs: u64 = ms / 1000;
    let hour: u64 = secs % 86400 / 3600;
    let minute: u64 = secs % 3600 / 60;
    let days: u64 = secs / 86400;
    let z: u64 = days + 719_468;
    let era: u64 = z / 146_097;
    let doe: u64 = z - era * 146_097;
    let yoe: u64 = (doe - doe / 1460 + doe / 36_524 - doe / 146_096) / 365;
    proof {
        lemma_year_of_cycle(doe as int, yoe as int);
    }
    let doy: u64 = doe - (365 * yoe + yoe / 4 - yoe / 100);
    let mp: u64 = (5 * doy + 2) / 153;
    let day: u64 = doy - (153 * mp + 2) / 5 + 1;
    let month: u64 = if mp < 10 {
        mp + 3
    } else {
        mp - 9
    };
    let year: u64 = yoe + era * 400 + if month <= 2 {
        1
    } else {
        0
    };
    let ghost date = Date { year: year as int, month: month as int, day: day as int };
    proof {
        lemma_date_of_day(days as int, era as int, yoe as int, doy as int, mp as int, date);
        date_after_is_the_date(date);
    }
    padded(year, 4).concat("-").concat(&padded(month, 2)).concat("-").concat(
        &padded(day, 2),
    ).concat(" ").concat(&padded(hour, 2)).concat(":").concat(&padded(minute, 2)).concat(" UTC")
}

/// The last `width` decimal digits of a number.
spec fn digits(n: nat, width: nat) -> Seq<char>
    decreases width,
{
    if width == 0 {
        Seq::empty()
    } else {
        digits(n / 10, (width - 1) as nat).push(digit(n % 10))
    }
}

proof fn lemma_digits_of_zero(width: nat)
    ensures
        digits(0, width) == zeros(width),
    decreases width,
{
    if width > 0 {
        lemma_digits_of_zero((width - 1) as nat);
        assert(zeros((width - 1) as nat).push('0') =~= zeros(width));
    } else {
        assert(zeros(0) =~= Seq::empty());
    }
}

proof fn lemma_padded_is_digits(n: nat, width: nat)
    requires
        n < ten_to(width),
    ensures
        decimal_text(n).len() <= width || n == 0,
        width > 0 ==> padded_text(n, width) == digits(n, width),
    decreases width,
{
    if width > 0 {
        let less = (width - 1) as nat;
        assert(ten_to(width) == 10 * ten_to(less));
        lemma_padded_is_digits(n / 10, less);
        if n < 10 {
            lemma_digits_of_zero(less);
            assert(padded_text(n, width) =~= zeros(less).push(digit(n)));
        } else {
            let body = decimal_text(n / 10);
            assert(padded_text(n / 10, less).push(digit(n % 10)) =~= padded_text(n, width));
        }
    }
}

proof fn lemma_digits_len(n: nat, width: nat)
    ensures
        digits(n, width).len() == width,
    decreases width,
{
    if width > 0 {
        lemma_digits_len(n / 10, (width - 1) as nat);
    }
}

/// What comes first stays first, whatever follows.
proof fn lemma_precedes_by_prefix(a: Seq<char>, b: Seq<char>, x: Seq<char>, y: Seq<char>)
    requires
        a.len() == b.len(),
        precedes(a, b),
    ensures
        precedes(a + x, b + y),
    decreases a.len(),
{
    assert((a + x).skip(1) =~= a.skip(1) + x);
    assert((b + y).skip(1) =~= b.skip(1) + y);
    if a[0] == b[0] {
        lemma_precedes_by_prefix(a.skip(1), b.skip(1), x, y);
    }
}

/// After a common beginning the rest decides.
proof fn lemma_precedes_after(a: Seq<char>, x: Seq<char>, y: Seq<char>)
    requires
        precedes(x, y),
    ensures
        precedes(a + x, a + y),
    decreases a.len(),
{
    if a.len() == 0 {
        assert(a + x =~= x);
        assert(a + y =~= y);
    } else {
        assert((a + x).skip(1) =~= a.skip(1) + x);
        assert((a + y).skip(1) =~= a.skip(1) + y);
        lemma_precedes_after(a.skip(1), x, y);
    }
}

proof fn lemma_digits_in_order(n: nat, m: nat, width: nat)
    requires
        n < m < ten_to(width),
    ensures
        precedes(digits(n, width), digits(m, width)),
    decreases width,
{
    if width > 0 {
        let less = (width - 1) as nat;
        assert(ten_to(width) == 10 * ten_to(less));
        let (a, b) = (digits(n / 10, less), digits(m / 10, less));
        let (x, y) = (seq![digit(n % 10)], seq![digit(m % 10)]);
        assert(digits(n, width) =~= a + x);
        assert(digits(m, width) =~= b + y);
        if n / 10 < m / 10 {
            lemma_digits_in_order(n / 10, m / 10, less);
            lemma_digits_len(n / 10, less);
            lemma_digits_len(m / 10, less);
            lemma_precedes_by_prefix(a, b, x, y);
        } else {
            assert(n % 10 < m % 10);
            assert(x[0] < y[0]);
            assert(precedes(x, y));
            lemma_precedes_after(a, x, y);
        }
    }
}

/// A field of fixed width reads in the order of its numbers.
proof fn lemma_field_in_order(n: nat, m: nat, width: nat, x: Seq<char>, y: Seq<char>)
    requires
        width > 0,
        n < m < ten_to(width),
    ensures
        precedes(padded_text(n, width) + x, padded_text(m, width) + y),
{
    lemma_padded_is_digits(n, width);
    lemma_padded_is_digits(m, width);
    lemma_digits_len(n, width);
    lemma_digits_len(m, width);
    lemma_digits_in_order(n, m, width);
    lemma_precedes_by_prefix(digits(n, width), digits(m, width), x, y);
}

spec fn minute_tail(minute: nat) -> Seq<char> {
    padded_text(minute, 2) + " UTC"@
}

spec fn hour_tail(hour: nat, minute: nat) -> Seq<char> {
    padded_text(hour, 2) + (":"@ + minute_tail(minute))
}

spec fn day_tail(date: Date, hour: nat, minute: nat) -> Seq<char> {
    padded_text(date.day as nat, 2) + (" "@ + hour_tail(hour, minute))
}

spec fn month_tail(date: Date, hour: nat, minute: nat) -> Seq<char> {
    padded_text(date.month as nat, 2) + ("-"@ + day_tail(date, hour, minute))
}

proof fn lemma_regroup(a: Seq<char>, b: Seq<char>, c: Seq<char>)
    ensures
        a + b + c == a + (b + c),
{
    assert(a + b + c =~= a + (b + c));
}

proof fn lemma_stamp_unfolds(date: Date, hour: nat, minute: nat)
    ensures
        stamp(date, hour, minute) == padded_text(date.year as nat, 4) + ("-"@ + month_tail(
            date,
            hour,
            minute,
        )),
{
    let s1 = padded_text(date.year as nat, 4);
    let s2 = s1 + "-"@;
    let s3 = s2 + padded_text(date.month as nat, 2);
    let s4 = s3 + "-"@;
    let s5 = s4 + padded_text(date.day as nat, 2);
    let s6 = s5 + " "@;
    let s7 = s6 + padded_text(hour, 2);
    let s8 = s7 + ":"@;
    lemma_regroup(s8, padded_text(minute, 2), " UTC"@);
    lemma_regroup(s7, ":"@, minute_tail(minute));
    lemma_regroup(s6, padded_text(hour, 2), ":"@ + minute_tail(minute));
    lemma_regroup(s5, " "@, hour_tail(hour, minute));
    lemma_regroup(s4, padded_text(date.day as nat, 2), " "@ + hour_tail(hour, minute));
    lemma_regroup(s3, "-"@, day_tail(date, hour, minute));
    lemma_regroup(s2, padded_text(date.month as nat, 2), "-"@ + day_tail(date, hour, minute));
    lemma_regroup(s1, "-"@, month_tail(date, hour, minute));
}

/// Whether one date and time of day comes before another.
spec fn earlier(a: Date, h: nat, m: nat, b: Date, i: nat, n: nat) -> bool {
    a.year < b.year || (a.year == b.year && (a.month < b.month || (a.month == b.month && (a.day
        < b.day || (a.day == b.day && (h < i || (h == i && m < n)))))))
}

proof fn lemma_stamps_in_order(a: Date, h: nat, m: nat, b: Date, i: nat, n: nat)
    requires
        a.valid(),
        b.valid(),
        b.year < 10_000,
        h < 24,
        i < 24,
        m < 60,
        n < 60,
        earlier(a, h, m, b, i, n),
    ensures
        precedes(stamp(a, h, m), stamp(b, i, n)),
{
    reveal_with_fuel(ten_to, 5);
    lemma_stamp_unfolds(a, h, m);
    lemma_stamp_unfolds(b, i, n);
    let year = padded_text(a.year as nat, 4);
    if a.year < b.year {
        lemma_field_in_order(
            a.year as nat,
            b.year as nat,
            4,
            "-"@ + month_tail(a, h, m),
            "-"@ + month_tail(b, i, n),
        );
    } else {
        let month = padded_text(a.month as nat, 2);
        if a.month < b.month {
            lemma_field_in_order(
                a.month as nat,
                b.month as nat,
                2,
                "-"@ + day_tail(a, h, m),
                "-"@ + day_tail(b, i, n),
            );
        } else {
            let day = padded_text(a.day as nat, 2);
            if a.day < b.day {
                lemma_field_in_order(
                    a.day as nat,
                    b.day as nat,
                    2,
                    " "@ + hour_tail(h, m),
                    " "@ + hour_tail(i, n),
                );
            } else {
                let hour = padded_text(h, 2);
                if h < i {
                    lemma_field_in_order(
                        h,
                        i,
                        2,
                        ":"@ + minute_tail(m),
                        ":"@ + minute_tail(n),
                    );
                } else {
                    lemma_field_in_order(m, n, 2, " UTC"@, " UTC"@);
                    lemma_precedes_after(":"@, minute_tail(m), minute_tail(n));
                    lemma_precedes_after(hour, ":"@ + minute_tail(m), ":"@ + minute_tail(n));
                }
                lemma_precedes_after(" "@, hour_tail(h, m), hour_tail(i, n));
                lemma_precedes_after(day, " "@ + hour_tail(h, m), " "@ + hour_tail(i, n));
            }
            lemma_precedes_after("-"@, day_tail(a, h, m), day_tail(b, i, n));
            lemma_precedes_after(month, "-"@ + day_tail(a, h, m), "-"@ + day_tail(b, i, n));
        }
        lemma_precedes_after("-"@, month_tail(a, h, m), month_tail(b, i, n));
        lemma_precedes_after(year, "-"@ + month_tail(a, h, m), "-"@ + month_tail(b, i, n));
    }
}

/// A later day has a later date.
proof fn lemma_dates_in_order(a: Date, b: Date)
    requires
        a.valid(),
        b.valid(),
        a.days() < b.days(),
    ensures
        earlier(a, 0, 0, b, 0, 0),
{
    lemma_within_year(a);
    lemma_within_year(b);
    if b.year < a.year {
        lemma_years_in_order(b.year, a.year);
    } else if a.year == b.year && b.month < a.month {
        lemma_months_in_order(a.year, b.month, a.month);
    }
}

/// A time taken apart into its day, hour and minute.
#[verifier::spinoff_prover]
proof fn lemma_time_of_day(ms: nat)
    ensures
        ({
            let secs = ms / 1000;
            let (hour, minute) = (secs % 86400 / 3600, secs % 3600 / 60);
            &&& hour < 24
            &&& minute < 60
            &&& ms / 60_000 == secs / 86400 * 1440 + hour * 60 + minute
        }),
{
    let secs = ms / 1000;
    assert(ms / 60_000 == secs / 60);
    let rest = secs % 86400;
    assert(secs == secs / 86400 * 86400 + rest);
    assert(rest % 3600 == secs % 3600);
    assert(rest == rest / 3600 * 3600 + rest % 3600);
    assert(secs / 60 == secs / 86400 * 1440 + rest / 60);
    assert(rest / 60 == rest / 3600 * 60 + rest % 3600 / 60);
}

proof fn lemma_before_year_10000(date: Date)
    requires
        date.valid(),
        date.days() < 2_932_897,
    ensures
        date.year < 10_000,
{
    if date.year >= 10_000 {
        lemma_within_year(date);
        lemma_days_before_year(10_000);
        assert(days_before_year(10_000) == 2_932_897);
        if date.year > 10_000 {
            lemma_years_in_order(10_000, date.year);
        }
    }
}

/// Before the year 10000 the texts of two times are in the order of their minutes: a
/// later minute reads later, so a later time never reads earlier, and two times read
/// the same exactly within one minute.
pub proof fn periods_read_in_order(a: u64, b: u64)
    requires
        a <= b,
        b < 253_402_300_800_000,
    ensures
        a / 60_000 < b / 60_000 ==> precedes(period_text(a), period_text(b)),
        !precedes(period_text(b), period_text(a)),
        period_text(a) == period_text(b) <==> a / 60_000 == b / 60_000,
{
    let (s, t) = (a as nat / 1000, b as nat / 1000);
    let (p, q) = ((s / 86400) as int, (t / 86400) as int);
    every_day_has_a_date(p);
    every_day_has_a_date(q);
    let (x, y) = (date_after(p), date_after(q));
    let (h, i) = (s % 86400 / 3600, t % 86400 / 3600);
    let (m, n) = (s % 3600 / 60, t % 3600 / 60);
    lemma_time_of_day(a as nat);
    lemma_time_of_day(b as nat);
    lemma_before_year_10000(y);
    precedes_is_irreflexive(period_text(a));
    if a / 60_000 < b / 60_000 {
        if p < q {
            lemma_dates_in_order(x, y);
        }
        lemma_stamps_in_order(x, h, m, y, i, n);
        if precedes(period_text(b), period_text(a)) {
            precedes_is_transitive(period_text(a), period_text(b), period_text(a));
        }
    } else {
        assert(p == q && h == i && m == n);
    }
}

/// A timestamp reads as the date and the time of day it falls on, to the minute: the
/// minutes of the days before that date, of the full hours of the day, and of the hour
/// make up all the minutes gone by.
pub proof fn a_period_reads_as_its_date_and_time(ms: u64, date: Date, hour: nat, minute: nat)
    requires
        date.valid(),
        hour < 24,
        minute < 60,
        ms as int / 60_000 == (date.days() * 24 + hour) * 60 + minute,
    ensures
        period_text(ms) == padded_text(date.year as nat, 4) + "-"@ + padded_text(
            date.month as nat,
            2,
        ) + "-"@ + padded_text(date.day as nat, 2) + " "@ + padded_text(hour, 2) + ":"@
            + padded_text(minute, 2) + " UTC"@,
{
    let secs = ms as nat / 1000;
    let minutes = ms as int / 60_000;
    date_after_is_the_date(date);
    lemma_within_year(date);
    assert(secs / 60 == minutes);
    assert(secs / 3600 == minutes / 60);
    assert(secs / 86400 == minutes / 1440);
    assert(minutes / 60 == date.days() * 24 + hour);
    assert(minutes / 1440 == date.days());
    assert(secs % 86400 / 3600 == hour);
    assert(secs % 3600 / 60 == minute);
}

} // verus!
