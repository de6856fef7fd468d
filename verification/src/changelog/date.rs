//! Calendar dates.

use vstd::prelude::*;
use vstd::string::StringExecFns;

use crate::text::{
    all_digits, chars_of, decimal, decimal_value, is_digit, law_decimal_round_trip,
    number, parse_number, text_of,
};

verus! {

/// Whether a year has a 29th of February.
pub open spec fn is_leap(year: int) -> bool {
    year % 4 == 0 && (year % 100 != 0 || year % 400 == 0)
}

/// The number of days of a month.
pub open spec fn days_in_month(year: int, month: int) -> int {
    if month == 4 || month == 6 || month == 9 || month == 11 {
        30
    } else if month == 2 {
        if is_leap(year) {
            29
        } else {
            28
        }
    } else {
        31
    }
}

/// Whether there is such a day in the calendar.
pub open spec fn is_civil(year: int, month: int, day: int) -> bool {
    1 <= month <= 12 && 1 <= day <= days_in_month(year, month)
}

/// The number of the month, counted from March.
pub open spec fn month_from_march(month: int) -> int {
    if month > 2 {
        month - 3
    } else {
        month + 9
    }
}

/// The year, where years begin in March.
pub open spec fn year_from_march(year: int, month: int) -> int {
    if month > 2 {
        year
    } else {
        year - 1
    }
}

/// The days from the first of March of the year 0 to the first of March of a
/// year.
pub open spec fn days_to_march(year: int) -> int {
    365 * year + year / 4 - year / 100 + year / 400
}

/// The days from the first of January 1970 to a day of the calendar.
pub open spec fn days_of_civil(year: int, month: int, day: int) -> int {
    days_to_march(year_from_march(year, month)) + (153 * month_from_march(month) + 2) / 5 + day - 1
        - 719_468
}

/// Whether a text writes a day of the calendar in `yyyy-mm-dd` form.
pub open spec fn is_date(date: Seq<char>) -> bool {
    &&& date.len() == 10
    &&& date[4] == '-'
    &&& date[7] == '-'
    &&& all_digits(date.subrange(0, 4))
    &&& all_digits(date.subrange(5, 7))
    &&& all_digits(date.subrange(8, 10))
    &&& is_civil(
        decimal_value(date.subrange(0, 4)) as int,
        decimal_value(date.subrange(5, 7)) as int,
        decimal_value(date.subrange(8, 10)) as int,
    )
}

fn digits_at(chars: &Vec<char>, from: usize, to: usize) -> (r: Option<u64>)
    requires
        from <= to <= chars@.len(),
        to - from <= 4,
    ensures
        match r {
            Some(n) => all_digits(chars@.subrange(from as int, to as int)) && n == decimal_value(
                chars@.subrange(from as int, to as int),
            ),
            None => !all_digits(chars@.subrange(from as int, to as int)),
        },
{
    let piece = text_of(chars, from, to);
    if !crate::text::only_digits(piece.as_str()) {
        return None;
    }
    proof {
        lemma_value_bound(piece@);
    }
    parse_number(piece.as_str())
}

proof fn lemma_value_bound(s: Seq<char>)
    requires
        all_digits(s),
        s.len() <= 4,
    ensures
        decimal_value(s) <= 9999,
{
    reveal_with_fuel(decimal_value, 5);
    assert(s.len() > 0 ==> is_digit(s[s.len() - 1]));
    assert(s.len() > 1 ==> is_digit(s[s.len() - 2]));
    assert(s.len() > 2 ==> is_digit(s[s.len() - 3]));
    assert(s.len() > 3 ==> is_digit(s[s.len() - 4]));
}

/// Whether `date` is a real ISO calendar date.
pub fn is_valid_date(date: &str) -> (r: bool)
    ensures
        r == is_date(date@),
{
    let chars = chars_of(date);
    if chars.len() != 10 || chars[4] != '-' || chars[7] != '-' {
        return false;
    }
    let year = digits_at(&chars, 0, 4);
    let month = digits_at(&chars, 5, 7);
    let day = digits_at(&chars, 8, 10);
    match (year, month, day) {
        (Some(year), Some(month), Some(day)) => {
            if month < 1 || month > 12 || day == 0 {
                return false;
            }
            let leap: bool = year % 4 == 0 && (year % 100 != 0 || year % 400 == 0);
            let last: u64 = if month == 4 || month == 6 || month == 9 || month == 11 {
                30
            } else if month == 2 {
                if leap {
                    29
                } else {
                    28
                }
            } else {
                31
            };
            day <= last
        },
        _ => false,
    }
}

/// The year of a day within the 400 years of an era, years beginning in March.
proof fn lemma_year_of_era(doe: int, yoe: int)
    requires
        0 <= doe < 146_097,
        yoe == (doe - doe / 1_460 + doe / 36_524 - doe / 146_096) / 365,
    ensures
        0 <= yoe < 400,
        0 <= doe - (365 * yoe + yoe / 4 - yoe / 100) <= 365,
        doe - (365 * yoe + yoe / 4 - yoe / 100) == 365 ==> is_leap(yoe + 1),
{
}

/// The month and the day of a day of a year that begins in March.
proof fn lemma_month_of_year(doy: int, mp: int)
    requires
        0 <= doy <= 365,
        mp == (5 * doy + 2) / 153,
    ensures
        0 <= mp <= 11,
        1 <= doy - (153 * mp + 2) / 5 + 1 <= 31,
        mp == 1 || mp == 3 || mp == 6 || mp == 8 ==> doy - (153 * mp + 2) / 5 + 1 <= 30,
        mp == 11 && doy < 365 ==> doy - (153 * mp + 2) / 5 + 1 <= 28,
        mp == 11 ==> doy - (153 * mp + 2) / 5 + 1 <= 29,
        doy == 365 ==> mp == 11,
{
}

/// Every 400 years the calendar repeats.
proof fn lemma_era(era: int, yoe: int)
    requires
        0 <= yoe < 400,
    ensures
        days_to_march(yoe + era * 400) == 146_097 * era + 365 * yoe + yoe / 4 - yoe / 100,
        is_leap(yoe + era * 400 + 1) == is_leap(yoe + 1),
{
    let y = yoe + era * 400;
    assert(y / 400 == era && y / 100 == 4 * era + yoe / 100 && y / 4 == 100 * era + yoe / 4);
    assert((y + 1) % 4 == (yoe + 1) % 4);
    assert((y + 1) % 100 == (yoe + 1) % 100);
    assert((y + 1) % 400 == (yoe + 1) % 400);
}

proof fn lemma_civil(era: int, doe: int, yoe: int, mp: int, year: int, month: int, day: int)
    requires
        0 <= doe < 146_097,
        yoe == (doe - doe / 1_460 + doe / 36_524 - doe / 146_096) / 365,
        mp == (5 * (doe - (365 * yoe + yoe / 4 - yoe / 100)) + 2) / 153,
        day == doe - (365 * yoe + yoe / 4 - yoe / 100) - (153 * mp + 2) / 5 + 1,
        month == if mp < 10 {
            mp + 3
        } else {
            mp - 9
        },
        year == yoe + era * 400 + if month <= 2 {
            1int
        } else {
            0int
        },
    ensures
        is_civil(year, month, day),
        days_of_civil(year, month, day) == 146_097 * era + doe - 719_468,
{
    lemma_year_of_era(doe, yoe);
    let doy = doe - (365 * yoe + yoe / 4 - yoe / 100);
    lemma_month_of_year(doy, mp);
    lemma_era(era, yoe);
    assert(month_from_march(month) == mp);
    assert(year_from_march(year, month) == yoe + era * 400);
    assert(days_in_month(year, month) >= 28);
}

/// The day of the calendar that lies `days` after the first of January 1970.
pub fn civil_from_days(days: i64) -> (r: (i64, u32, u32))
    requires
        days <= i64::MAX - 719_468,
    ensures
        is_civil(r.0 as int, r.1 as int, r.2 as int),
        days_of_civil(r.0 as int, r.1 as int, r.2 as int) == days,
{
    let shifted: i64 = days + 719_468;
    let (era, doe) = era_of(shifted);
    proof {
        lemma_year_of_era(
            doe as int,
            (doe - doe as int / 1_460 + doe as int / 36_524 - doe as int / 146_096) / 365,
        );
    }
    let yoe: i64 = (doe - doe / 1_460 + doe / 36_524 - doe / 146_096) / 365;
    let doy: i64 = doe - (365 * yoe + yoe / 4 - yoe / 100);
    proof {
        lemma_month_of_year(doy as int, (5 * doy + 2) / 153);
    }
    let mp: i64 = (5 * doy + 2) / 153;
    let day: i64 = doy - (153 * mp + 2) / 5 + 1;
    let month: i64 = if mp < 10 {
        mp + 3
    } else {
        mp - 9
    };
    let later: i64 = if month <= 2 {
        1
    } else {
        0
    };
    let year: i64 = yoe + era * 400 + later;
    proof {
        lemma_civil(
            era as int,
            doe as int,
            yoe as int,
            mp as int,
            year as int,
            month as int,
            day as int,
        );
    }
    (year, month as u32, day as u32)
}

/// The era of a day, and the day's place in it.
fn era_of(days: i64) -> (r: (i64, i64))
    ensures
        r.0 * 146_097 + r.1 == days,
        0 <= r.1 < 146_097,
        -64_000_000_000_000 <= r.0 <= 64_000_000_000_000,
{
    if days >= 0 {
        (days / 146_097, days % 146_097)
    } else {
        let before: i64 = -(days + 1);
        (-(before / 146_097) - 1, 146_096 - before % 146_097)
    }
}

/// `text` behind as many zeros as it needs to be `width` characters long.
pub open spec fn zero_padded(text: Seq<char>, width: nat) -> Seq<char> {
    if text.len() < width {
        Seq::new((width - text.len()) as nat, |i: int| '0') + text
    } else {
        text
    }
}

fn padded(n: u128, width: usize) -> (r: String)
    ensures
        r@ == zero_padded(decimal(n as nat), width as nat),
{
    let digits = number(n);
    let count: usize = chars_of(digits.as_str()).len();
    let mut out = String::new();
    let mut i: usize = count;
    while i < width
        invariant
            count == digits@.len(),
            count <= i,
            i <= width || i == count,
            out@ == Seq::new((i - count) as nat, |k: int| '0'),
        decreases width - i,
    {
        out.push('0');
        i += 1;
        assert(out@ =~= Seq::new((i - count) as nat, |k: int| '0'));
    }
    out.append(digits.as_str());
    assert(out@ =~= zero_padded(decimal(n as nat), width as nat));
    out
}

/// A date in `yyyy-mm-dd` form.
pub open spec fn date_text(year: int, month: int, day: int) -> Seq<char> {
    zero_padded(decimal(year as nat), 4) + "-"@ + zero_padded(decimal(month as nat), 2) + "-"@
        + zero_padded(decimal(day as nat), 2)
}

/// Whether `text` writes the date that lies `seconds` after the start of 1970.
pub open spec fn is_date_of(seconds: u64, text: Seq<char>) -> bool {
    exists|year: int, month: int, day: int|
        is_civil(year, month, day) && #[trigger] days_of_civil(year, month, day) == seconds
            / 86_400 && text == date_text(year, month, day)
}

/// The UTC date `seconds` after the Unix epoch, in `yyyy-mm-dd` form.
pub fn date_from_unix_seconds(seconds: u64) -> (r: String)
    ensures
        is_date_of(seconds, r@),
{
    let (year, month, day) = civil_from_days((seconds / 86_400) as i64);
    proof {
        lemma_year_not_negative(year as int, month as int, day as int);
    }
    let mut out = padded(year as u128, 4);
    out.append("-");
    out.append(padded(month as u128, 2).as_str());
    out.append("-");
    out.append(padded(day as u128, 2).as_str());
    assert(days_of_civil(year as int, month as int, day as int) == seconds / 86_400);
    assert(out@ == date_text(year as int, month as int, day as int));
    out
}

/// A day from 1970 on lies in a year from 1970 on.
proof fn lemma_year_not_negative(year: int, month: int, day: int)
    requires
        is_civil(year, month, day),
        days_of_civil(year, month, day) >= 0,
    ensures
        year >= 1970,
{
    let y = year_from_march(year, month);
    assert(days_to_march(y) <= 365 * y + y / 4 + 1);
    if year < 1970 {
        assert(y <= 1969);
        lemma_days_grow(y, 1969);
    }
}

/// Later years begin later.
proof fn lemma_days_grow(a: int, b: int)
    requires
        a <= b,
    ensures
        days_to_march(a) <= days_to_march(b) - 365 * (b - a) + 1,
        days_to_march(a) <= days_to_march(b),
{
}

/// Today's UTC date in `yyyy-mm-dd` form, where the clock shows `seconds`.
pub fn today(seconds: u64) -> (r: String)
    ensures
        is_date_of(seconds, r@),
{
    date_from_unix_seconds(seconds)
}

/// A day of the calendar has one number, and a number has one day.
pub proof fn law_days_are_counted_once(
    year: int,
    month: int,
    day: int,
    other_year: int,
    other_month: int,
    other_day: int,
)
    requires
        is_civil(year, month, day),
        is_civil(other_year, other_month, other_day),
        days_of_civil(year, month, day) == days_of_civil(other_year, other_month, other_day),
    ensures
        year == other_year,
        month == other_month,
        day == other_day,
{
    let a = year_from_march(year, month);
    let b = year_from_march(other_year, other_month);
    lemma_day_in_year(year, month, day);
    lemma_day_in_year(other_year, other_month, other_day);
    if a < b {
        lemma_years_in_order(a + 1, b);
    } else if b < a {
        lemma_years_in_order(b + 1, a);
    }
    assert(a == b);
    let m = month_from_march(month);
    let n = month_from_march(other_month);
    assert(m == n);
}

/// A day lies between the first of March before it and the one after it.
proof fn lemma_day_in_year(year: int, month: int, day: int)
    requires
        is_civil(year, month, day),
    ensures
        days_to_march(year_from_march(year, month)) <= days_of_civil(year, month, day) + 719_468
            < days_to_march(year_from_march(year, month) + 1),
{
    let y = year_from_march(year, month);
    assert(days_to_march(y + 1) - days_to_march(y) == if is_leap(y + 1) {
        366int
    } else {
        365int
    }) by {
        lemma_leap_step(y);
    }
}

proof fn lemma_leap_step(y: int)
    ensures
        (y + 1) / 4 - y / 4 == if (y + 1) % 4 == 0 {
            1int
        } else {
            0int
        },
        (y + 1) / 100 - y / 100 == if (y + 1) % 100 == 0 {
            1int
        } else {
            0int
        },
        (y + 1) / 400 - y / 400 == if (y + 1) % 400 == 0 {
            1int
        } else {
            0int
        },
        (y + 1) % 400 == 0 ==> (y + 1) % 100 == 0,
        (y + 1) % 100 == 0 ==> (y + 1) % 4 == 0,
{
}

proof fn lemma_years_in_order(a: int, b: int)
    requires
        a <= b,
    ensures
        days_to_march(a) <= days_to_march(b),
    decreases b - a,
{
    if a < b {
        lemma_leap_step(a);
        lemma_years_in_order(a + 1, b);
    }
}

/// The date of today is a valid date, up to the end of the year 9999.
pub proof fn law_written_dates_are_valid(year: int, month: int, day: int)
    requires
        is_civil(year, month, day),
        0 <= year <= 9999,
    ensures
        is_date(date_text(year, month, day)),
{
    reveal_strlit("-");
    let text = date_text(year, month, day);
    let y = zero_padded(decimal(year as nat), 4);
    let m = zero_padded(decimal(month as nat), 2);
    let d = zero_padded(decimal(day as nat), 2);
    lemma_padded(year as nat, 4);
    lemma_padded(month as nat, 2);
    lemma_padded(day as nat, 2);
    assert(text.subrange(0, 4) =~= y);
    assert(text.subrange(5, 7) =~= m);
    assert(text.subrange(8, 10) =~= d);
}

/// A padded numeral has the width and the value that it should have.
proof fn lemma_padded(n: nat, width: nat)
    requires
        width == 2 && n <= 99 || width == 4 && n <= 9999,
    ensures
        zero_padded(decimal(n), width).len() == width,
        all_digits(zero_padded(decimal(n), width)),
        decimal_value(zero_padded(decimal(n), width)) == n,
{
    law_decimal_round_trip(n);
    let digits = decimal(n);
    reveal_with_fuel(decimal, 5);
    assert(digits.len() <= width);
    let text = zero_padded(digits, width);
    assert forall|i: int| 0 <= i < text.len() implies is_digit(#[trigger] text[i]) by {
        if i >= width - digits.len() {
            assert(text[i] == digits[i - (width - digits.len())]);
            assert(is_digit(digits[i - (width - digits.len())]));
        }
    }
    lemma_leading_zeros(Seq::new((width - digits.len()) as nat, |i: int| '0'), digits);
    assert(text =~= Seq::new((width - digits.len()) as nat, |i: int| '0') + digits);
}

proof fn lemma_leading_zeros(zeros: Seq<char>, digits: Seq<char>)
    requires
        forall|i: int| 0 <= i < zeros.len() ==> #[trigger] zeros[i] == '0',
    ensures
        decimal_value(zeros + digits) == decimal_value(digits),
    decreases zeros.len() + digits.len(),
{
    if digits.len() > 0 {
        lemma_leading_zeros(zeros, digits.drop_last());
        assert((zeros + digits).drop_last() =~= zeros + digits.drop_last());
    } else if zeros.len() > 0 {
        let fewer = zeros.drop_last();
        assert forall|i: int| 0 <= i < fewer.len() implies #[trigger] fewer[i] == '0' by {
            assert(fewer[i] == zeros[i]);
        }
        lemma_leading_zeros(fewer, digits);
        assert((zeros + digits).drop_last() =~= fewer + digits);
        assert((zeros + digits).last() == '0');
    }
}

} // verus!
