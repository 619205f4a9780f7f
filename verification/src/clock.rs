//! Dates and times of day, in coordinated universal time.

use vstd::prelude::*;
use vstd::string::*;

use crate::text::{dec, pad_left, push_dec_padded};

verus! {

/// How many of the years from one to `n` are leap years; the negative of those from `n + 1`
/// to zero where `n` is negative.
pub open spec fn leap_years(n: int) -> int {
    n / 4 - n / 100 + n / 400
}

pub open spec fn is_leap_year(y: int) -> bool {
    y % 4 == 0 && (y % 100 != 0 || y % 400 == 0)
}

pub open spec fn month_length(y: int, m: int) -> int {
    if m == 2 {
        if is_leap_year(y) {
            29
        } else {
            28
        }
    } else if m == 4 || m == 6 || m == 9 || m == 11 {
        30
    } else {
        31
    }
}

/// The days of the year `y` before its month `m`.
pub open spec fn days_before_month(y: int, m: int) -> int
    decreases m,
{
    if m <= 1 {
        0
    } else {
        days_before_month(y, m - 1) + month_length(y, m - 1)
    }
}

/// The days from the first of January 1970 to the first of January of `y`.
pub open spec fn days_before_year(y: int) -> int {
    365 * (y - 1970) + leap_years(y - 1) - leap_years(1969)
}

/// The number of a date, counted from the first of January 1970.
pub open spec fn day_number(y: int, m: int, d: int) -> int {
    days_before_year(y) + days_before_month(y, m) + d - 1
}

pub open spec fn is_date(y: int, m: int, d: int) -> bool {
    1 <= m <= 12 && 1 <= d <= month_length(y, m)
}

proof fn lemma_months(y: int)
    ensures
        days_before_month(y, 1) == 0,
        days_before_month(y, 2) == 31,
        ({
            let f = month_length(y, 2);
            &&& days_before_month(y, 3) == 31 + f
            &&& days_before_month(y, 4) == 62 + f
            &&& days_before_month(y, 5) == 92 + f
            &&& days_before_month(y, 6) == 123 + f
            &&& days_before_month(y, 7) == 153 + f
            &&& days_before_month(y, 8) == 184 + f
            &&& days_before_month(y, 9) == 215 + f
            &&& days_before_month(y, 10) == 245 + f
            &&& days_before_month(y, 11) == 276 + f
            &&& days_before_month(y, 12) == 306 + f
        }),
{
    reveal_with_fuel(days_before_month, 13);
}

/// The year of an era of four hundred years, counted from March, in which its day `doe`
/// lies.
proof fn lemma_year_of_era(doe: int, yoe: int)
    requires
        0 <= doe <= 146096,
        yoe == (doe - doe / 1460 + doe / 36524 - doe / 146096) / 365,
    ensures
        0 <= yoe <= 399,
        0 <= doe - (365 * yoe + yoe / 4 - yoe / 100),
        doe - (365 * yoe + yoe / 4 - yoe / 100) <= 365,
        doe - (365 * yoe + yoe / 4 - yoe / 100) == 365 ==> (yoe + 1) % 4 == 0 && ((yoe + 1) % 100 != 0 || yoe
            == 399),
{
    let c = doe / 36524;
    let q = doe / 1460;
    assert(0 <= c <= 4);
    assert(0 <= q <= 100);
}

/// The month, counted from March, in which the day `doy` of a year that starts in March
/// lies, and the day with which it begins.
proof fn lemma_month_of_year(doy: int, mp: int, first: int)
    requires
        0 <= doy <= 365,
        mp == (5 * doy + 2) / 153,
        first == (153 * mp + 2) / 5,
    ensures
        0 <= mp <= 11,
        first <= doy,
        mp == 0 ==> first == 0 && doy < 31,
        mp == 1 ==> first == 31 && doy < 61,
        mp == 2 ==> first == 61 && doy < 92,
        mp == 3 ==> first == 92 && doy < 122,
        mp == 4 ==> first == 122 && doy < 153,
        mp == 5 ==> first == 153 && doy < 184,
        mp == 6 ==> first == 184 && doy < 214,
        mp == 7 ==> first == 214 && doy < 245,
        mp == 8 ==> first == 245 && doy < 275,
        mp == 9 ==> first == 275 && doy < 306,
        mp == 10 ==> first == 306 && doy < 337,
        mp == 11 ==> first == 337,
{
}

/// One more year is a leap year or not.
proof fn lemma_leap_step(y: int)
    ensures
        leap_years(y) == leap_years(y - 1) + if is_leap_year(y) {
            1int
        } else {
            0
        },
{
}

/// The number of the first of March of the year `yoe` of an era.
proof fn lemma_march(era: int, yoe: int)
    requires
        0 <= yoe <= 399,
    ensures
        ({
            let y = yoe + era * 400;
            &&& days_before_year(y) + 31 + month_length(y, 2) == era * 146097 + 365 * yoe + yoe / 4
                - yoe / 100 - 719468
            &&& days_before_year(y + 1) == era * 146097 + 365 * yoe + yoe / 4 - yoe / 100 - 719468
                + 306
            &&& is_leap_year(y + 1) == ((yoe + 1) % 4 == 0 && ((yoe + 1) % 100 != 0 || yoe == 399))
        }),
{
    let y = yoe + era * 400;
    lemma_leap_step(y);
    assert(y / 4 == yoe / 4 + era * 100);
    assert(y / 100 == yoe / 100 + era * 4);
    assert(y / 400 == era);
    assert((y + 1) % 4 == (yoe + 1) % 4);
    assert((y + 1) % 100 == (yoe + 1) % 100);
    assert((y + 1) % 400 == (yoe + 1) % 400);
}

/// The civil date of a day, counted from the first of January 1970.
pub fn civil_from_days(days_since_epoch: i64) -> (r: (i64, i64, i64))
    requires
        days_since_epoch <= i64::MAX - 719_468,
    ensures
        is_date(r.0 as int, r.1 as int, r.2 as int),
        day_number(r.0 as int, r.1 as int, r.2 as int) == days_since_epoch,
{
    let z: i64 = days_since_epoch + 719_468;
    let era: i64 = if z >= 0 {
        z / 146_097
    } else {
        -((-(z + 1)) / 146_097) - 1
    };
    let doe: i64 = z - era * 146_097;
    assert(0 <= doe <= 146_096);
    let yoe: i64 = (doe - doe / 1_460 + doe / 36_524 - doe / 146_096) / 365;
    proof {
        lemma_year_of_era(doe as int, yoe as int);
    }
    let y: i64 = yoe + era * 400;
    let doy: i64 = doe - (365 * yoe + yoe / 4 - yoe / 100);
    let mp: i64 = (5 * doy + 2) / 153;
    let day: i64 = doy - (153 * mp + 2) / 5 + 1;
    let month: i64 = if mp < 10 {
        mp + 3
    } else {
        mp - 9
    };
    let year: i64 = if month <= 2 {
        y + 1
    } else {
        y
    };
    proof {
        lemma_months(year as int);
        lemma_month_of_year(doy as int, mp as int, (153 * mp + 2) / 5);
        lemma_march(era as int, yoe as int);
    }
    (year, month, day)
}


/// A number of at least `width` digits, zeros in front; the sign counts as a digit.
pub open spec fn padded_int(n: int, width: nat) -> Seq<char> {
    if n < 0 {
        seq!['-'] + pad_left(
            dec((-n) as nat),
            if width == 0 {
                0
            } else {
                (width - 1) as nat
            },
            '0',
        )
    } else {
        pad_left(dec(n as nat), width, '0')
    }
}

/// The text of a time: date and time of day.
pub open spec fn timestamp_text(y: int, m: int, d: int, second_of_day: int) -> Seq<char> {
    padded_int(y, 4) + "-"@ + padded_int(m, 2) + "-"@ + padded_int(d, 2) + " "@ + padded_int(
        second_of_day / 3600,
        2,
    ) + ":"@ + padded_int((second_of_day % 3600) / 60, 2) + ":"@ + padded_int(
        second_of_day % 60,
        2,
    )
}

fn push_padded_int(out: &mut String, n: i64, width: usize)
    requires
        n > i64::MIN,
        width > 0,
    ensures
        final(out)@ == old(out)@ + padded_int(n as int, width as nat),
{
    if n < 0 {
        out.push('-');
        push_dec_padded(out, (-n) as u64, width - 1);
        assert(out@ =~= old(out)@ + padded_int(n as int, width as nat));
    } else {
        push_dec_padded(out, n as u64, width);
    }
}

/// The text of the time `secs` seconds after the start of 1970.
pub fn current_timestamp(secs: i64) -> (text: String)
    ensures
        exists|y: int, m: int, d: int|
            is_date(y, m, d) && day_number(y, m, d) == secs as int / 86_400 && text@
                == #[trigger] timestamp_text(y, m, d, secs as int % 86_400),
{
    let days: i64 = if secs >= 0 {
        secs / 86_400
    } else {
        -((-(secs + 1)) / 86_400) - 1
    };
    let second_of_day: i64 = if secs >= 0 {
        secs % 86_400
    } else {
        86_399 - (-(secs + 1)) % 86_400
    };
    assert(days == secs as int / 86_400);
    assert(second_of_day == secs as int % 86_400);
    let (year, month, day) = civil_from_days(days);
    proof {
        lemma_months(year as int);
        assert(year > i64::MIN);
    }
    let mut text = String::new();
    push_padded_int(&mut text, year, 4);
    text.append("-");
    push_padded_int(&mut text, month, 2);
    text.append("-");
    push_padded_int(&mut text, day, 2);
    text.append(" ");
    push_padded_int(&mut text, second_of_day / 3_600, 2);
    text.append(":");
    push_padded_int(&mut text, (second_of_day % 3_600) / 60, 2);
    text.append(":");
    push_padded_int(&mut text, second_of_day % 60, 2);
    assert(text@ =~= timestamp_text(
        year as int,
        month as int,
        day as int,
        secs as int % 86_400,
    ));
    text
}

/// No two dates have the same number.
pub proof fn law_dates_are_numbered_once(y1: int, m1: int, d1: int, y2: int, m2: int, d2: int)
    requires
        is_date(y1, m1, d1),
        is_date(y2, m2, d2),
        day_number(y1, m1, d1) == day_number(y2, m2, d2),
    ensures
        y1 == y2 && m1 == m2 && d1 == d2,
{
    lemma_months(y1);
    lemma_months(y2);
    if y1 < y2 {
        lemma_years_apart(y1, y2);
    } else if y2 < y1 {
        lemma_years_apart(y2, y1);
    }
}

proof fn lemma_years_apart(low: int, high: int)
    requires
        low < high,
    ensures
        days_before_year(high) >= days_before_year(low) + 337 + month_length(low, 2),
{
    lemma_leap_step(low);
}

} // verus!
