//! Dates of the proleptic Gregorian calendar.

use vstd::prelude::*;

verus! {

/// Every fourth year, except centuries, except every fourth century.
pub open spec fn leap(y: int) -> bool {
    y % 4 == 0 && (y % 100 != 0 || y % 400 == 0)
}

/// Days of month `m` of year `y`.
pub open spec fn month_days(y: int, m: int) -> int {
    if m == 2 {
        if leap(y) {
            29
        } else {
            28
        }
    } else if m == 4 || m == 6 || m == 9 || m == 11 {
        30
    } else {
        31
    }
}

/// Days of year `y` before month `m`.
pub open spec fn days_before_month(y: int, m: int) -> int
    decreases m,
{
    if m <= 1 {
        0
    } else {
        days_before_month(y, m - 1) + month_days(y, m - 1)
    }
}

/// Leap years before year `y`, counted from the year 1.
pub open spec fn leaps_before(y: int) -> int {
    (y - 1) / 4 - (y - 1) / 100 + (y - 1) / 400
}

/// Days from the first day of 1970 to a date.
pub open spec fn day_number(y: int, m: int, d: int) -> int {
    365 * (y - 1970) + leaps_before(y) - leaps_before(1970) + days_before_month(y, m) + d - 1
}

/// A date that exists.
pub open spec fn valid_date(y: int, m: int, d: int) -> bool {
    1 <= m <= 12 && 1 <= d <= month_days(y, m)
}

/// The count of leap years grows by one over a leap year, and not over another.
pub proof fn leaps_count_leap_years(y: int)
    ensures
        leaps_before(y + 1) == leaps_before(y) + (if leap(y) {
            1int
        } else {
            0
        }),
{
    lemma_step_4(y);
    lemma_step_100(y);
    lemma_step_400(y);
    lemma_nested(y);
}

proof fn lemma_step_4(y: int)
    ensures
        y / 4 - (y - 1) / 4 == (if y % 4 == 0 {
            1int
        } else {
            0
        }),
{
}

proof fn lemma_step_100(y: int)
    ensures
        y / 100 - (y - 1) / 100 == (if y % 100 == 0 {
            1int
        } else {
            0
        }),
{
}

proof fn lemma_step_400(y: int)
    ensures
        y / 400 - (y - 1) / 400 == (if y % 400 == 0 {
            1int
        } else {
            0
        }),
{
}

proof fn lemma_nested(y: int)
    ensures
        y % 400 == 0 ==> y % 100 == 0,
        y % 100 == 0 ==> y % 4 == 0,
{
}

proof fn lemma_shift_4(a: int, e: int)
    ensures
        (a + 400 * e) / 4 == a / 4 + 100 * e,
        (a + 400 * e) % 4 == a % 4,
{
}

proof fn lemma_shift_100(a: int, e: int)
    ensures
        (a + 400 * e) / 100 == a / 100 + 4 * e,
        (a + 400 * e) % 100 == a % 100,
{
}

proof fn lemma_shift_400(a: int, e: int)
    ensures
        (a + 400 * e) / 400 == a / 400 + e,
        (a + 400 * e) % 400 == a % 400,
{
}

/// The calendar repeats every 400 years, which hold 97 leap years.
pub proof fn calendar_repeats(a: int, e: int)
    ensures
        leap(a + 400 * e) == leap(a),
        leaps_before(a + 400 * e) == leaps_before(a) + 97 * e,
{
    lemma_shift_4(a, e);
    lemma_shift_100(a, e);
    lemma_shift_400(a, e);
    lemma_shift_4(a - 1, e);
    lemma_shift_100(a - 1, e);
    lemma_shift_400(a - 1, e);
}

/// Year `y` has 365 days, a leap year one more.
pub proof fn year_has_its_days(y: int)
    ensures
        days_before_month(y, 13) == (if leap(y) {
            366int
        } else {
            365
        }),
        day_number(y + 1, 1, 1) == day_number(y, 12, 31) + 1,
{
    reveal_with_fuel(days_before_month, 13);
    leaps_count_leap_years(y);
}

proof fn lemma_month_table(y: int)
    ensures
        ({
            let f = if leap(y) {
                1int
            } else {
                0
            };
            &&& days_before_month(y, 1) == 0
            &&& days_before_month(y, 2) == 31
            &&& days_before_month(y, 3) == 59 + f
            &&& days_before_month(y, 4) == 90 + f
            &&& days_before_month(y, 5) == 120 + f
            &&& days_before_month(y, 6) == 151 + f
            &&& days_before_month(y, 7) == 181 + f
            &&& days_before_month(y, 8) == 212 + f
            &&& days_before_month(y, 9) == 243 + f
            &&& days_before_month(y, 10) == 273 + f
            &&& days_before_month(y, 11) == 304 + f
            &&& days_before_month(y, 12) == 334 + f
        }),
{
    reveal_with_fuel(days_before_month, 13);
}

/// Days of a 400-year era before its March-based year `yoe`.
spec fn era_days(yoe: int) -> int {
    365 * yoe + yoe / 4 - yoe / 100
}

/// The March-based year of an era that day `doe` falls into.
proof fn lemma_year_of_era(doe: int, yoe: int)
    requires
        0 <= doe < 146097,
        yoe == (doe - doe / 1460 + doe / 36524 - doe / 146096) / 365,
    ensures
        0 <= yoe <= 399,
        era_days(yoe) <= doe,
        doe - era_days(yoe) <= 365,
        doe - era_days(yoe) == 365 ==> leap(yoe + 1),
{
}

proof fn lemma_civil(era: int, yoe: int, doy: int, mp: int, d: int, m: int, y: int)
    requires
        0 <= yoe <= 399,
        0 <= doy <= 365,
        doy == 365 ==> leap(yoe + 1),
        mp == (5 * doy + 2) / 153,
        d == doy - (153 * mp + 2) / 5 + 1,
        m == (if mp < 10 {
            mp + 3
        } else {
            mp - 9
        }),
        y == yoe + 400 * era + (if m <= 2 {
            1int
        } else {
            0
        }),
    ensures
        valid_date(y, m, d),
        day_number(y, m, d) == 146097 * era + era_days(yoe) + doy - 719468,
{
    let a = y - 400 * era;
    lemma_month_table(y);
    lemma_month_of_doy(doy, mp);
    calendar_repeats(a, era);
    leaps_count_leap_years(yoe);
    assert(yoe / 400 == 0);
    assert(leaps_before(1970) == 477);
    if mp < 10 {
        assert(a == yoe);
        assert(days_before_month(y, m) == (153 * mp + 2) / 5 + 59 + (if leap(y) {
            1int
        } else {
            0
        }));
    } else {
        assert(a == yoe + 1);
        assert(days_before_month(y, m) == (153 * mp + 2) / 5 - 306);
    }
}

proof fn lemma_month_of_doy(doy: int, mp: int)
    requires
        0 <= doy <= 365,
        mp == (5 * doy + 2) / 153,
    ensures
        0 <= mp <= 11,
        (153 * mp + 2) / 5 <= doy,
        mp < 11 ==> doy < (153 * (mp + 1) + 2) / 5,
{
}

/// The date of the day `z` days after the first day of 1970.
pub fn civil_from_days(z: i64) -> (r: (i64, u32, u32))
    requires
        i64::MIN + 146096 <= z + 719468 <= i64::MAX,
    ensures
        valid_date(r.0 as int, r.1 as int, r.2 as int),
        day_number(r.0 as int, r.1 as int, r.2 as int) == z,
{
    let z: i64 = z + 719468;
    let era: i64 = if z >= 0 {
        z / 146097
    } else {
        0 - (146096 - z) / 146097
    };
    let doe: i64 = z - era * 146097;
    let yoe: i64 = (doe - doe / 1460 + doe / 36524 - doe / 146096) / 365;
    proof {
        lemma_year_of_era(doe as int, yoe as int);
    }
    let y: i64 = yoe + era * 400;
    let doy: i64 = doe - (365 * yoe + yoe / 4 - yoe / 100);
    let mp: i64 = (5 * doy + 2) / 153;
    let d: u32 = (doy - (153 * mp + 2) / 5 + 1) as u32;
    let m: u32 = if mp < 10 {
        (mp + 3) as u32
    } else {
        (mp - 9) as u32
    };
    let year: i64 = if m <= 2 {
        y + 1
    } else {
        y
    };
    proof {
        lemma_civil(
            era as int,
            yoe as int,
            doy as int,
            mp as int,
            d as int,
            m as int,
            year as int,
        );
    }
    (year, m, d)
}

proof fn lemma_later_year(y1: int, m1: int, d1: int, y2: int, m2: int, d2: int)
    requires
        valid_date(y1, m1, d1),
        valid_date(y2, m2, d2),
        y1 < y2,
    ensures
        day_number(y1, m1, d1) < day_number(y2, m2, d2),
{
    lemma_month_table(y1);
    lemma_month_table(y2);
    assert(days_before_month(y1, m1) + d1 <= (if leap(y1) {
        366int
    } else {
        365
    }));
    assert(days_before_month(y2, m2) >= 0);
    leaps_count_leap_years(y1);
    lemma_leaps_grow(y1 + 1, y2);
}

proof fn lemma_leaps_grow(a: int, b: int)
    requires
        a <= b,
    ensures
        leaps_before(a) <= leaps_before(b),
    decreases b - a,
{
    if a < b {
        lemma_leaps_grow(a, b - 1);
        leaps_count_leap_years(b - 1);
    }
}

proof fn lemma_later_month(y: int, m1: int, d1: int, m2: int, d2: int)
    requires
        valid_date(y, m1, d1),
        valid_date(y, m2, d2),
        m1 < m2,
    ensures
        day_number(y, m1, d1) < day_number(y, m2, d2),
{
    lemma_month_table(y);
}

/// Dates and days correspond one to one: different dates fall on different days.
pub proof fn a_day_has_one_date(y1: int, m1: int, d1: int, y2: int, m2: int, d2: int)
    requires
        valid_date(y1, m1, d1),
        valid_date(y2, m2, d2),
        day_number(y1, m1, d1) == day_number(y2, m2, d2),
    ensures
        y1 == y2,
        m1 == m2,
        d1 == d2,
{
    if y1 < y2 {
        lemma_later_year(y1, m1, d1, y2, m2, d2);
    } else if y2 < y1 {
        lemma_later_year(y2, m2, d2, y1, m1, d1);
    } else if m1 < m2 {
        lemma_later_month(y1, m1, d1, m2, d2);
    } else if m2 < m1 {
        lemma_later_month(y1, m2, d2, m1, d1);
    }
}

/// Days that are not before the first day of 1970 fall into 1970 or later.
pub proof fn day_from_1970_on(y: int, m: int, d: int)
    requires
        valid_date(y, m, d),
        day_number(y, m, d) >= 0,
    ensures
        y >= 1970,
{
    if y < 1970 {
        lemma_later_year(y, m, d, 1970, 1, 1);
        assert(day_number(1970, 1, 1) == 0);
    }
}

/// A later day has a later date: a later year, or a later month of the same year,
/// or a later day of the same month.
pub proof fn later_day_has_later_date(y1: int, m1: int, d1: int, y2: int, m2: int, d2: int)
    requires
        valid_date(y1, m1, d1),
        valid_date(y2, m2, d2),
        day_number(y1, m1, d1) < day_number(y2, m2, d2),
    ensures
        y1 < y2 || y1 == y2 && (m1 < m2 || m1 == m2 && d1 < d2),
{
    if y2 < y1 {
        lemma_later_year(y2, m2, d2, y1, m1, d1);
    } else if y1 == y2 && m2 < m1 {
        lemma_later_month(y1, m2, d2, m1, d1);
    }
}

/// Days before the first day of the year 10000 fall into years of four digits.
pub proof fn year_has_four_digits(y: int, m: int, d: int)
    requires
        valid_date(y, m, d),
        day_number(y, m, d) < 2_932_897,
    ensures
        y <= 9999,
{
    if y > 9999 {
        assert(valid_date(9999, 12, 31));
        lemma_later_year(9999, 12, 31, y, m, d);
        lemma_month_table(9999);
    }
}

/// The months have their lengths, and February has a day more in years that four
/// divides, except where a hundred does and four hundred does not.
pub proof fn months_have_their_lengths(y: int)
    ensures
        month_days(y, 1) == 31 && month_days(y, 3) == 31 && month_days(y, 4) == 30,
        month_days(y, 5) == 31 && month_days(y, 6) == 30 && month_days(y, 7) == 31,
        month_days(y, 8) == 31 && month_days(y, 9) == 30 && month_days(y, 10) == 31,
        month_days(y, 11) == 30 && month_days(y, 12) == 31,
        y % 4 != 0 ==> month_days(y, 2) == 28,
        y % 4 == 0 && y % 100 != 0 ==> month_days(y, 2) == 29,
        y % 100 == 0 && y % 400 != 0 ==> month_days(y, 2) == 28,
        y % 400 == 0 ==> month_days(y, 2) == 29,
{
    lemma_nested(y);
}

/// Days are counted from the first day of 1970, one by one, over the ends of months
/// and years.
pub proof fn days_are_counted_one_by_one(y: int, m: int, d: int)
    requires
        valid_date(y, m, d),
    ensures
        day_number(1970, 1, 1) == 0,
        valid_date(y, m, d + 1) ==> day_number(y, m, d + 1) == day_number(y, m, d) + 1,
        !valid_date(y, m, d + 1) && m < 12 ==> day_number(y, m + 1, 1) == day_number(y, m, d) + 1,
        !valid_date(y, m, d + 1) && m == 12 ==> day_number(y + 1, 1, 1) == day_number(y, m, d) + 1,
{
    if m < 12 {
        assert(days_before_month(y, m + 1) == days_before_month(y, m) + month_days(y, m));
    } else {
        year_has_its_days(y);
    }
}

} // verus!
