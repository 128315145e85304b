//! Proleptic Gregorian calendar arithmetic on day counts since 1970-01-01.

use vstd::prelude::*;

verus! {

/// Year of era, day of year and month index (March = 0) for a day of era
/// (`doe` in `[0, 146096]`), as in Howard Hinnant's `civil_from_days`.
pub open spec fn yoe_of(doe: int) -> int {
    (doe - doe / 1460 + doe / 36524 - doe / 146096) / 365
}

pub open spec fn doy_of(doe: int) -> int {
    let yoe = yoe_of(doe);
    doe - (365 * yoe + yoe / 4 - yoe / 100)
}

pub open spec fn mp_of(doy: int) -> int {
    (5 * doy + 2) / 153
}

/// The (year, month, day) of the day `days` after 1970-01-01 (days >= 0).
pub open spec fn civil_from_days(days: int) -> (int, int, int) {
    let z = days + 719468;
    let era = z / 146097;
    let doe = z - era * 146097;
    let yoe = yoe_of(doe);
    let y = yoe + era * 400;
    let doy = doy_of(doe);
    let mp = mp_of(doy);
    let d = doy - (153 * mp + 2) / 5 + 1;
    let m = if mp < 10 { mp + 3 } else { mp - 9 };
    (if m <= 2 { y + 1 } else { y }, m, d)
}

/// Days since 1970-01-01 of the civil date (y, m, d), as in Howard Hinnant's
/// `days_from_civil` (month 1..=12; other values follow the same formula).
pub open spec fn days_from_civil(y: int, m: int, d: int) -> int {
    let y1 = if m <= 2 { y - 1 } else { y };
    let era = y1 / 400;
    let yoe = y1 - era * 400;
    let mp = if m > 2 { m - 3 } else { m + 9 };
    let doy = (153 * mp + 2) / 5 + d - 1;
    let doe = yoe * 365 + yoe / 4 - yoe / 100 + doy;
    era * 146097 + doe - 719468
}

/// Facts about one 400-year era, checked exhaustively by the bit-vector
/// solver: the year of era is below 400 and the day of year lies in
/// `[0, 365]`.
pub proof fn lemma_era_ranges(doe: u32)
    requires
        doe < 146097,
    ensures
        0 <= yoe_of(doe as int) < 400,
        0 <= doy_of(doe as int) <= 365,
{
    let a: u32 = doe / 1460;
    let b: u32 = doe / 36524;
    let c: u32 = doe / 146096;
    assert(doe < 146097 ==> (doe - doe / 1460 + doe / 36524 - doe / 146096) / 365 < 400) by (bit_vector);
    assert(doe < 146097 ==> doe / 1460 <= doe) by (bit_vector);
    let yoe: u32 = ((doe - doe / 1460 + doe / 36524 - doe / 146096) / 365) as u32;
    assert(doe < 146097 && yoe == (doe - doe / 1460 + doe / 36524 - doe / 146096) / 365 ==>
        365 * yoe + yoe / 4 - yoe / 100 <= doe && doe - (365 * yoe + yoe / 4 - yoe / 100) <= 365) by (bit_vector);
}

/// Month index and day bounds for a day of year in `[0, 365]`.
pub proof fn lemma_year_ranges(doy: u32)
    requires
        doy <= 365,
    ensures
        0 <= mp_of(doy as int) <= 11,
        1 <= doy - (153 * mp_of(doy as int) + 2) / 5 + 1 <= 31,
{
    assert(doy <= 365 ==> (5 * doy + 2) / 153 <= 11) by (bit_vector);
    let mp: u32 = ((5 * doy + 2) / 153) as u32;
    assert(doy <= 365 && mp == (5 * doy + 2) / 153 ==>
        (153 * mp + 2) / 5 <= doy && doy - (153 * mp + 2) / 5 <= 30) by (bit_vector);
}


/// The civil date of a day count: the components are in range and the day
/// count maps back to `days`.
pub proof fn lemma_civil_from_days(days: int)
    requires
        days >= 0,
    ensures
        1 <= civil_from_days(days).1 <= 12,
        1 <= civil_from_days(days).2 <= 31,
        civil_from_days(days).0 >= 0,
        civil_from_days(days).2 <= days_in_month(civil_from_days(days).0, civil_from_days(days).1),
        days_from_civil(civil_from_days(days).0, civil_from_days(days).1, civil_from_days(days).2) == days,
{
    let z = days + 719468;
    let era = z / 146097;
    let doe = z - era * 146097;
    assert(0 <= doe < 146097) by (nonlinear_arith)
        requires z >= 0, era == z / 146097, doe == z - era * 146097;
    assert(era >= 0) by (nonlinear_arith) requires z >= 0, era == z / 146097;
    lemma_era_ranges(doe as u32);
    lemma_era_month_length(doe as u32);
    let yoe = yoe_of(doe);
    let doy = doy_of(doe);
    lemma_year_ranges(doy as u32);
    let mp = mp_of(doy);
    let y = yoe + era * 400;
    let (ry, m, d) = civil_from_days(days);
    // days_from_civil undoes each step
    let y1 = if m <= 2 { ry - 1 } else { ry };
    assert(y1 == y);
    assert(y1 / 400 == era && y1 - (y1 / 400) * 400 == yoe) by (nonlinear_arith)
        requires y1 == yoe + era * 400, 0 <= yoe < 400;
    let mp2 = if m > 2 { m - 3 } else { m + 9 };
    assert(mp2 == mp);
    assert((153 * mp2 + 2) / 5 + d - 1 == doy);
    let yy = if mp >= 10 { yoe + 1 } else { yoe };
    assert(ry == yy + era * 400);
    assert(ry % 4 == yy % 4 && ry % 100 == yy % 100 && ry % 400 == yy % 400) by (nonlinear_arith)
        requires ry == yy + era * 400, yy >= 0, era >= 0;
}


/// Whether `y` is a Gregorian leap year.
pub open spec fn is_leap(y: int) -> bool {
    y % 4 == 0 && (y % 100 != 0 || y % 400 == 0)
}

/// The number of days of month `m` of year `y`.
pub open spec fn days_in_month(y: int, m: int) -> int {
    if m == 2 {
        if is_leap(y) { 29 } else { 28 }
    } else if m == 4 || m == 6 || m == 9 || m == 11 {
        30
    } else {
        31
    }
}

/// Within one era the day never exceeds its month's length; `Y` is the
/// year of era, counted from January.
proof fn lemma_era_month_length(doe: u32)
    requires
        doe < 146097,
    ensures
        ({
            let yoe = (doe - doe / 1460 + doe / 36524 - doe / 146096) / 365;
            let doy = doe - (365 * yoe + yoe / 4 - yoe / 100);
            let mp = (5 * doy + 2) / 153;
            let d = doy - (153 * mp + 2) / 5 + 1;
            let yy = if mp >= 10 { yoe + 1 } else { yoe };
            let leap = yy % 4 == 0 && (yy % 100 != 0 || yy % 400 == 0);
            &&& (mp == 11 ==> d <= if leap { 29u32 } else { 28u32 })
            &&& (mp == 1 || mp == 3 || mp == 6 || mp == 8 ==> d <= 30)
        }),
{
    assert(doe < 146097 ==> ({
        let yoe = (doe - doe / 1460 + doe / 36524 - doe / 146096) / 365;
        let doy = doe - (365 * yoe + yoe / 4 - yoe / 100);
        let mp = (5 * doy + 2) / 153;
        let d = doy - (153 * mp + 2) / 5 + 1;
        let yy = if mp >= 10 { yoe + 1 } else { yoe };
        let leap = yy % 4 == 0 && (yy % 100 != 0 || yy % 400 == 0);
        &&& (mp == 11 ==> d <= if leap { 29u32 } else { 28u32 })
        &&& (mp == 1 || mp == 3 || mp == 6 || mp == 8 ==> d <= 30)
    })) by (bit_vector);
}

/// The day after a civil date.
pub open spec fn next_date(c: (int, int, int)) -> (int, int, int) {
    if c.2 < days_in_month(c.0, c.1) {
        (c.0, c.1, c.2 + 1)
    } else if c.1 < 12 {
        (c.0, c.1 + 1, 1)
    } else {
        (c.0 + 1, 1, 1)
    }
}

/// A real calendar date.
pub open spec fn valid_date(c: (int, int, int)) -> bool {
    1 <= c.1 <= 12 && 1 <= c.2 <= days_in_month(c.0, c.1)
}

/// The year counted from March that a date falls in, and the month index
/// from March (0) to February (11).
spec fn march_year(y: int, m: int) -> int {
    if m <= 2 { y - 1 } else { y }
}

spec fn month_index(m: int) -> int {
    if m > 2 { m - 3 } else { m + 9 }
}

/// Days from March 1 to the first of month index `mp`.
spec fn month_start(mp: int) -> int {
    (153 * mp + 2) / 5
}

/// Days from the start of the proleptic era to March 1 of March-year `y`.
spec fn year_start(y: int) -> int {
    let era = y / 400;
    let yoe = y - era * 400;
    era * 146097 + yoe * 365 + yoe / 4 - yoe / 100
}

proof fn lemma_days_from_civil_parts(y: int, m: int, d: int)
    ensures
        days_from_civil(y, m, d) == year_start(march_year(y, m)) + month_start(month_index(m)) + d - 1 - 719468,
{
}

/// Each March-year has 365 days, 366 when the February it ends with is a
/// leap one.
proof fn lemma_year_length(y: int)
    ensures
        year_start(y + 1) == year_start(y) + 365 + if is_leap(y + 1) { 1int } else { 0int },
{
    let era = y / 400;
    let yoe = y - era * 400;
    assert(0 <= yoe < 400);
    if yoe < 399 {
        assert((y + 1) / 400 == era) by (nonlinear_arith)
            requires y == era * 400 + yoe, 0 <= yoe < 399;
        assert((y + 1) % 4 == (yoe + 1) % 4 && (y + 1) % 100 == (yoe + 1) % 100 && (y + 1) % 400 == yoe + 1)
            by (nonlinear_arith)
            requires y == era * 400 + yoe, 0 <= yoe < 399;
    } else {
        assert((y + 1) / 400 == era + 1) by (nonlinear_arith)
            requires y == era * 400 + yoe, yoe == 399;
        assert((y + 1) % 400 == 0) by (nonlinear_arith)
            requires y == era * 400 + yoe, yoe == 399;
        assert((y + 1) % 4 == 0 && (y + 1) % 100 == 0) by (nonlinear_arith)
            requires (y + 1) % 400 == 0;
    }
}

proof fn lemma_year_start_grows(a: int, b: int)
    requires
        a < b,
    ensures
        year_start(b) >= year_start(a + 1),
    decreases b - a,
{
    if b > a + 1 {
        lemma_year_start_grows(a, b - 1);
        lemma_year_length(b - 1);
    }
}

/// Where a valid date lies within its March-year, and its month start.
proof fn lemma_day_of_year(c: (int, int, int))
    requires
        valid_date(c),
    ensures
        ({
            let mp = month_index(c.1);
            let doy = month_start(mp) + c.2 - 1;
            &&& 0 <= mp <= 11
            &&& 0 <= doy < 365 + if is_leap(march_year(c.0, c.1) + 1) { 1int } else { 0int }
            &&& (5 * doy + 2) / 153 == mp
        }),
{
    let mp = month_index(c.1);
    let d = c.2;
    if mp == 0 { assert(month_start(0) == 0); }
    else if mp == 1 { assert(month_start(1) == 31); }
    else if mp == 2 { assert(month_start(2) == 61); }
    else if mp == 3 { assert(month_start(3) == 92); }
    else if mp == 4 { assert(month_start(4) == 122); }
    else if mp == 5 { assert(month_start(5) == 153); }
    else if mp == 6 { assert(month_start(6) == 184); }
    else if mp == 7 { assert(month_start(7) == 214); }
    else if mp == 8 { assert(month_start(8) == 245); }
    else if mp == 9 { assert(month_start(9) == 275); }
    else if mp == 10 { assert(month_start(10) == 306); }
    else { assert(month_start(11) == 337); }
}

/// Two valid dates with the same day count are the same date.
proof fn lemma_days_from_civil_injective(a: (int, int, int), b: (int, int, int))
    requires
        valid_date(a),
        valid_date(b),
        days_from_civil(a.0, a.1, a.2) == days_from_civil(b.0, b.1, b.2),
    ensures
        a == b,
{
    lemma_days_from_civil_parts(a.0, a.1, a.2);
    lemma_days_from_civil_parts(b.0, b.1, b.2);
    lemma_day_of_year(a);
    lemma_day_of_year(b);
    let ya = march_year(a.0, a.1);
    let yb = march_year(b.0, b.1);
    if ya < yb {
        lemma_year_start_grows(ya, yb);
        lemma_year_length(ya);
    } else if yb < ya {
        lemma_year_start_grows(yb, ya);
        lemma_year_length(yb);
    }
    assert(ya == yb);
}

/// The day count of the next date is one more.
proof fn lemma_next_date_days(c: (int, int, int))
    requires
        valid_date(c),
    ensures
        valid_date(next_date(c)),
        days_from_civil(next_date(c).0, next_date(c).1, next_date(c).2) == days_from_civil(c.0, c.1, c.2) + 1,
{
    let n = next_date(c);
    lemma_days_from_civil_parts(c.0, c.1, c.2);
    lemma_days_from_civil_parts(n.0, n.1, n.2);
    if c.2 == days_in_month(c.0, c.1) {
        let mp = month_index(c.1);
        if c.1 == 2 {
            lemma_year_length(c.0 - 1);
            assert(month_start(11) == 337);
        } else if c.1 == 12 {
            assert(month_start(9) == 275 && month_start(10) == 306);
        } else {
            lemma_day_of_year(c);
            lemma_day_of_year(n);
            if mp == 0 { assert(month_start(1) == 31); }
            else if mp == 1 { assert(month_start(1) == 31 && month_start(2) == 61); }
            else if mp == 2 { assert(month_start(2) == 61 && month_start(3) == 92); }
            else if mp == 3 { assert(month_start(3) == 92 && month_start(4) == 122); }
            else if mp == 4 { assert(month_start(4) == 122 && month_start(5) == 153); }
            else if mp == 5 { assert(month_start(5) == 153 && month_start(6) == 184); }
            else if mp == 6 { assert(month_start(6) == 184 && month_start(7) == 214); }
            else if mp == 7 { assert(month_start(7) == 214 && month_start(8) == 245); }
            else if mp == 8 { assert(month_start(8) == 245 && month_start(9) == 275); }
            else { assert(month_start(10) == 306 && month_start(11) == 337); }
        }
    }
}

/// Day `n + 1` is the calendar day after day `n`.
pub proof fn lemma_next_day(days: int)
    requires
        days >= 0,
    ensures
        civil_from_days(days + 1) == next_date(civil_from_days(days)),
{
    let c = civil_from_days(days);
    let c2 = civil_from_days(days + 1);
    lemma_civil_from_days(days);
    lemma_civil_from_days(days + 1);
    lemma_next_date_days(c);
    lemma_days_from_civil_injective(c2, next_date(c));
}

proof fn lemma_epoch_date()
    ensures
        civil_from_days(0).0 == 1970,
{
    assert(719468int / 146097 == 4);
    assert(yoe_of(135080) == 369);
    assert(doy_of(135080) == 306);
    assert(mp_of(306) == 10);
}

/// Day counts from 1970-01-01 on fall in 1970 or later.
pub proof fn lemma_year_from_1970(days: int)
    requires
        days >= 0,
    ensures
        civil_from_days(days).0 >= 1970,
    decreases days,
{
    if days == 0 {
        lemma_epoch_date();
    } else {
        lemma_year_from_1970(days - 1);
        lemma_next_day(days - 1);
    }
}

} // verus!
