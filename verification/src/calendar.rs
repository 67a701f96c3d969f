//! The Gregorian calendar that `civil_from_days` counts in: the first day
//! is 1970-01-01, every result is a valid date, and one day more is the
//! next date of the calendar.
use vstd::prelude::*;

use crate::log_file::civil_from_days;

verus! {

/// A leap year of the proleptic Gregorian calendar.
pub open spec fn is_leap_year(y: int) -> bool {
    y % 4 == 0 && (y % 100 != 0 || y % 400 == 0)
}

/// The number of days of month `m` (1 to 12) in year `y`.
pub open spec fn days_in_month(y: int, m: int) -> int {
    if m == 2 {
        if is_leap_year(y) {
            29
        } else {
            28
        }
    } else if m == 4 || m == 6 || m == 9 || m == 11 {
        30
    } else {
        31
    }
}

/// A (year, month, day) that the calendar has.
pub open spec fn valid_date(d: (int, int, int)) -> bool {
    1 <= d.1 <= 12 && 1 <= d.2 <= days_in_month(d.0, d.1)
}

/// The day after `d`.
pub open spec fn next_date(d: (int, int, int)) -> (int, int, int) {
    if d.2 < days_in_month(d.0, d.1) {
        (d.0, d.1, d.2 + 1)
    } else if d.1 < 12 {
        (d.0, d.1 + 1, 1)
    } else {
        (d.0 + 1, 1, 1)
    }
}

// ---------------------------------------------------------------------------
// The parts of the computation: a 400-year era, the March-based year within
// it, and the day within that year.
// ---------------------------------------------------------------------------

/// The year of the era (0 to 399, each starting on March 1) that day `doe`
/// of the era falls in.
spec fn yoe_of(doe: int) -> int {
    (doe - doe / 1460 + doe / 36524 - doe / 146096) / 365
}

/// The first day of year `y` of the era.
spec fn year_start(y: int) -> int {
    365 * y + y / 4 - y / 100
}

/// The last day of year `y` of the era.
spec fn year_end(y: int) -> int {
    if y == 399 {
        146096
    } else {
        year_start(y + 1) - 1
    }
}

/// The length of the year that starts in March of year `y` of the era.
spec fn march_len(y: int) -> int {
    if is_leap_year(y + 1) {
        366
    } else {
        365
    }
}

/// The month and day of day `doy` of a year that starts on March 1.
spec fn md_of(doy: int) -> (int, int) {
    let mp = (5 * doy + 2) / 153;
    let d = doy - (153 * mp + 2) / 5 + 1;
    let m = if mp < 10 {
        mp + 3
    } else {
        mp - 9
    };
    (m, d)
}

/// The length of a month other than February.
spec fn month_len(m: int) -> int {
    if m == 4 || m == 6 || m == 9 || m == 11 {
        30
    } else {
        31
    }
}

/// Year `y` of the era spans the days whose year is `y`, and is as long as
/// its February makes it.
spec fn year_fact(y: int) -> bool {
    &&& yoe_of(year_start(y)) == y
    &&& yoe_of(year_end(y)) == y
    &&& year_end(y) - year_start(y) + 1 == march_len(y)
}

/// Day `doy` of a year has a month and a day of that month; February comes
/// last, and January and February belong to the next civil year.
spec fn day_fact(doy: int) -> bool {
    let (m, d) = md_of(doy);
    &&& 1 <= m <= 12
    &&& 1 <= d
    &&& m != 2 ==> d <= month_len(m)
    &&& (m == 2 <==> doy >= 337)
    &&& m == 2 ==> d == doy - 336
    &&& (m <= 2 <==> doy >= 306)
}

/// The day after day `doy` is the next day of its month, or the first of
/// the next month.
spec fn step_fact(doy: int) -> bool {
    let (m, d) = md_of(doy);
    let (m2, d2) = md_of(doy + 1);
    if m == 2 {
        m2 == 2 && d2 == d + 1
    } else if d < month_len(m) {
        m2 == m && d2 == d + 1
    } else if m < 12 {
        m2 == m + 1 && d2 == 1
    } else {
        m2 == 1 && d2 == 1
    }
}

/// Every year of `lo..hi` has its facts.
spec fn years_ok(lo: int, hi: int) -> bool
    decreases hi - lo,
{
    lo >= hi || (year_fact(lo) && years_ok(lo + 1, hi))
}

proof fn lemma_years_ok_split(lo: int, mid: int, hi: int)
    requires
        lo <= mid <= hi,
        years_ok(lo, mid),
        years_ok(mid, hi),
    ensures
        years_ok(lo, hi),
    decreases mid - lo,
{
    if lo < mid {
        lemma_years_ok_split(lo + 1, mid, hi);
    }
}

proof fn lemma_years_ok_each(lo: int, hi: int)
    requires
        years_ok(lo, hi),
    ensures
        forall|y: int| lo <= y < hi ==> #[trigger] year_fact(y),
    decreases hi - lo,
{
    if lo < hi {
        lemma_years_ok_each(lo + 1, hi);
    }
}

#[verifier::spinoff_prover]
#[verifier::rlimit(60)]
proof fn lemma_years_0_50()
    ensures
        years_ok(0, 50),
{
    reveal_with_fuel(years_ok, 51);
}

#[verifier::spinoff_prover]
#[verifier::rlimit(60)]
proof fn lemma_years_50_100()
    ensures
        years_ok(50, 100),
{
    reveal_with_fuel(years_ok, 51);
}

#[verifier::spinoff_prover]
#[verifier::rlimit(60)]
proof fn lemma_years_100_150()
    ensures
        years_ok(100, 150),
{
    reveal_with_fuel(years_ok, 51);
}

#[verifier::spinoff_prover]
#[verifier::rlimit(60)]
proof fn lemma_years_150_200()
    ensures
        years_ok(150, 200),
{
    reveal_with_fuel(years_ok, 51);
}

#[verifier::spinoff_prover]
#[verifier::rlimit(60)]
proof fn lemma_years_200_250()
    ensures
        years_ok(200, 250),
{
    reveal_with_fuel(years_ok, 51);
}

#[verifier::spinoff_prover]
#[verifier::rlimit(60)]
proof fn lemma_years_250_300()
    ensures
        years_ok(250, 300),
{
    reveal_with_fuel(years_ok, 51);
}

#[verifier::spinoff_prover]
#[verifier::rlimit(60)]
proof fn lemma_years_300_350()
    ensures
        years_ok(300, 350),
{
    reveal_with_fuel(years_ok, 51);
}

#[verifier::spinoff_prover]
#[verifier::rlimit(60)]
proof fn lemma_years_350_400()
    ensures
        years_ok(350, 400),
{
    reveal_with_fuel(years_ok, 51);
}

/// The facts of each year of an era, checked one year after another.
proof fn lemma_year_table()
    ensures
        forall|y: int| 0 <= y < 400 ==> #[trigger] year_fact(y),
{
    lemma_years_0_50();
    lemma_years_50_100();
    lemma_years_100_150();
    lemma_years_150_200();
    lemma_years_200_250();
    lemma_years_250_300();
    lemma_years_300_350();
    lemma_years_350_400();
    lemma_years_ok_split(0, 50, 100);
    lemma_years_ok_split(0, 100, 150);
    lemma_years_ok_split(0, 150, 200);
    lemma_years_ok_split(0, 200, 250);
    lemma_years_ok_split(0, 250, 300);
    lemma_years_ok_split(0, 300, 350);
    lemma_years_ok_split(0, 350, 400);
    lemma_years_ok_each(0, 400);
}

/// The facts of a day of the year: its month and day, and the step to
/// the next day.
spec fn doy_fact(doy: int) -> bool {
    day_fact(doy) && (doy < 365 ==> step_fact(doy))
}

/// Every day of `lo..hi` has its facts.
spec fn days_ok(lo: int, hi: int) -> bool
    decreases hi - lo,
{
    lo >= hi || (doy_fact(lo) && days_ok(lo + 1, hi))
}

proof fn lemma_days_ok_split(lo: int, mid: int, hi: int)
    requires
        lo <= mid <= hi,
        days_ok(lo, mid),
        days_ok(mid, hi),
    ensures
        days_ok(lo, hi),
    decreases mid - lo,
{
    if lo < mid {
        lemma_days_ok_split(lo + 1, mid, hi);
    }
}

proof fn lemma_days_ok_each(lo: int, hi: int)
    requires
        days_ok(lo, hi),
    ensures
        forall|doy: int| lo <= doy < hi ==> #[trigger] doy_fact(doy),
    decreases hi - lo,
{
    if lo < hi {
        lemma_days_ok_each(lo + 1, hi);
    }
}

#[verifier::spinoff_prover]
#[verifier::rlimit(60)]
proof fn lemma_days_0_46()
    ensures
        days_ok(0, 46),
{
    reveal_with_fuel(days_ok, 47);
}

#[verifier::spinoff_prover]
#[verifier::rlimit(60)]
proof fn lemma_days_46_92()
    ensures
        days_ok(46, 92),
{
    reveal_with_fuel(days_ok, 47);
}

#[verifier::spinoff_prover]
#[verifier::rlimit(60)]
proof fn lemma_days_92_138()
    ensures
        days_ok(92, 138),
{
    reveal_with_fuel(days_ok, 47);
}

#[verifier::spinoff_prover]
#[verifier::rlimit(60)]
proof fn lemma_days_138_184()
    ensures
        days_ok(138, 184),
{
    reveal_with_fuel(days_ok, 47);
}

#[verifier::spinoff_prover]
#[verifier::rlimit(60)]
proof fn lemma_days_184_230()
    ensures
        days_ok(184, 230),
{
    reveal_with_fuel(days_ok, 47);
}

#[verifier::spinoff_prover]
#[verifier::rlimit(60)]
proof fn lemma_days_230_276()
    ensures
        days_ok(230, 276),
{
    reveal_with_fuel(days_ok, 47);
}

#[verifier::spinoff_prover]
#[verifier::rlimit(60)]
proof fn lemma_days_276_322()
    ensures
        days_ok(276, 322),
{
    reveal_with_fuel(days_ok, 47);
}

#[verifier::spinoff_prover]
#[verifier::rlimit(60)]
proof fn lemma_days_322_366()
    ensures
        days_ok(322, 366),
{
    reveal_with_fuel(days_ok, 45);
}

/// The facts of each day of a year, checked one day after another.
proof fn lemma_day_table()
    ensures
        forall|doy: int| 0 <= doy < 366 ==> #[trigger] doy_fact(doy),
{
    lemma_days_0_46();
    lemma_days_46_92();
    lemma_days_92_138();
    lemma_days_138_184();
    lemma_days_184_230();
    lemma_days_230_276();
    lemma_days_276_322();
    lemma_days_322_366();
    lemma_days_ok_split(0, 46, 92);
    lemma_days_ok_split(0, 92, 138);
    lemma_days_ok_split(0, 138, 184);
    lemma_days_ok_split(0, 184, 230);
    lemma_days_ok_split(0, 230, 276);
    lemma_days_ok_split(0, 276, 322);
    lemma_days_ok_split(0, 322, 366);
    lemma_days_ok_each(0, 366);
}

proof fn lemma_div_bounds(x: int, d: int)
    requires
        d > 0,
    ensures
        d * (x / d) <= x < d * (x / d) + d,
{
    assert(d * (x / d) <= x < d * (x / d) + d) by (nonlinear_arith)
        requires
            d > 0,
    ;
}

/// The day of the era with the leap days taken out.
spec fn f_of(doe: int) -> int {
    doe - doe / 1460 + doe / 36524 - doe / 146096
}

proof fn lemma_yoe_mono(a: int, b: int)
    requires
        0 <= a <= b <= 146096,
    ensures
        yoe_of(a) <= yoe_of(b),
{
    lemma_div_bounds(a, 1460);
    lemma_div_bounds(b, 1460);
    lemma_div_bounds(a, 36524);
    lemma_div_bounds(b, 36524);
    lemma_div_bounds(a, 146096);
    lemma_div_bounds(b, 146096);
    assert(f_of(a) <= f_of(b));
    lemma_div_bounds(f_of(a), 365);
    lemma_div_bounds(f_of(b), 365);
}

/// The year of the era that a day of the era falls in.
proof fn lemma_locate(doe: int)
    requires
        0 <= doe <= 146096,
    ensures
        0 <= yoe_of(doe) < 400,
        year_start(yoe_of(doe)) <= doe <= year_end(yoe_of(doe)),
{
    lemma_year_table();
    let y = yoe_of(doe);
    assert(year_fact(0));
    assert(year_fact(399));
    lemma_yoe_mono(0, doe);
    lemma_yoe_mono(doe, 146096);
    lemma_div_bounds(y, 4);
    lemma_div_bounds(y, 100);
    if doe < year_start(y) {
        assert(year_fact(y - 1));
        lemma_div_bounds(y - 1, 4);
        lemma_div_bounds(y - 1, 100);
        lemma_yoe_mono(doe, year_end(y - 1));
    }
    if doe > year_end(y) {
        assert(year_fact(y + 1));
        lemma_div_bounds(y + 1, 4);
        lemma_div_bounds(y + 1, 100);
        lemma_yoe_mono(year_start(y + 1), doe);
    }
}

/// The date of day `doy` of year `y` of era `era`.
spec fn date_of(era: int, y: int, doy: int) -> (int, int, int) {
    let (m, d) = md_of(doy);
    (y + era * 400 + if m <= 2 {
        1int
    } else {
        0
    }, m, d)
}

/// The date of day `z` counted from 0000-03-01.
spec fn date_of_z(z: int) -> (int, int, int) {
    let era = z / 146097;
    let doe = z - era * 146097;
    let y = yoe_of(doe);
    date_of(era, y, doe - year_start(y))
}

proof fn lemma_civil_is_date_of_z(days: int)
    ensures
        civil_from_days(days) == date_of_z(days + 719468),
{
}

proof fn lemma_leap_shift(n: int, k: int)
    ensures
        is_leap_year(n + 400 * k) == is_leap_year(n),
{
    vstd::arithmetic::div_mod::lemma_mod_multiples_vanish(100 * k, n, 4);
    vstd::arithmetic::div_mod::lemma_mod_multiples_vanish(4 * k, n, 100);
    vstd::arithmetic::div_mod::lemma_mod_multiples_vanish(k, n, 400);
    assert(4 * (100 * k) + n == n + 400 * k);
    assert(100 * (4 * k) + n == n + 400 * k);
    assert(400 * k + n == n + 400 * k);
}

/// Where in its era and year a day falls.
proof fn lemma_parts(z: int)
    ensures
        0 <= z - (z / 146097) * 146097 < 146097,
        0 <= yoe_of(z - (z / 146097) * 146097) < 400,
        0 <= (z - (z / 146097) * 146097) - year_start(yoe_of(z - (z / 146097) * 146097))
            < march_len(yoe_of(z - (z / 146097) * 146097)),
{
    lemma_div_bounds(z, 146097);
    let doe = z - (z / 146097) * 146097;
    lemma_locate(doe);
    lemma_year_table();
    assert(year_fact(yoe_of(doe)));
}

/// Every day counted from 1970-01-01 is a valid date.
pub proof fn lemma_civil_valid(days: int)
    ensures
        valid_date(civil_from_days(days)),
{
    let z = days + 719468;
    lemma_civil_is_date_of_z(days);
    lemma_parts(z);
    let era = z / 146097;
    let doe = z - era * 146097;
    let y = yoe_of(doe);
    let doy = doe - year_start(y);
    lemma_day_table();
    assert(doy_fact(doy));
    let (m, d) = md_of(doy);
    lemma_leap_shift(y + 1, era);
    assert(y + era * 400 + 1 == (y + 1) + 400 * era);
}

proof fn lemma_quotient(x: int, d: int, q: int)
    requires
        d > 0,
        d * q <= x < d * q + d,
    ensures
        x / d == q,
{
    assert(x / d == q) by (nonlinear_arith)
        requires
            d > 0,
            d * q <= x < d * q + d,
    ;
}

/// The day after any day counted from 1970-01-01 is the next date of the
/// calendar.
#[verifier::spinoff_prover]
#[verifier::rlimit(40)]
pub proof fn lemma_civil_next(days: int)
    ensures
        civil_from_days(days + 1) == next_date(civil_from_days(days)),
{
    let z = days + 719468;
    lemma_civil_is_date_of_z(days);
    lemma_civil_is_date_of_z(days + 1);
    lemma_parts(z);
    lemma_year_table();
    lemma_day_table();
    lemma_div_bounds(z, 146097);
    let era = z / 146097;
    let doe = z - era * 146097;
    let y = yoe_of(doe);
    let doy = doe - year_start(y);
    assert(year_fact(y));
    assert(doy_fact(doy));
    lemma_leap_shift(y + 1, era);
    assert(y + era * 400 + 1 == (y + 1) + 400 * era);
    let (m, d) = md_of(doy);
    if doy < march_len(y) - 1 {
        lemma_quotient(z + 1, 146097, era);
        lemma_yoe_mono(doe, doe + 1);
        lemma_yoe_mono(doe + 1, year_end(y));
        assert(yoe_of(doe + 1) == y);
        assert((doe + 1) - year_start(y) == doy + 1);
    } else {
        assert(md_of(0) == (3int, 1int));
        if y < 399 {
            assert(year_fact(y + 1));
            lemma_div_bounds(y + 1, 4);
            lemma_div_bounds(y + 1, 100);
            lemma_quotient(z + 1, 146097, era);
            assert(doe + 1 == year_start(y + 1));
            assert(yoe_of(doe + 1) == y + 1);
        } else {
            assert(doe == 146096);
            lemma_quotient(z + 1, 146097, era + 1);
            assert(yoe_of(0) == 0);
            assert(year_start(0) == 0);
        }
    }
}

/// Day zero is 1970-01-01.
pub proof fn lemma_civil_epoch()
    ensures
        civil_from_days(0) == (1970int, 1int, 1int),
{
    lemma_civil_is_date_of_z(0);
    lemma_quotient(719468, 146097, 4);
    assert(719468 - 4 * 146097 == 135080);
    assert(yoe_of(135080) == 369);
    assert(year_start(369) == 134774);
    assert(md_of(306) == (1int, 1int));
}

} // verus!
