//! Civil (proleptic Gregorian) calendar arithmetic.
//!
//! An instant is a count of seconds from the Unix epoch; a civil date-time is
//! the broken-down form (year, month, day, hour, minute, second) together with
//! the offset from UTC it was shifted by. The conversion here is verified: the
//! civil form always denotes exactly the instant it was built from, and the
//! civil form of an instant is unique.

use vstd::prelude::*;
use vstd::arithmetic::div_mod::{
    lemma_fundamental_div_mod, lemma_fundamental_div_mod_converse,
    lemma_mod_division_less_than_divisor,
};
use crate::{MIN_EPOCH_SECS, MAX_EPOCH_SECS, NANOS_PER_SEC};

verus! {

/// Days from 0000-01-01 to 1970-01-01.
pub const DAYS_BEFORE_EPOCH: u64 = 719528;

pub open spec fn is_leap_year(y: int) -> bool {
    y % 4 == 0 && (y % 100 != 0 || y % 400 == 0)
}

pub open spec fn days_in_month(y: int, m: int) -> int {
    if m == 2 {
        if is_leap_year(y) {
            29
        } else {
            28
        }
    } else if m == 4 || m == 6 || m == 9 || m == 11 {
        30
    } else {
        31
    }
}

/// Days from 0000-01-01 to the first day of year `y`, for `y >= 0`: 365 per
/// year plus one for every leap year before `y` (year 0 itself is leap).
pub open spec fn days_before_year(y: int) -> int {
    365 * y + (y + 3) / 4 - (y + 99) / 100 + (y + 399) / 400
}

/// Days from the first day of year `y` to the first day of month `m`.
pub open spec fn days_before_month(y: int, m: int) -> int
    decreases m,
{
    if m <= 1 {
        0
    } else {
        days_before_month(y, m - 1) + days_in_month(y, m - 1)
    }
}

/// Day index of a civil date, counted from 0000-01-01.
pub open spec fn days_from_civil(y: int, m: int, d: int) -> int {
    days_before_year(y) + days_before_month(y, m) + (d - 1)
}

pub open spec fn valid_date(y: int, m: int, d: int) -> bool {
    0 <= y <= 9999 && 1 <= m <= 12 && 1 <= d <= days_in_month(y, m)
}

/// A broken-down date-time with the UTC offset it displays.
#[derive(Clone, Copy, PartialEq, Eq, Structural, Debug)]
pub struct CivilDateTime {
    pub year: u16,
    pub month: u8,
    pub day: u8,
    pub hour: u8,
    pub minute: u8,
    pub second: u8,
    pub nanos: u32,
    pub offset_seconds: i32,
}

impl CivilDateTime {
    pub open spec fn wf(self) -> bool {
        &&& valid_date(self.year as int, self.month as int, self.day as int)
        &&& self.hour < 24
        &&& self.minute < 60
        &&& self.second < 60
        &&& self.nanos < NANOS_PER_SEC
        &&& -86400 < self.offset_seconds < 86400
    }

    /// The instant this civil form denotes, in seconds since the Unix epoch:
    /// the wall-clock fields read as an offset-local time.
    pub open spec fn abs_seconds(self) -> int {
        (days_from_civil(self.year as int, self.month as int, self.day as int)
            - DAYS_BEFORE_EPOCH) * 86400 + self.hour * 3600 + self.minute * 60 + self.second
            - self.offset_seconds
    }
}

/// `c` is the civil form of the given instant under the given offset.
pub open spec fn is_civil_of(c: CivilDateTime, secs: int, nanos: int, off: int) -> bool {
    &&& c.wf()
    &&& c.abs_seconds() == secs
    &&& c.nanos == nanos
    &&& c.offset_seconds == off
}

/// For `d > 0`: stepping the numerator across the next multiple of `d` raises
/// the quotient exactly at multiples of `d`.
proof fn lemma_div_bump(y: int, d: int)
    requires
        d > 0,
    ensures
        (y + d) / d == (y + d - 1) / d + (if y % d == 0 { 1int } else { 0int }),
{
    let q = y / d;
    let r = y % d;
    lemma_fundamental_div_mod(y, d);
    lemma_mod_division_less_than_divisor(y, d);
    assert(y == q * d + r) by {
        assert(y == d * q + r);
        assert(d * q == q * d) by (nonlinear_arith);
    }
    assert((q + 1) * d == q * d + d) by (nonlinear_arith);
    lemma_fundamental_div_mod_converse(y + d, d, q + 1, r);
    if r == 0 {
        lemma_fundamental_div_mod_converse(y + d - 1, d, q, d - 1);
    } else {
        lemma_fundamental_div_mod_converse(y + d - 1, d, q + 1, r - 1);
    }
}

/// A year holds 365 days, 366 when leap.
pub proof fn lemma_year_length(y: int)
    ensures
        days_before_year(y + 1) - days_before_year(y) == if is_leap_year(y) {
            366int
        } else {
            365int
        },
{
    lemma_div_bump(y, 4);
    lemma_div_bump(y, 100);
    lemma_div_bump(y, 400);
    assert((y + 1) + 3 == y + 4);
    assert((y + 1) + 99 == y + 100);
    assert((y + 1) + 399 == y + 400);
}

/// `days_before_year` grows by at least 365 per year.
pub proof fn lemma_dby_monotone(y1: int, y2: int)
    requires
        y1 <= y2,
    ensures
        days_before_year(y1) + 365 * (y2 - y1) <= days_before_year(y2),
    decreases y2 - y1,
{
    if y1 < y2 {
        lemma_dby_monotone(y1, y2 - 1);
        lemma_year_length(y2 - 1);
    }
}

/// The months of year `y` cover the whole year: `days_before_month(y, 13)`
/// equals the year's length.
pub proof fn lemma_year_days(y: int)
    ensures
        days_before_month(y, 13) == if is_leap_year(y) {
            366int
        } else {
            365int
        },
{
    assert(days_before_month(y, 1) == 0);
    assert(days_before_month(y, 2) == 31);
    assert(days_before_month(y, 3) == 31 + days_in_month(y, 2));
    assert(days_before_month(y, 4) == days_before_month(y, 3) + 31);
    assert(days_before_month(y, 5) == days_before_month(y, 4) + 30);
    assert(days_before_month(y, 6) == days_before_month(y, 5) + 31);
    assert(days_before_month(y, 7) == days_before_month(y, 6) + 30);
    assert(days_before_month(y, 8) == days_before_month(y, 7) + 31);
    assert(days_before_month(y, 9) == days_before_month(y, 8) + 31);
    assert(days_before_month(y, 10) == days_before_month(y, 9) + 30);
    assert(days_before_month(y, 11) == days_before_month(y, 10) + 31);
    assert(days_before_month(y, 12) == days_before_month(y, 11) + 30);
    assert(days_before_month(y, 13) == days_before_month(y, 12) + 31);
}

/// `days_before_month` is monotone in the month.
pub proof fn lemma_dbm_monotone(y: int, m1: int, m2: int)
    requires
        1 <= m1 <= m2,
    ensures
        days_before_month(y, m1) <= days_before_month(y, m2),
    decreases m2 - m1,
{
    if m1 < m2 {
        lemma_dbm_monotone(y, m1, m2 - 1);
        assert(days_in_month(y, m2 - 1) >= 28);
    }
}

/// A valid date of year `y` falls among the days of year `y`.
pub proof fn lemma_date_day_bounds(y: int, m: int, d: int)
    requires
        valid_date(y, m, d),
    ensures
        days_before_year(y) <= days_from_civil(y, m, d) < days_before_year(y + 1),
{
    lemma_dbm_monotone(y, 1, m);
    assert(days_before_month(y, m + 1) == days_before_month(y, m) + days_in_month(y, m));
    lemma_dbm_monotone(y, m + 1, 13);
    lemma_year_days(y);
    lemma_year_length(y);
}

/// One instant has exactly one civil form per offset.
pub proof fn lemma_civil_unique(c1: CivilDateTime, c2: CivilDateTime)
    requires
        c1.wf(),
        c2.wf(),
        c1.nanos == c2.nanos,
        c1.offset_seconds == c2.offset_seconds,
        c1.abs_seconds() == c2.abs_seconds(),
    ensures
        c1 == c2,
{
    let f1 = days_from_civil(c1.year as int, c1.month as int, c1.day as int);
    let f2 = days_from_civil(c2.year as int, c2.month as int, c2.day as int);
    let t1 = c1.hour * 3600 + c1.minute * 60 + c1.second;
    let t2 = c2.hour * 3600 + c2.minute * 60 + c2.second;
    let x = (f1 - DAYS_BEFORE_EPOCH) * 86400 + t1;
    lemma_fundamental_div_mod_converse(x, 86400, f1 - DAYS_BEFORE_EPOCH, t1);
    assert(x == (f2 - DAYS_BEFORE_EPOCH) * 86400 + t2);
    lemma_fundamental_div_mod_converse(x, 86400, f2 - DAYS_BEFORE_EPOCH, t2);
    assert(f1 == f2 && t1 == t2);
    lemma_fundamental_div_mod_converse(t1, 3600, c1.hour as int, c1.minute * 60 + c1.second);
    lemma_fundamental_div_mod_converse(t2, 3600, c2.hour as int, c2.minute * 60 + c2.second);
    assert(c1.hour == c2.hour);
    let u = c1.minute * 60 + c1.second;
    lemma_fundamental_div_mod_converse(u, 60, c1.minute as int, c1.second as int);
    lemma_fundamental_div_mod_converse(u, 60, c2.minute as int, c2.second as int);
    assert(c1.minute == c2.minute && c1.second == c2.second);
    lemma_date_day_bounds(c1.year as int, c1.month as int, c1.day as int);
    lemma_date_day_bounds(c2.year as int, c2.month as int, c2.day as int);
    if c1.year < c2.year {
        lemma_dby_monotone(c1.year as int + 1, c2.year as int);
        assert(false);
    }
    if c2.year < c1.year {
        lemma_dby_monotone(c2.year as int + 1, c1.year as int);
        assert(false);
    }
    let y = c1.year as int;
    let doy1 = days_before_month(y, c1.month as int) + (c1.day - 1);
    let doy2 = days_before_month(y, c2.month as int) + (c2.day - 1);
    assert(doy1 == doy2);
    assert(days_before_month(y, c1.month as int + 1) == days_before_month(y, c1.month as int)
        + days_in_month(y, c1.month as int));
    assert(days_before_month(y, c2.month as int + 1) == days_before_month(y, c2.month as int)
        + days_in_month(y, c2.month as int));
    if c1.month < c2.month {
        lemma_dbm_monotone(y, c1.month as int + 1, c2.month as int);
        assert(false);
    }
    if c2.month < c1.month {
        lemma_dbm_monotone(y, c2.month as int + 1, c1.month as int);
        assert(false);
    }
}

pub fn is_leap_year_exec(y: u64) -> (r: bool)
    ensures
        r == is_leap_year(y as int),
{
    y % 4 == 0 && (y % 100 != 0 || y % 400 == 0)
}

fn days_in_month_exec(y: u64, m: u64) -> (r: u64)
    requires
        1 <= m <= 12,
    ensures
        r == days_in_month(y as int, m as int),
{
    if m == 2 {
        if is_leap_year_exec(y) {
            29
        } else {
            28
        }
    } else if m == 4 || m == 6 || m == 9 || m == 11 {
        30
    } else {
        31
    }
}

fn days_before_year_exec(y: u64) -> (r: u64)
    requires
        y <= 10000,
    ensures
        r == days_before_year(y as int),
{
    proof {
        if y > 0 {
            vstd::arithmetic::div_mod::lemma_div_is_ordered(
                y as int + 99,
                10099,
                100,
            );
        }
    }
    365 * y + (y + 3) / 4 + (y + 399) / 400 - (y + 99) / 100
}

fn days_before_month_exec(y: u64, m: u64) -> (r: u64)
    requires
        1 <= m <= 13,
    ensures
        r == days_before_month(y as int, m as int),
        r <= 366,
{
    let mut k: u64 = 1;
    let mut acc: u64 = 0;
    proof {
        lemma_year_days(y as int);
        lemma_dbm_monotone(y as int, 1, m as int);
        lemma_dbm_monotone(y as int, m as int, 13);
    }
    while k < m
        invariant
            1 <= k <= m <= 13,
            acc == days_before_month(y as int, k as int),
            days_before_month(y as int, m as int) <= 366,
            days_before_month(y as int, k as int) <= days_before_month(y as int, m as int),
        decreases m - k,
    {
        proof {
            assert(days_before_month(y as int, k as int + 1) == days_before_month(
                y as int,
                k as int,
            ) + days_in_month(y as int, k as int));
            lemma_dbm_monotone(y as int, k as int + 1, m as int);
        }
        acc = acc + days_in_month_exec(y, k);
        k = k + 1;
    }
    acc
}

/// Converts an instant, shifted by the given UTC offset, to its civil form.
///
/// The result is well formed and denotes exactly the instant it was built
/// from; by `lemma_civil_unique` it is the only such value.
pub fn civil_from_instant(secs: i64, nanos: u32, offset_seconds: i32) -> (c: CivilDateTime)
    requires
        MIN_EPOCH_SECS <= secs + offset_seconds <= MAX_EPOCH_SECS,
        nanos < NANOS_PER_SEC,
        -86400 < offset_seconds < 86400,
    ensures
        is_civil_of(c, secs as int, nanos as int, offset_seconds as int),
{
    let shifted: i64 = secs + offset_seconds as i64;
    let total: u64 = (shifted + 62167219200) as u64;
    let days: u64 = total / 86400;
    let sod: u64 = total % 86400;
    proof {
        lemma_fundamental_div_mod(total as int, 86400);
        lemma_mod_division_less_than_divisor(total as int, 86400);
        vstd::arithmetic::div_mod::lemma_div_is_ordered(total as int, 315569519999, 86400);
        assert(days_before_year(0) == 0);
        assert(days_before_year(10000) == 3652425);
    }
    let mut y: u64 = 0;
    while days_before_year_exec(y + 1) <= days
        invariant
            y <= 9999,
            days_before_year(y as int) <= days as int,
            days <= 3652424,
        decreases 9999 - y,
    {
        proof {
            if y == 9999 {
                assert(days_before_year(10000) == 3652425);
                assert(false);
            }
        }
        y = y + 1;
    }
    let dby: u64 = days_before_year_exec(y);
    let doy: u64 = days - dby;
    proof {
        lemma_year_days(y as int);
        lemma_year_length(y as int);
        assert((doy as int) < days_before_month(y as int, 13));
    }
    let mut m: u64 = 1;
    let mut dbm: u64 = 0;
    while m < 12 && dbm + days_in_month_exec(y, m) <= doy
        invariant
            1 <= m <= 12,
            dbm == days_before_month(y as int, m as int),
            dbm <= doy,
            (doy as int) < days_before_month(y as int, 13),
            doy <= 365,
        decreases 12 - m,
    {
        proof {
            assert(days_before_month(y as int, m as int + 1) == days_before_month(
                y as int,
                m as int,
            ) + days_in_month(y as int, m as int));
        }
        dbm = dbm + days_in_month_exec(y, m);
        m = m + 1;
    }
    proof {
        assert(days_before_month(y as int, m as int + 1) == days_before_month(y as int, m as int)
            + days_in_month(y as int, m as int));
        if m == 12 {
            assert((doy as int) < days_before_month(y as int, 13));
        }
        assert((doy as int - dbm as int) < days_in_month(y as int, m as int));
    }
    let d: u64 = doy - dbm + 1;
    let hour: u64 = sod / 3600;
    let rem: u64 = sod % 3600;
    let minute: u64 = rem / 60;
    let second: u64 = rem % 60;
    proof {
        lemma_fundamental_div_mod(sod as int, 3600);
        lemma_mod_division_less_than_divisor(sod as int, 3600);
        vstd::arithmetic::div_mod::lemma_div_is_ordered(sod as int, 86399, 3600);
        lemma_fundamental_div_mod(rem as int, 60);
        lemma_mod_division_less_than_divisor(rem as int, 60);
        vstd::arithmetic::div_mod::lemma_div_is_ordered(rem as int, 3599, 60);
    }
    let c = CivilDateTime {
        year: y as u16,
        month: m as u8,
        day: d as u8,
        hour: hour as u8,
        minute: minute as u8,
        second: second as u8,
        nanos,
        offset_seconds,
    };
    proof {
        assert(days_from_civil(c.year as int, c.month as int, c.day as int) == days as int);
        assert(c.abs_seconds() == secs as int);
    }
    c
}

} // verus!
