//! HTTP dates.
use crate::text::{decimal, padded, push_padded};
use vstd::arithmetic::div_mod::lemma_fundamental_div_mod_converse;
use vstd::prelude::*;

verus! {

broadcast use vstd::seq::group_seq_axioms;

/// Whether a Gregorian year has a leap day.
pub open spec fn leap(y: int) -> bool {
    y % 4 == 0 && (y % 100 != 0 || y % 400 == 0)
}

/// Days in a month (1 to 12) of a Gregorian year.
pub open spec fn month_len(y: int, m: int) -> int {
    if m == 2 {
        if leap(y) {
            29
        } else {
            28
        }
    } else if m == 4 || m == 6 || m == 9 || m == 11 {
        30
    } else {
        31
    }
}

/// Days from the start of a year to the start of its month `m`.
pub open spec fn days_before_month(y: int, m: int) -> int
    decreases m,
{
    if m <= 1 {
        0
    } else {
        days_before_month(y, m - 1) + month_len(y, m - 1)
    }
}

/// Days from the start of year 1 to the start of year `y`: 365 each, and one
/// for every leap year between.
pub open spec fn days_before_year(y: int) -> int {
    365 * (y - 1) + (y - 1) / 4 - (y - 1) / 100 + (y - 1) / 400
}

/// Days from 1970-01-01 to a date.
pub open spec fn day_number(y: int, m: int, d: int) -> int {
    days_before_year(y) + days_before_month(y, m) + d - 1 - days_before_year(1970)
}

/// Whether year, month and day form a Gregorian date.
pub open spec fn is_date(y: int, m: int, d: int) -> bool {
    1 <= m <= 12 && 1 <= d <= month_len(y, m)
}

/// The Gregorian date of a day counted from 1970-01-01.
pub open spec fn civil(days: int) -> (int, int, int) {
    choose|t: (int, int, int)| is_date(t.0, t.1, t.2) && #[trigger] day_number(t.0, t.1, t.2) == days
}

/// Short names of the weekdays, Sunday first.
pub open spec fn weekday_name(w: int) -> Seq<char> {
    if w == 0 {
        "Sun"@
    } else if w == 1 {
        "Mon"@
    } else if w == 2 {
        "Tue"@
    } else if w == 3 {
        "Wed"@
    } else if w == 4 {
        "Thu"@
    } else if w == 5 {
        "Fri"@
    } else {
        "Sat"@
    }
}

/// Short names of the months, counted from one.
pub open spec fn month_name(m: int) -> Seq<char> {
    if m == 1 {
        "Jan"@
    } else if m == 2 {
        "Feb"@
    } else if m == 3 {
        "Mar"@
    } else if m == 4 {
        "Apr"@
    } else if m == 5 {
        "May"@
    } else if m == 6 {
        "Jun"@
    } else if m == 7 {
        "Jul"@
    } else if m == 8 {
        "Aug"@
    } else if m == 9 {
        "Sep"@
    } else if m == 10 {
        "Oct"@
    } else if m == 11 {
        "Nov"@
    } else {
        "Dec"@
    }
}

/// A date and time of day in the fixed form of HTTP, e.g.
/// `Sun, 06 Nov 1994 08:49:37 GMT`.
pub open spec fn fixdate(w: int, date: (int, int, int), tod: int) -> Seq<char> {
    weekday_name(w) + ", "@ + padded(decimal(date.2 as nat), 2) + " "@ + month_name(date.1) + " "@
        + padded(decimal(date.0 as nat), 4) + " "@ + padded(decimal((tod / 3600) as nat), 2) + ":"@
        + padded(decimal((tod % 3600 / 60) as nat), 2) + ":"@ + padded(
        decimal((tod % 60) as nat),
        2,
    ) + " GMT"@
}

/// The HTTP date of a Unix timestamp. The first of January 1970 was a Thursday.
pub open spec fn date_of(secs: int) -> Seq<char> {
    fixdate((secs / 86400 + 4) % 7, civil(secs / 86400), secs % 86400)
}

// ---------------------------------------------------------------------------
// One day, one date
// ---------------------------------------------------------------------------

proof fn lemma_months(y: int)
    ensures
        days_before_month(y, 1) == 0,
        days_before_month(y, 2) == 31,
        days_before_month(y, 3) == 31 + month_len(y, 2),
        days_before_month(y, 4) == 62 + month_len(y, 2),
        days_before_month(y, 5) == 92 + month_len(y, 2),
        days_before_month(y, 6) == 123 + month_len(y, 2),
        days_before_month(y, 7) == 153 + month_len(y, 2),
        days_before_month(y, 8) == 184 + month_len(y, 2),
        days_before_month(y, 9) == 215 + month_len(y, 2),
        days_before_month(y, 10) == 245 + month_len(y, 2),
        days_before_month(y, 11) == 276 + month_len(y, 2),
        days_before_month(y, 12) == 306 + month_len(y, 2),
{
    reveal_with_fuel(days_before_month, 13);
}

proof fn lemma_year_len(y: int)
    ensures
        days_before_year(y + 1) - days_before_year(y) == if leap(y) {
            366int
        } else {
            365
        },
{
}

proof fn lemma_years_grow(a: int, b: int)
    requires
        a <= b,
    ensures
        days_before_year(a) + 365 * (b - a) <= days_before_year(b),
    decreases b - a,
{
    if a < b {
        lemma_year_len(b - 1);
        lemma_years_grow(a, b - 1);
    }
}

/// Different dates are different days.
pub proof fn law_date_is_unique(a: (int, int, int), b: (int, int, int))
    requires
        is_date(a.0, a.1, a.2),
        is_date(b.0, b.1, b.2),
        day_number(a.0, a.1, a.2) == day_number(b.0, b.1, b.2),
    ensures
        a == b,
{
    lemma_months(a.0);
    lemma_months(b.0);
    lemma_year_len(a.0);
    lemma_year_len(b.0);
    if a.0 < b.0 {
        lemma_years_grow(a.0 + 1, b.0);
    } else if b.0 < a.0 {
        lemma_years_grow(b.0 + 1, a.0);
    }
}

proof fn lemma_year_of_era(doe: int, yoe: int)
    requires
        0 <= doe <= 146096,
        yoe == (doe - doe / 1460 + doe / 36524 - doe / 146096) / 365,
    ensures
        0 <= yoe <= 399,
        0 <= doe - (365 * yoe + yoe / 4 - yoe / 100) <= 365,
        doe - (365 * yoe + yoe / 4 - yoe / 100) == 365 ==> (yoe + 1) % 4 == 0 && ((yoe + 1) % 100
            != 0 || yoe + 1 == 400),
{
}

proof fn lemma_shifted_div(a: int, era: int)
    ensures
        (a + 400 * era) / 4 == a / 4 + 100 * era,
        (a + 400 * era) / 100 == a / 100 + 4 * era,
        (a + 400 * era) / 400 == a / 400 + era,
        (a + 400 * era) % 4 == a % 4,
        (a + 400 * era) % 100 == a % 100,
        (a + 400 * era) % 400 == a % 400,
{
    lemma_fundamental_div_mod_converse(a + 400 * era, 4, a / 4 + 100 * era, a % 4);
    lemma_fundamental_div_mod_converse(a + 400 * era, 100, a / 100 + 4 * era, a % 100);
    lemma_fundamental_div_mod_converse(a + 400 * era, 400, a / 400 + era, a % 400);
}

proof fn lemma_leap_days(yoe: int)
    requires
        0 <= yoe <= 399,
    ensures
        (yoe - 1) / 4 - (yoe - 1) / 100 + (yoe - 1) / 400 + (if leap(yoe) {
            1int
        } else {
            0
        }) == yoe / 4 - yoe / 100,
{
}

proof fn lemma_first_of_march(era: int, yoe: int)
    requires
        0 <= yoe <= 399,
    ensures
        day_number(yoe + era * 400, 3, 1) == 146097 * era + 365 * yoe + yoe / 4 - yoe / 100 - 719468,
        leap(yoe + era * 400 + 1) == leap(yoe + 1),
{
    let y = yoe + era * 400;
    lemma_months(y);
    lemma_shifted_div(yoe - 1, era);
    lemma_shifted_div(yoe, era);
    lemma_shifted_div(yoe + 1, era);
    lemma_leap_days(yoe);
    assert(leap(y) == leap(yoe));
    assert(y - 1 == (yoe - 1) + 400 * era);
    assert(days_before_year(1970) == 719162);
}

proof fn lemma_month_of_year(doy: int, mp: int)
    requires
        0 <= doy <= 365,
        mp == (5 * doy + 2) / 153,
    ensures
        0 <= mp <= 11,
        ({
            let d = doy - (153 * mp + 2) / 5 + 1;
            &&& 1 <= d <= 31
            &&& mp == 0 ==> doy == d - 1
            &&& mp == 1 ==> doy == d + 30 && d <= 30
            &&& mp == 2 ==> doy == d + 60
            &&& mp == 3 ==> doy == d + 91 && d <= 30
            &&& mp == 4 ==> doy == d + 121
            &&& mp == 5 ==> doy == d + 152
            &&& mp == 6 ==> doy == d + 183 && d <= 30
            &&& mp == 7 ==> doy == d + 213
            &&& mp == 8 ==> doy == d + 244 && d <= 30
            &&& mp == 9 ==> doy == d + 274
            &&& mp == 10 ==> doy == d + 305
            &&& mp == 11 ==> doy == d + 336 && d <= 29
        }),
{
}

proof fn lemma_assemble(y0: int, doy: int, mp: int)
    requires
        0 <= doy <= 365,
        doy == 365 ==> leap(y0 + 1),
        mp == (5 * doy + 2) / 153,
    ensures
        ({
            let d = doy - (153 * mp + 2) / 5 + 1;
            let m = if mp < 10 {
                mp + 3
            } else {
                mp - 9
            };
            let y = if m <= 2 {
                y0 + 1
            } else {
                y0
            };
            &&& is_date(y, m, d)
            &&& day_number(y, m, d) == day_number(y0, 3, 1) + doy
        }),
{
    lemma_month_of_year(doy, mp);
    lemma_months(y0);
    lemma_months(y0 + 1);
    lemma_year_len(y0);
}

/// The date of day `days`, computed by Hinnant's method.
fn date_parts(days: u64) -> (r: (u64, u64, u64))
    requires
        days <= u64::MAX / 86400,
    ensures
        is_date(r.0 as int, r.1 as int, r.2 as int),
        day_number(r.0 as int, r.1 as int, r.2 as int) == days,
        civil(days as int) == (r.0 as int, r.1 as int, r.2 as int),
{
    let z: u64 = days + 719468;
    let era: u64 = z / 146097;
    let doe: u64 = z % 146097;
    let yoe: u64 = (doe - doe / 1460 + doe / 36524 - doe / 146096) / 365;
    proof {
        lemma_year_of_era(doe as int, yoe as int);
        lemma_first_of_march(era as int, yoe as int);
    }
    proof {
        assert(era <= z);
        assert(yoe as int + era as int * 400 == yoe + era * 400);
    }
    let doy: u64 = doe - (365 * yoe + yoe / 4 - yoe / 100);
    let mp: u64 = (5 * doy + 2) / 153;
    proof {
        lemma_month_of_year(doy as int, mp as int);
    }
    let day: u64 = doy - (153 * mp + 2) / 5 + 1;
    let month: u64 = if mp < 10 {
        mp + 3
    } else {
        mp - 9
    };
    let year: u64 = if month <= 2 {
        yoe + era * 400 + 1
    } else {
        yoe + era * 400
    };
    proof {
        let t = (year as int, month as int, day as int);
        assert(doy == 365 ==> leap(yoe + 1));
        lemma_assemble(yoe + era * 400, doy as int, mp as int);
        assert(is_date(t.0, t.1, t.2) && day_number(t.0, t.1, t.2) == days);
        law_date_is_unique(civil(days as int), t);
    }
    (year, month, day)
}

/// Format a Unix timestamp as an HTTP date, e.g.
/// `Sun, 06 Nov 1994 08:49:37 GMT`.
pub fn http_date(secs: u64) -> (r: String)
    ensures
        r@ == date_of(secs as int),
{
    let days: u64 = secs / 86400;
    let tod: u64 = secs % 86400;
    let (year, month, day) = date_parts(days);
    let wday: u64 = (days % 7 + 4) % 7;
    let wname: &str = if wday == 0 {
        "Sun"
    } else if wday == 1 {
        "Mon"
    } else if wday == 2 {
        "Tue"
    } else if wday == 3 {
        "Wed"
    } else if wday == 4 {
        "Thu"
    } else if wday == 5 {
        "Fri"
    } else {
        "Sat"
    };
    let mname: &str = if month == 1 {
        "Jan"
    } else if month == 2 {
        "Feb"
    } else if month == 3 {
        "Mar"
    } else if month == 4 {
        "Apr"
    } else if month == 5 {
        "May"
    } else if month == 6 {
        "Jun"
    } else if month == 7 {
        "Jul"
    } else if month == 8 {
        "Aug"
    } else if month == 9 {
        "Sep"
    } else if month == 10 {
        "Oct"
    } else if month == 11 {
        "Nov"
    } else {
        "Dec"
    };
    let mut out: String = String::new();
    out.push_str(wname);
    out.push_str(", ");
    push_padded(&mut out, day, 2);
    out.push_str(" ");
    out.push_str(mname);
    out.push_str(" ");
    push_padded(&mut out, year, 4);
    out.push_str(" ");
    push_padded(&mut out, tod / 3600, 2);
    out.push_str(":");
    push_padded(&mut out, tod % 3600 / 60, 2);
    out.push_str(":");
    push_padded(&mut out, tod % 60, 2);
    out.push_str(" GMT");
    proof {
        assert(wname@ == weekday_name(wday as int));
        assert(mname@ == month_name(month as int));
        assert(wday == (secs / 86400 + 4) % 7);
        assert(Seq::<char>::empty() + wname@ =~= wname@);
    }
    out
}

// ---------------------------------------------------------------------------
// Laws
// ---------------------------------------------------------------------------

/// The day after a date, by the lengths of the months.
pub open spec fn day_after(y: int, m: int, d: int) -> (int, int, int) {
    let lens = seq![31int, 28, 31, 30, 31, 30, 31, 31, 30, 31, 30, 31];
    let leap_day = m == 2 && y % 4 == 0 && (y % 100 != 0 || y % 400 == 0);
    let last = lens[m - 1] + if leap_day {
        1int
    } else {
        0
    };
    if d < last {
        (y, m, d + 1)
    } else if m < 12 {
        (y, m + 1, 1)
    } else {
        (y + 1, 1, 1)
    }
}

/// Days are counted one by one from the first of January 1970: that is day zero,
/// and the date after that of a day is the date of the day after it.
pub proof fn law_calendar(y: int, m: int, d: int)
    requires
        is_date(y, m, d),
    ensures
        day_number(1970, 1, 1) == 0,
        civil(0) == (1970int, 1int, 1int),
        ({
            let t = day_after(y, m, d);
            &&& is_date(t.0, t.1, t.2)
            &&& day_number(t.0, t.1, t.2) == day_number(y, m, d) + 1
        }),
        civil(day_number(y, m, d)) == (y, m, d),
        civil(day_number(y, m, d) + 1) == day_after(y, m, d),
{
    lemma_months(y);
    lemma_months(1970);
    lemma_months(y + 1);
    lemma_year_len(y);
    let t = day_after(y, m, d);
    assert(is_date(t.0, t.1, t.2));
    lemma_civil(y, m, d);
    lemma_civil(t.0, t.1, t.2);
    lemma_civil(1970, 1, 1);
}

proof fn lemma_civil(y: int, m: int, d: int)
    requires
        is_date(y, m, d),
    ensures
        civil(day_number(y, m, d)) == (y, m, d),
{
    let n = day_number(y, m, d);
    let t = (y, m, d);
    assert(is_date(t.0, t.1, t.2) && day_number(t.0, t.1, t.2) == n);
    let c = civil(n);
    assert(is_date(c.0, c.1, c.2) && day_number(c.0, c.1, c.2) == n);
    law_date_is_unique(t, c);
}

/// A moment is written as the weekday, the day of the month, the month, the year,
/// and the hour, minute and second of the day, each in its place and to its width.
/// The weekdays follow each other from a Thursday on.
pub proof fn law_date_text(days: int, h: int, mi: int, s: int)
    requires
        0 <= days,
        0 <= h < 24,
        0 <= mi < 60,
        0 <= s < 60,
    ensures
        ({
            let (y, m, d) = civil(days);
            let weekday = "ThuFriSatSunMonTueWed"@.subrange(3 * (days % 7), 3 * (days % 7) + 3);
            let month = "JanFebMarAprMayJunJulAugSepOctNovDec"@.subrange(3 * (m - 1), 3 * (m - 1) + 3);
            1 <= m <= 12 ==> date_of(days * 86400 + h * 3600 + mi * 60 + s) == weekday + ", "@ + padded(
                decimal(d as nat),
                2,
            ) + " "@ + month + " "@ + padded(decimal(y as nat), 4) + " "@ + padded(
                decimal(h as nat),
                2,
            ) + ":"@ + padded(decimal(mi as nat), 2) + ":"@ + padded(decimal(s as nat), 2)
                + " GMT"@
        }),
{
    let (y, m, d) = civil(days);
    let t = days * 86400 + h * 3600 + mi * 60 + s;
    let tod = h * 3600 + mi * 60 + s;
    assert(t / 86400 == days && t % 86400 == tod) by {
        lemma_fundamental_div_mod_converse(t, 86400, days, tod);
    }
    assert(tod / 3600 == h);
    assert(tod % 3600 / 60 == mi);
    assert(tod % 60 == s);
    let w = (days + 4) % 7;
    let k = days % 7;
    assert(w == (k + 4) % 7);
    reveal_strlit("ThuFriSatSunMonTueWed");
    reveal_strlit("JanFebMarAprMayJunJulAugSepOctNovDec");
    reveal_strlit("Sun");
    reveal_strlit("Mon");
    reveal_strlit("Tue");
    reveal_strlit("Wed");
    reveal_strlit("Thu");
    reveal_strlit("Fri");
    reveal_strlit("Sat");
    reveal_strlit("Jan");
    reveal_strlit("Feb");
    reveal_strlit("Mar");
    reveal_strlit("Apr");
    reveal_strlit("May");
    reveal_strlit("Jun");
    reveal_strlit("Jul");
    reveal_strlit("Aug");
    reveal_strlit("Sep");
    reveal_strlit("Oct");
    reveal_strlit("Nov");
    reveal_strlit("Dec");
    assert(weekday_name(w) =~= "ThuFriSatSunMonTueWed"@.subrange(3 * k, 3 * k + 3));
    if 1 <= m <= 12 {
        assert(month_name(m) =~= "JanFebMarAprMayJunJulAugSepOctNovDec"@.subrange(
            3 * (m - 1),
            3 * (m - 1) + 3,
        ));
    }
}

} // verus!
