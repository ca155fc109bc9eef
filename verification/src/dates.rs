//! Calendar arithmetic for snapshot labels: proleptic Gregorian dates,
//! day numbers, weekdays, and week-of-year numbering in which weeks start
//! on Sunday, independent of any date library.

use vstd::prelude::*;

use crate::text::{
    dec_str_pad, find_char, first_index_of, parse_u64, push_char, push_dec_pad, spec_parse_u64,
};

verus! {

/// A calendar date, as read from a `YYYY-MM-DD` snapshot label.
#[derive(Clone, Copy, PartialEq, Eq, Structural, Debug)]
pub struct Date {
    pub year: u16,
    pub month: u8,
    pub day: u8,
}

pub open spec fn spec_is_leap_year(y: int) -> bool {
    y % 4 == 0 && (y % 100 != 0 || y % 400 == 0)
}

pub fn is_leap_year(y: u16) -> (r: bool)
    ensures
        r == spec_is_leap_year(y as int),
{
    y % 4 == 0 && (y % 100 != 0 || y % 400 == 0)
}

pub open spec fn spec_days_in_month(y: int, m: int) -> int {
    if m == 2 {
        if spec_is_leap_year(y) { 29 } else { 28 }
    } else if m == 4 || m == 6 || m == 9 || m == 11 {
        30
    } else {
        31
    }
}

pub fn days_in_month(y: u16, m: u8) -> (r: u8)
    ensures
        r == spec_days_in_month(y as int, m as int),
{
    if m == 2 {
        if is_leap_year(y) { 29 } else { 28 }
    } else if m == 4 || m == 6 || m == 9 || m == 11 {
        30
    } else {
        31
    }
}

/// Well-formed dates cover the years a four-digit label can carry, plus
/// one more year so that the day after a well-formed date is well-formed.
pub open spec fn date_wf(d: Date) -> bool {
    &&& 1 <= d.year <= 10000
    &&& 1 <= d.month <= 12
    &&& 1 <= d.day <= spec_days_in_month(d.year as int, d.month as int)
}

/// The looser bounds under which the day-number formula is meaningful.
pub open spec fn date_bounds(d: Date) -> bool {
    &&& d.year <= 10001
    &&& 1 <= d.month <= 12
    &&& 1 <= d.day <= 31
}

/// Days elapsed since an arbitrary fixed epoch, one per calendar day.
pub open spec fn day_number(d: Date) -> int {
    let y: int = if d.month <= 2 { d.year + 399 } else { d.year + 400 };
    let mp: int = if d.month > 2 { d.month - 3 } else { d.month + 9 };
    let era = y / 400;
    let yoe = y % 400;
    let doy = (153 * mp + 2) / 5 + d.day - 1;
    let doe = yoe * 365 + yoe / 4 - yoe / 100 + doy;
    era * 146097 + doe
}

pub fn day_number_exec(d: &Date) -> (n: u64)
    requires
        date_bounds(*d) || date_wf(*d),
    ensures
        n == day_number(*d),
        n <= 5_000_000,
{
    let y: u64 = if d.month <= 2 { d.year as u64 + 399 } else { d.year as u64 + 400 };
    let mp: u64 = if d.month > 2 { d.month as u64 - 3 } else { d.month as u64 + 9 };
    let era = y / 400;
    let yoe = y % 400;
    let doy = (153 * mp + 2) / 5 + d.day as u64 - 1;
    let doe = yoe * 365 + yoe / 4 - yoe / 100 + doy;
    era * 146097 + doe
}

/// Signed distance in days between two dates.
pub fn days_between(a: &Date, b: &Date) -> (n: i64)
    requires
        date_wf(*a),
        date_wf(*b),
    ensures
        n == day_number(*a) - day_number(*b),
{
    let na = day_number_exec(a);
    let nb = day_number_exec(b);
    (na as i64) - (nb as i64)
}

/// Weekday with Monday = 1 through Sunday = 7.
pub open spec fn iso_weekday(d: Date) -> int {
    (day_number(d) + 2) % 7 + 1
}

pub fn iso_weekday_exec(d: &Date) -> (w: u64)
    requires
        date_bounds(*d) || date_wf(*d),
    ensures
        w == iso_weekday(*d),
        1 <= w <= 7,
{
    let n = day_number_exec(d);
    (n + 2) % 7 + 1
}

/// The next calendar day.
pub open spec fn succ_date(d: Date) -> Date {
    if d.day < spec_days_in_month(d.year as int, d.month as int) {
        Date { year: d.year, month: d.month, day: (d.day + 1) as u8 }
    } else if d.month < 12 {
        Date { year: d.year, month: (d.month + 1) as u8, day: 1 }
    } else {
        Date { year: (d.year + 1) as u16, month: 1, day: 1 }
    }
}

pub fn succ_date_exec(d: &Date) -> (r: Date)
    requires
        date_wf(*d),
        d.year <= 9999,
    ensures
        r == succ_date(*d),
        date_wf(r),
{
    if d.day < days_in_month(d.year, d.month) {
        Date { year: d.year, month: d.month, day: d.day + 1 }
    } else if d.month < 12 {
        Date { year: d.year, month: d.month + 1, day: 1 }
    } else {
        Date { year: d.year + 1, month: 1, day: 1 }
    }
}

pub open spec fn jan1(y: u16) -> Date {
    Date { year: y, month: 1, day: 1 }
}

/// Weekday of January the 1st of year `y`, Monday = 1 through Sunday = 7.
pub open spec fn jan1_weekday(y: u16) -> int {
    iso_weekday(jan1(y))
}

/// Number of ISO weeks in year `y`: 53 when the year starts on a Thursday,
/// or on a Wednesday in a leap year; otherwise 52.
pub open spec fn spec_weeks_in_year(y: u16) -> int {
    if jan1_weekday(y) == 4 || (spec_is_leap_year(y as int) && jan1_weekday(y) == 3) {
        53
    } else {
        52
    }
}

pub fn weeks_in_year(y: u16) -> (r: u64)
    requires
        y <= 10000,
    ensures
        r == spec_weeks_in_year(y),
{
    let wd = iso_weekday_exec(&Date { year: y, month: 1, day: 1 });
    if wd == 4 || (is_leap_year(y) && wd == 3) {
        53
    } else {
        52
    }
}

/// Ordinal of the day within its year, January the 1st being 1.
pub open spec fn day_of_year(d: Date) -> int {
    day_number(d) - day_number(jan1(d.year)) + 1
}

/// ISO 8601 week date: the year and week number the date falls in.
pub open spec fn spec_iso_week(d: Date) -> (int, int) {
    let w = (10 + day_of_year(d) - iso_weekday(d)) / 7;
    if w < 1 {
        (d.year - 1, spec_weeks_in_year((d.year - 1) as u16))
    } else if w > spec_weeks_in_year(d.year) {
        (d.year + 1, 1)
    } else {
        (d.year as int, w)
    }
}

pub fn iso_week(d: &Date) -> (r: (u64, u64))
    requires
        date_wf(*d),
    ensures
        r.0 == spec_iso_week(*d).0,
        r.1 == spec_iso_week(*d).1,
{
    let dn = day_number_exec(d);
    let j1 = day_number_exec(&Date { year: d.year, month: 1, day: 1 });
    let doy = dn - j1 + 1;
    let wd = iso_weekday_exec(d);
    let w = (10 + doy - wd) / 7;
    if w < 1 {
        (d.year as u64 - 1, weeks_in_year(d.year - 1))
    } else if w > weeks_in_year(d.year) {
        (d.year as u64 + 1, 1)
    } else {
        (d.year as u64, w)
    }
}

/// The week a date belongs to when weeks are counted as ISO weeks but are
/// taken to start on Sunday: a Sunday is counted with the week of the day
/// that follows it.
pub open spec fn spec_week_of_year(d: Date) -> (int, int) {
    if iso_weekday(d) == 7 {
        spec_iso_week(succ_date(d))
    } else {
        spec_iso_week(d)
    }
}

pub fn week_of_year(d: &Date) -> (r: (u64, u64))
    requires
        date_wf(*d),
        d.year <= 9999,
    ensures
        r.0 == spec_week_of_year(*d).0,
        r.1 == spec_week_of_year(*d).1,
{
    let wd = iso_weekday_exec(d);
    if wd == 7 {
        let s = succ_date_exec(d);
        iso_week(&s)
    } else {
        iso_week(d)
    }
}

/// Dates ordered by year, then month, then day.
pub open spec fn date_lt(a: Date, b: Date) -> bool {
    if a.year != b.year {
        a.year < b.year
    } else if a.month != b.month {
        a.month < b.month
    } else {
        a.day < b.day
    }
}

pub fn date_lt_exec(a: &Date, b: &Date) -> (r: bool)
    ensures
        r == date_lt(*a, *b),
{
    if a.year != b.year {
        a.year < b.year
    } else if a.month != b.month {
        a.month < b.month
    } else {
        a.day < b.day
    }
}

/// A strict `YYYY-MM-DD` label for an existing calendar date with a
/// four-digit year of at least 1.
pub open spec fn spec_parse_date(s: Seq<char>) -> Option<Date> {
    if s.len() == 10 && s[4] == '-' && s[7] == '-' {
        let ys = spec_parse_u64(s.take(4));
        let ms = spec_parse_u64(s.subrange(5, 7));
        let ds = spec_parse_u64(s.subrange(8, 10));
        if ys is Some && ms is Some && ds is Some {
            let y = ys->0;
            let m = ms->0;
            let dd = ds->0;
            if 1 <= y <= 9999 && 1 <= m <= 12 && 1 <= dd <= spec_days_in_month(
                y as int,
                m as int,
            ) {
                Some(Date { year: y as u16, month: m as u8, day: dd as u8 })
            } else {
                None
            }
        } else {
            None
        }
    } else {
        None
    }
}

pub fn parse_date(s: &str) -> (r: Option<Date>)
    ensures
        r == spec_parse_date(s@),
        r is Some ==> date_wf(r->0) && r->0.year <= 9999,
{
    let n = s.unicode_len();
    if n != 10 {
        return None;
    }
    if s.get_char(4) != '-' || s.get_char(7) != '-' {
        return None;
    }
    let ys = s.substring_char(0, 4);
    let ms = s.substring_char(5, 7);
    let ds = s.substring_char(8, 10);
    proof {
        assert(ys@ =~= s@.take(4));
        assert(ms@ =~= s@.subrange(5, 7));
        assert(ds@ =~= s@.subrange(8, 10));
    }
    let y = match parse_u64(ys) {
        Some(v) => v,
        None => {
            return None;
        },
    };
    let m = match parse_u64(ms) {
        Some(v) => v,
        None => {
            return None;
        },
    };
    let dd = match parse_u64(ds) {
        Some(v) => v,
        None => {
            return None;
        },
    };
    if 1 <= y && y <= 9999 && 1 <= m && m <= 12 && 1 <= dd && dd <= days_in_month(
        y as u16,
        m as u8,
    ) as u64 {
        Some(Date { year: y as u16, month: m as u8, day: dd as u8 })
    } else {
        None
    }
}

/// The label part of a snapshot name: everything after the first `@`, or
/// the whole name when there is none.
pub open spec fn spec_label_of(s: Seq<char>) -> Seq<char> {
    let i = first_index_of(s, '@');
    if i < 0 {
        s
    } else {
        s.skip(i + 1)
    }
}

/// The volume part of a snapshot name: everything before the first `@`, or
/// the whole name when there is none.
pub open spec fn spec_volume_of(s: Seq<char>) -> Seq<char> {
    let i = first_index_of(s, '@');
    if i < 0 {
        s
    } else {
        s.take(i)
    }
}

pub fn label_of(s: &str) -> (r: String)
    ensures
        r@ == spec_label_of(s@),
{
    let n = s.unicode_len();
    match find_char(s, '@') {
        Some(i) => {
            proof {
                crate::text::lemma_first_index_of(s@, '@');
            }
            let r = s.substring_char(i + 1, n).to_owned();
            proof {
                assert(r@ =~= s@.skip(i + 1));
            }
            r
        },
        None => s.to_owned(),
    }
}

pub fn volume_of(s: &str) -> (r: String)
    ensures
        r@ == spec_volume_of(s@),
{
    match find_char(s, '@') {
        Some(i) => {
            proof {
                crate::text::lemma_first_index_of(s@, '@');
            }
            let r = s.substring_char(0, i).to_owned();
            proof {
                assert(r@ =~= s@.take(i as int));
            }
            r
        },
        None => s.to_owned(),
    }
}

/// The date carried by a snapshot's label, when the label is a strict date.
pub open spec fn spec_date_from_snapshot(s: Seq<char>) -> Option<Date> {
    spec_parse_date(spec_label_of(s))
}

pub fn date_from_snapshot(snap: &str) -> (r: Option<Date>)
    ensures
        r == spec_date_from_snapshot(snap@),
        r is Some ==> date_wf(r->0) && r->0.year <= 9999,
{
    let label = label_of(snap);
    parse_date(label.as_str())
}

/// The canonical `YYYY-MM-DD` rendering of a date.
pub open spec fn spec_date_str(d: Date) -> Seq<char> {
    dec_str_pad(d.year as nat, 4) + seq!['-'] + dec_str_pad(d.month as nat, 2) + seq!['-']
        + dec_str_pad(d.day as nat, 2)
}

pub fn date_str(d: &Date) -> (r: String)
    ensures
        r@ == spec_date_str(*d),
{
    let mut s = String::new();
    push_dec_pad(&mut s, d.year as u64, 4);
    push_char(&mut s, '-');
    push_dec_pad(&mut s, d.month as u64, 2);
    push_char(&mut s, '-');
    push_dec_pad(&mut s, d.day as u64, 2);
    proof {
        assert(s@ =~= spec_date_str(*d));
    }
    s
}

} // verus!
