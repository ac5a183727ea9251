//! A verified calendar model: timestamps as plain year/month/day fields in
//! the proleptic Gregorian calendar, with day numbering, weekday computation,
//! day differences and parsing of the `YYYY-MM-DD HH:MM:SS` shape.

use vstd::prelude::*;
use crate::text::{all_digits, digits_val, seq_views, split_whitespace_vec, split_ws};

verus! {

/// A wall-clock timestamp; the timezone offset of the source text is not
/// retained (day arithmetic is done on the naive local time, as the callers
/// expect).
#[derive(Clone, Copy, PartialEq, Eq, Structural, Debug)]
pub struct Timestamp {
    pub year: u16,
    pub month: u8,
    pub day: u8,
    pub hour: u8,
    pub minute: u8,
    pub second: u8,
}

pub open spec fn is_leap_year(y: int) -> bool {
    y % 4 == 0 && (y % 100 != 0 || y % 400 == 0)
}

pub open spec fn days_in_month(y: int, m: int) -> int {
    if m == 2 {
        if is_leap_year(y) {
            29
        } else {
            28
        }
    } else if m == 4 || m == 6 || m == 9 || m == 11 {
        30
    } else {
        31
    }
}

pub open spec fn days_in_year(y: int) -> int {
    if is_leap_year(y) {
        366
    } else {
        365
    }
}

/// Days in all years before `y`, counted from year 0.
pub open spec fn days_before_year(y: int) -> int
    decreases y,
{
    if y <= 0 {
        0
    } else {
        days_before_year(y - 1) + days_in_year(y - 1)
    }
}

/// Days in all months of year `y` before month `m`.
pub open spec fn days_before_month(y: int, m: int) -> int
    decreases m,
{
    if m <= 1 {
        0
    } else {
        days_before_month(y, m - 1) + days_in_month(y, m - 1)
    }
}

/// A timestamp whose fields lie in their calendar ranges.
pub open spec fn wf_timestamp(t: Timestamp) -> bool {
    &&& t.year <= 9999
    &&& 1 <= t.month <= 12
    &&& 1 <= t.day <= days_in_month(t.year as int, t.month as int)
    &&& t.hour < 24
    &&& t.minute < 60
    &&& t.second < 60
}

/// Days since 0000-01-01.
pub open spec fn day_number(t: Timestamp) -> int {
    days_before_year(t.year as int) + days_before_month(t.year as int, t.month as int) + t.day - 1
}

/// Seconds since 0000-01-01 00:00:00.
pub open spec fn epoch_seconds(t: Timestamp) -> int {
    day_number(t) * 86400 + t.hour as int * 3600 + t.minute as int * 60 + t.second as int
}

proof fn lemma_days_before_year_bound(y: int)
    requires
        y >= 0,
    ensures
        0 <= days_before_year(y) <= 366 * y,
    decreases y,
{
    if y > 0 {
        lemma_days_before_year_bound(y - 1);
    }
}

proof fn lemma_days_before_month_bound(y: int, m: int)
    requires
        m >= 1,
    ensures
        0 <= days_before_month(y, m) <= 31 * (m - 1),
    decreases m,
{
    if m > 1 {
        lemma_days_before_month_bound(y, m - 1);
    }
}

fn is_leap_year_exec(y: u16) -> (r: bool)
    ensures
        r == is_leap_year(y as int),
{
    y % 4 == 0 && (y % 100 != 0 || y % 400 == 0)
}

/// Length of a month, in days.
pub fn days_in_month_exec(y: u16, m: u8) -> (r: u8)
    ensures
        r as int == days_in_month(y as int, m as int),
{
    if m == 2 {
        if is_leap_year_exec(y) {
            29
        } else {
            28
        }
    } else if m == 4 || m == 6 || m == 9 || m == 11 {
        30
    } else {
        31
    }
}

/// Days since 0000-01-01 of a well-formed timestamp.
pub fn day_number_exec(t: &Timestamp) -> (r: u32)
    requires
        wf_timestamp(*t),
    ensures
        r as int == day_number(*t),
        r <= 3_700_000,
{
    let mut acc: u32 = 0;
    let mut y: u16 = 0;
    while y < t.year
        invariant
            y <= t.year <= 9999,
            acc as int == days_before_year(y as int),
            acc <= 366 * y as u32,
        decreases t.year - y,
    {
        if is_leap_year_exec(y) {
            acc = acc + 366;
        } else {
            acc = acc + 365;
        }
        y = y + 1;
    }
    let mut m: u8 = 1;
    let mut macc: u32 = 0;
    while m < t.month
        invariant
            1 <= m <= t.month <= 12,
            t.year <= 9999,
            macc as int == days_before_month(t.year as int, m as int),
            macc <= 31 * (m as u32 - 1),
        decreases t.month - m,
    {
        macc = macc + days_in_month_exec(t.year, m) as u32;
        m = m + 1;
    }
    acc + macc + t.day as u32 - 1
}

/// Seconds since 0000-01-01 00:00:00 of a well-formed timestamp.
pub fn epoch_seconds_exec(t: &Timestamp) -> (r: u64)
    requires
        wf_timestamp(*t),
    ensures
        r as int == epoch_seconds(*t),
        r <= 320_000_000_000u64,
{
    let d = day_number_exec(t) as u64;
    d * 86400 + t.hour as u64 * 3600 + t.minute as u64 * 60 + t.second as u64
}

/// The whole-day difference `a - b`, truncated toward zero, as
/// day-arithmetic on naive timestamps gives it.
pub open spec fn diff_days_spec(a: Timestamp, b: Timestamp) -> int {
    let d = epoch_seconds(a) - epoch_seconds(b);
    if d >= 0 {
        d / 86400
    } else {
        -((-d) / 86400)
    }
}

/// Whole days between two timestamps, truncated toward zero.
pub fn diff_days(a: &Timestamp, b: &Timestamp) -> (r: i64)
    requires
        wf_timestamp(*a),
        wf_timestamp(*b),
    ensures
        r as int == diff_days_spec(*a, *b),
{
    let sa = epoch_seconds_exec(a);
    let sb = epoch_seconds_exec(b);
    if sa >= sb {
        ((sa - sb) / 86400) as i64
    } else {
        -(((sb - sa) / 86400) as i64)
    }
}

/// The absolute whole-day gap between two timestamps.
pub open spec fn gap_days_spec(a: Timestamp, b: Timestamp) -> int {
    let d = if epoch_seconds(a) >= epoch_seconds(b) {
        epoch_seconds(a) - epoch_seconds(b)
    } else {
        epoch_seconds(b) - epoch_seconds(a)
    };
    d / 86400
}

/// Absolute whole days between two timestamps.
pub fn gap_days(a: &Timestamp, b: &Timestamp) -> (r: u64)
    requires
        wf_timestamp(*a),
        wf_timestamp(*b),
    ensures
        r as int == gap_days_spec(*a, *b),
{
    let sa = epoch_seconds_exec(a);
    let sb = epoch_seconds_exec(b);
    if sa >= sb {
        (sa - sb) / 86400
    } else {
        (sb - sa) / 86400
    }
}

/// Weekday index: 0 is Monday through 6 is Sunday.
pub open spec fn weekday_of(t: Timestamp) -> int {
    (day_number(t) + 5) % 7
}

/// Weekday of a well-formed timestamp, 0 = Monday .. 6 = Sunday.
pub fn weekday_exec(t: &Timestamp) -> (r: u8)
    requires
        wf_timestamp(*t),
    ensures
        r as int == weekday_of(*t),
        r < 7,
{
    let d = day_number_exec(t);
    ((d + 5) % 7) as u8
}

/// The English name of a weekday index (0 = Monday .. 6 = Sunday).
pub open spec fn day_name_spec(w: int) -> Seq<char> {
    if w == 0 {
        "Monday"@
    } else if w == 1 {
        "Tuesday"@
    } else if w == 2 {
        "Wednesday"@
    } else if w == 3 {
        "Thursday"@
    } else if w == 4 {
        "Friday"@
    } else if w == 5 {
        "Saturday"@
    } else {
        "Sunday"@
    }
}

/// The English weekday name for an index produced by [`weekday_exec`].
pub fn day_name(w: u8) -> (r: String)
    ensures
        r@ == day_name_spec(w as int),
{
    if w == 0 {
        "Monday".to_owned()
    } else if w == 1 {
        "Tuesday".to_owned()
    } else if w == 2 {
        "Wednesday".to_owned()
    } else if w == 3 {
        "Thursday".to_owned()
    } else if w == 4 {
        "Friday".to_owned()
    } else if w == 5 {
        "Saturday".to_owned()
    } else {
        "Sunday".to_owned()
    }
}

// ---------------------------------------------------------------------------
// Parsing
// ---------------------------------------------------------------------------

/// `YYYY-MM-DD`, all fields zero-padded decimal.
pub open spec fn date_shape_ok(d: Seq<char>) -> bool {
    &&& d.len() == 10
    &&& d[4] == '-'
    &&& d[7] == '-'
    &&& all_digits(d.subrange(0, 4))
    &&& all_digits(d.subrange(5, 7))
    &&& all_digits(d.subrange(8, 10))
}

/// `HH:MM:SS`, all fields zero-padded decimal.
pub open spec fn time_shape_ok(t: Seq<char>) -> bool {
    &&& t.len() == 8
    &&& t[2] == ':'
    &&& t[5] == ':'
    &&& all_digits(t.subrange(0, 2))
    &&& all_digits(t.subrange(3, 5))
    &&& all_digits(t.subrange(6, 8))
}

/// Parse a date token and a time token in the expected shape; `None` when
/// the shape or a calendar range check fails.
pub open spec fn parse_date_time_spec(d: Seq<char>, t: Seq<char>) -> Option<Timestamp> {
    if date_shape_ok(d) && time_shape_ok(t) {
        let y = digits_val(d.subrange(0, 4));
        let mo = digits_val(d.subrange(5, 7));
        let da = digits_val(d.subrange(8, 10));
        let h = digits_val(t.subrange(0, 2));
        let mi = digits_val(t.subrange(3, 5));
        let se = digits_val(t.subrange(6, 8));
        if 1 <= mo <= 12 && 1 <= da <= days_in_month(y, mo) && h < 24 && mi < 60 && se < 60 {
            Some(
                Timestamp {
                    year: y as u16,
                    month: mo as u8,
                    day: da as u8,
                    hour: h as u8,
                    minute: mi as u8,
                    second: se as u8,
                },
            )
        } else {
            None
        }
    } else {
        None
    }
}

/// The model of timestamp parsing as the analytics use it: take the first
/// two whitespace-separated tokens (the date and the time; a trailing
/// timezone offset is ignored) and parse them strictly.
pub open spec fn parse_ts_spec(s: Seq<char>) -> Option<Timestamp> {
    let toks = split_ws(s);
    if toks.len() < 2 {
        None
    } else {
        parse_date_time_spec(toks[0], toks[1])
    }
}

proof fn lemma_digits_val_small(s: Seq<char>)
    requires
        all_digits(s),
        s.len() <= 4,
    ensures
        0 <= digits_val(s),
        s.len() <= 1 ==> digits_val(s) < 10,
        s.len() <= 2 ==> digits_val(s) < 100,
        s.len() <= 3 ==> digits_val(s) < 1000,
        s.len() <= 4 ==> digits_val(s) < 10000,
    decreases s.len(),
{
    if s.len() > 0 {
        assert(all_digits(s.drop_last()));
        lemma_digits_val_small(s.drop_last());
    }
}

fn parse_fixed_digits(s: &str, from: usize, to: usize) -> (r: Option<u32>)
    requires
        from <= to <= s@.len(),
        to - from <= 4,
    ensures
        match r {
            Some(v) => all_digits(s@.subrange(from as int, to as int)) && v as int == digits_val(
                s@.subrange(from as int, to as int),
            ),
            None => !all_digits(s@.subrange(from as int, to as int)),
        },
{
    let mut acc: u32 = 0;
    let mut i: usize = from;
    while i < to
        invariant
            from <= i <= to <= s@.len(),
            to - from <= 4,
            all_digits(s@.subrange(from as int, i as int)),
            acc as int == digits_val(s@.subrange(from as int, i as int)),
            acc < 10000,
        decreases to - i,
    {
        let c = s.get_char(i);
        let u = c as u32;
        proof {
            assert(s@.subrange(from as int, i + 1 as int).drop_last() =~= s@.subrange(
                from as int,
                i as int,
            ));
            assert(s@.subrange(from as int, i + 1 as int).last() == s@[i as int]);
        }
        if u < 48 || u > 57 {
            assert(!all_digits(s@.subrange(from as int, to as int))) by {
                assert(s@.subrange(from as int, to as int)[i - from] == s@[i as int]);
            }
            return None;
        }
        acc = acc * 10 + (u - 48);
        i = i + 1;
        proof {
            lemma_digits_val_small(s@.subrange(from as int, i as int));
        }
    }
    Some(acc)
}

fn parse_date_token(d: &str) -> (r: Option<(u16, u8, u8)>)
    ensures
        match r {
            Some(v) => {
                &&& date_shape_ok(d@)
                &&& v.0 as int == digits_val(d@.subrange(0, 4))
                &&& v.1 as int == digits_val(d@.subrange(5, 7))
                &&& v.2 as int == digits_val(d@.subrange(8, 10))
            },
            None => !date_shape_ok(d@),
        },
{
    if d.unicode_len() != 10 {
        return None;
    }
    if d.get_char(4) != '-' || d.get_char(7) != '-' {
        return None;
    }
    let y = match parse_fixed_digits(d, 0, 4) {
        Some(v) => v,
        None => {
            return None;
        },
    };
    let mo = match parse_fixed_digits(d, 5, 7) {
        Some(v) => v,
        None => {
            return None;
        },
    };
    let da = match parse_fixed_digits(d, 8, 10) {
        Some(v) => v,
        None => {
            return None;
        },
    };
    proof {
        lemma_digits_val_small(d@.subrange(0, 4));
        lemma_digits_val_small(d@.subrange(5, 7));
        lemma_digits_val_small(d@.subrange(8, 10));
    }
    Some((y as u16, mo as u8, da as u8))
}

fn parse_time_token(t: &str) -> (r: Option<(u8, u8, u8)>)
    ensures
        match r {
            Some(v) => {
                &&& time_shape_ok(t@)
                &&& v.0 as int == digits_val(t@.subrange(0, 2))
                &&& v.1 as int == digits_val(t@.subrange(3, 5))
                &&& v.2 as int == digits_val(t@.subrange(6, 8))
            },
            None => !time_shape_ok(t@),
        },
{
    if t.unicode_len() != 8 {
        return None;
    }
    if t.get_char(2) != ':' || t.get_char(5) != ':' {
        return None;
    }
    let h = match parse_fixed_digits(t, 0, 2) {
        Some(v) => v,
        None => {
            return None;
        },
    };
    let mi = match parse_fixed_digits(t, 3, 5) {
        Some(v) => v,
        None => {
            return None;
        },
    };
    let se = match parse_fixed_digits(t, 6, 8) {
        Some(v) => v,
        None => {
            return None;
        },
    };
    proof {
        lemma_digits_val_small(t@.subrange(0, 2));
        lemma_digits_val_small(t@.subrange(3, 5));
        lemma_digits_val_small(t@.subrange(6, 8));
    }
    Some((h as u8, mi as u8, se as u8))
}

/// Parse the leading `YYYY-MM-DD HH:MM:SS` of a timestamp string; tokens
/// beyond the first two (a timezone offset) are ignored.
pub fn parse_timestamp(s: &str) -> (r: Option<Timestamp>)
    ensures
        r == parse_ts_spec(s@),
        r matches Some(t) ==> wf_timestamp(t),
{
    let toks = split_whitespace_vec(s);
    if toks.len() < 2 {
        return None;
    }
    proof {
        assert(seq_views(toks@)[0] == toks@[0]@);
        assert(seq_views(toks@)[1] == toks@[1]@);
    }
    let dt = parse_date_token(toks[0].as_str());
    let (y, mo, da) = match dt {
        Some(v) => v,
        None => {
            return None;
        },
    };
    let tt = parse_time_token(toks[1].as_str());
    let (h, mi, se) = match tt {
        Some(v) => v,
        None => {
            return None;
        },
    };
    if mo < 1 || mo > 12 {
        return None;
    }
    if da < 1 || da > days_in_month_exec(y, mo) {
        return None;
    }
    if h >= 24 || mi >= 60 || se >= 60 {
        return None;
    }
    proof {
        lemma_digits_val_small(toks@[0]@.subrange(0, 4));
    }
    Some(Timestamp { year: y, month: mo, day: da, hour: h, minute: mi, second: se })
}

} // verus!
