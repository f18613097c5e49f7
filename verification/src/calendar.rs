//! Calendar dates and UTC timestamps.
//!
//! Dates are carried as plain year/month/day values with a validity
//! invariant.  Turning a civil date into a day number (and from there into
//! an epoch timestamp) is verified integer arithmetic; the reverse
//! decomposition of a millisecond timestamp is obtained from chrono behind
//! one trusted wrapper.

use vstd::prelude::*;

use chrono::Datelike;
use chrono::TimeZone;
use chrono::Timelike;

use crate::decimal::digits_val;
use crate::decimal::is_digit_char;
use crate::strnum::push_char;
use crate::strnum::spec_digits_padded;
use crate::strnum::spec_int_str;
use crate::strnum::spec_year_str;
use crate::strnum::i64_to_string;
use crate::strnum::u128_to_string_padded;
use crate::strnum::year_to_string;

verus! {

/// A proleptic-Gregorian leap year.
pub open spec fn is_leap_year(y: int) -> bool {
    y % 4 == 0 && (y % 100 != 0 || y % 400 == 0)
}

/// Days in a month of the proleptic Gregorian calendar.
pub open spec fn days_in_month(y: int, m: int) -> int {
    if m == 2 {
        if is_leap_year(y) {
            29
        } else {
            28
        }
    } else if m == 4 || m == 6 || m == 9 || m == 11 {
        30
    } else {
        31
    }
}

/// Bound on years for which day-number arithmetic stays in range.
pub open spec fn year_limit() -> int {
    1000000
}

/// A calendar date.
#[derive(Clone, Copy, Debug, PartialEq, Eq, Structural)]
pub struct Date {
    pub y: i32,
    pub m: u8,
    pub d: u8,
}

impl Date {
    /// A real calendar date within the supported year range.
    pub open spec fn wf(self) -> bool {
        &&& -year_limit() <= self.y <= year_limit()
        &&& 1 <= self.m <= 12
        &&& 1 <= self.d <= days_in_month(self.y as int, self.m as int)
    }
}

/// Days since 1970-01-01 of a proleptic-Gregorian date, computed over
/// 400-year eras; the year is shifted by 1200000 (3000 eras) so every
/// division acts on nonnegative values.
pub open spec fn days_from_civil(y: int, m: int, d: int) -> int {
    let yy = (if m <= 2 {
        y - 1
    } else {
        y
    }) + 1200000;
    let era = yy / 400;
    let yoe = yy - era * 400;
    let mp = (m + 9) % 12;
    let doy = (153 * mp + 2) / 5 + d - 1;
    let doe = yoe * 365 + yoe / 4 - yoe / 100 + doy;
    era * 146097 + doe - 719468 - 438291000
}

/// Milliseconds since the epoch of a civil datetime.
pub open spec fn ms_of_civil(y: int, mo: int, d: int, h: int, mi: int, s: int) -> int {
    (days_from_civil(y, mo, d) * 86400 + h * 3600 + mi * 60 + s) * 1000
}

/// Day number of a date.
pub fn date_to_days(date: &Date) -> (r: i64)
    requires
        date.wf(),
    ensures
        r == days_from_civil(date.y as int, date.m as int, date.d as int),
{
    let y = date.y as i64;
    let m: u64 = date.m as u64;
    let d: u64 = date.d as u64;
    let yy: u64 = ((if m <= 2 {
        y - 1
    } else {
        y
    }) + 1200000) as u64;
    let era: u64 = yy / 400;
    let yoe: u64 = yy - era * 400;
    proof {
        vstd::arithmetic::div_mod::lemma_fundamental_div_mod(yy as int, 400);
        assert(era <= 5501) by {
            vstd::arithmetic::div_mod::lemma_div_is_ordered(yy as int, 2200001, 400);
        };
    }
    let mp: u64 = (m + 9) % 12;
    let doy: u64 = (153 * mp + 2) / 5 + d - 1;
    let doe: u64 = yoe * 365 + yoe / 4 - yoe / 100 + doy;
    (era * 146097 + doe) as i64 - 719468 - 438291000
}

/// What chrono's UTC decomposition of a millisecond timestamp returns:
/// year, month, day, hour, minute, second.
pub uninterp spec fn civil_of_ms(ms: int) -> Option<(i32, u8, u8, u8, u8, u8)>;

/// Relies on chrono's `Utc.timestamp_millis_opt` and the
/// `Datelike`/`Timelike` accessors: the proleptic-Gregorian UTC civil
/// decomposition of a count of non-leap milliseconds since
/// 1970-01-01 00:00:00 UTC, a function of `ms` alone; `None` only outside
/// chrono's representable range (years beyond about plus or minus 262000,
/// so every timestamp within a quarter million years of the epoch
/// decomposes).
#[verifier::external_body]
fn civil_from_ms(ms: i64) -> (r: Option<(i32, u8, u8, u8, u8, u8)>)
    ensures
        r == civil_of_ms(ms as int),
        -8000000000000000 <= ms <= 8000000000000000 ==> r is Some,
        r matches Some((y, mo, d, h, mi, s)) ==> {
            &&& -300000 <= y <= 300000
            &&& 1 <= mo <= 12
            &&& 1 <= d <= days_in_month(y as int, mo as int)
            &&& h < 24
            &&& mi < 60
            &&& s < 60
            &&& {
                let secs = days_from_civil(y as int, mo as int, d as int) * 86400 + (h as int)
                    * 3600 + (mi as int) * 60 + (s as int);
                secs * 1000 <= ms < secs * 1000 + 1000
            }
        },
{
    match chrono::Utc.timestamp_millis_opt(ms).single() {
        Some(dt) => Some(
            (
                dt.year(),
                dt.month() as u8,
                dt.day() as u8,
                dt.hour() as u8,
                dt.minute() as u8,
                dt.second() as u8,
            ),
        ),
        None => None,
    }
}

/// `YYYY-MM-DD` (the year in at least four digits).
pub open spec fn spec_date_chars(y: int, m: nat, d: nat) -> Seq<char> {
    spec_year_str(y) + seq!['-'] + spec_digits_padded(m, 2) + seq!['-'] + spec_digits_padded(d, 2)
}

/// `HH:MM:SS`.
pub open spec fn spec_time_chars(h: nat, mi: nat, s: nat) -> Seq<char> {
    spec_digits_padded(h, 2) + seq![':'] + spec_digits_padded(mi, 2) + seq![':']
        + spec_digits_padded(s, 2)
}

/// What `fmt_ts` renders: `YYYY-MM-DD HH:MM:SS` UTC when the timestamp has
/// a civil decomposition, the raw number otherwise.
pub open spec fn spec_fmt_ts(ms: int) -> Seq<char> {
    match civil_of_ms(ms) {
        Option::Some((y, mo, d, h, mi, s)) => spec_date_chars(y as int, mo as nat, d as nat)
            + seq![' '] + spec_time_chars(h as nat, mi as nat, s as nat),
        Option::None => spec_int_str(ms),
    }
}

/// Renders a date as `YYYY-MM-DD`.
pub fn date_to_string(date: &Date) -> (r: String)
    ensures
        r@ == spec_date_chars(date.y as int, date.m as nat, date.d as nat),
{
    let mut out = year_to_string(date.y);
    push_char(&mut out, '-');
    let mm = u128_to_string_padded(date.m as u128, 2);
    out.append(mm.as_str());
    push_char(&mut out, '-');
    let dd = u128_to_string_padded(date.d as u128, 2);
    out.append(dd.as_str());
    proof {
        assert(out@ =~= spec_date_chars(date.y as int, date.m as nat, date.d as nat));
    }
    out
}

/// Renders a millisecond timestamp as a UTC `YYYY-MM-DD HH:MM:SS` string,
/// or as the plain number when it has no civil decomposition.
pub fn fmt_ts(ms: i64) -> (r: String)
    ensures
        r@ == spec_fmt_ts(ms as int),
{
    match civil_from_ms(ms) {
        Some((y, mo, d, h, mi, s)) => {
            let date = Date { y, m: mo, d };
            let mut out = date_to_string(&date);
            push_char(&mut out, ' ');
            let hh = u128_to_string_padded(h as u128, 2);
            out.append(hh.as_str());
            push_char(&mut out, ':');
            let mm = u128_to_string_padded(mi as u128, 2);
            out.append(mm.as_str());
            push_char(&mut out, ':');
            let ss = u128_to_string_padded(s as u128, 2);
            out.append(ss.as_str());
            proof {
                assert(out@ =~= spec_fmt_ts(ms as int));
            }
            out
        },
        None => i64_to_string(ms),
    }
}

/// A value strictly bounding the magnitude of supported day numbers.
pub open spec fn days_magnitude_limit() -> int {
    1000000000
}

/// Day numbers of supported dates stay within one billion.
pub proof fn lemma_days_bound(y: int, m: int, d: int)
    requires
        -year_limit() <= y <= year_limit(),
        1 <= m <= 12,
        1 <= d <= 31,
    ensures
        -days_magnitude_limit() < days_from_civil(y, m, d) < days_magnitude_limit(),
{
    let yy = (if m <= 2 {
        y - 1
    } else {
        y
    }) + 1200000;
    vstd::arithmetic::div_mod::lemma_fundamental_div_mod(yy, 400);
    assert(yy / 400 <= 5501) by {
        vstd::arithmetic::div_mod::lemma_div_is_ordered(yy, 2200001, 400);
    };
    assert(yy / 400 >= 0) by {
        vstd::arithmetic::div_mod::lemma_div_is_ordered(0, yy, 400);
    };
    let mp = (m + 9) % 12;
    assert((153 * mp + 2) / 5 <= 337) by {
        vstd::arithmetic::div_mod::lemma_div_is_ordered(153 * mp + 2, 1685, 5);
    };
    assert((153 * mp + 2) / 5 >= 0) by {
        vstd::arithmetic::div_mod::lemma_div_is_ordered(0, 153 * mp + 2, 5);
    };
    let yoe = yy - (yy / 400) * 400;
    assert(yoe / 4 <= 99) by {
        vstd::arithmetic::div_mod::lemma_div_is_ordered(yoe, 399, 4);
    };
    assert(yoe / 4 >= 0) by {
        vstd::arithmetic::div_mod::lemma_div_is_ordered(0, yoe, 4);
    };
    assert(yoe / 100 <= 3) by {
        vstd::arithmetic::div_mod::lemma_div_is_ordered(yoe, 399, 100);
    };
    assert(yoe / 100 >= 0) by {
        vstd::arithmetic::div_mod::lemma_div_is_ordered(0, yoe, 100);
    };
}

/// The `YYYY-MM-DD` shape.
pub open spec fn date_shape(s: Seq<char>) -> bool {
    &&& s.len() == 10
    &&& (forall|i: int| 0 <= i < 4 ==> is_digit_char(#[trigger] s[i]))
    &&& s[4] == '-'
    &&& is_digit_char(s[5])
    &&& is_digit_char(s[6])
    &&& s[7] == '-'
    &&& is_digit_char(s[8])
    &&& is_digit_char(s[9])
}

/// The `HH:MM:SS` shape at offset `at`.
pub open spec fn time_shape(s: Seq<char>, at: int) -> bool {
    &&& s.len() >= at + 8
    &&& is_digit_char(s[at])
    &&& is_digit_char(s[at + 1])
    &&& s[at + 2] == ':'
    &&& is_digit_char(s[at + 3])
    &&& is_digit_char(s[at + 4])
    &&& s[at + 5] == ':'
    &&& is_digit_char(s[at + 6])
    &&& is_digit_char(s[at + 7])
}

/// The date written as `YYYY-MM-DD`, when the text has that shape and
/// names a real calendar date.
pub open spec fn spec_parse_date(s: Seq<char>) -> Option<(int, int, int)> {
    if date_shape(s) {
        let y = digits_val(s.subrange(0, 4)) as int;
        let m = digits_val(s.subrange(5, 7)) as int;
        let d = digits_val(s.subrange(8, 10)) as int;
        if 1 <= m <= 12 && 1 <= d <= days_in_month(y, m) {
            Some((y, m, d))
        } else {
            None
        }
    } else {
        None
    }
}

/// The UTC millisecond timestamp written as `YYYY-MM-DD HH:MM:SS`, or as a
/// bare `YYYY-MM-DD` (midnight); `None` when neither shape fits or a field
/// is out of range.
pub open spec fn spec_parse_datetime_ms(s: Seq<char>) -> Option<int> {
    if s.len() == 10 {
        match spec_parse_date(s) {
            Option::Some((y, m, d)) => Some(ms_of_civil(y, m, d, 0, 0, 0)),
            Option::None => None,
        }
    } else if s.len() == 19 && s[10] == ' ' && time_shape(s, 11) {
        match spec_parse_date(s.subrange(0, 10)) {
            Option::Some((y, m, d)) => {
                let h = digits_val(s.subrange(11, 13)) as int;
                let mi = digits_val(s.subrange(14, 16)) as int;
                let sec = digits_val(s.subrange(17, 19)) as int;
                if h < 24 && mi < 60 && sec < 60 {
                    Some(ms_of_civil(y, m, d, h, mi, sec))
                } else {
                    None
                }
            },
            Option::None => None,
        }
    } else {
        None
    }
}

/// Reads the number written by the (at most eight) digits in `[from, to)`.
fn read_number(s: &str, from: usize, to: usize) -> (r: Option<u64>)
    requires
        from <= to <= s@.len(),
        to - from <= 8,
    ensures
        r matches Some(v) ==> (forall|i: int| from <= i < to ==> is_digit_char(#[trigger] s@[i]))
            && v == digits_val(s@.subrange(from as int, to as int)) && v < crate::strnum::pow10(
            (to - from) as nat,
        ),
        r is None ==> !(forall|i: int| from <= i < to ==> is_digit_char(#[trigger] s@[i])),
{
    let mut j = from;
    let mut acc: u64 = 0;
    proof {
        assert(s@.subrange(from as int, from as int) =~= Seq::<char>::empty());
    }
    while j < to
        invariant
            from <= j <= to <= s@.len(),
            to - from <= 8,
            forall|i: int| from <= i < j ==> is_digit_char(#[trigger] s@[i]),
            acc == digits_val(s@.subrange(from as int, j as int)),
            acc < crate::strnum::pow10((j - from) as nat),
            crate::strnum::pow10((j - from) as nat) <= 100000000,
        decreases to - j,
    {
        let c = s.get_char(j);
        if !crate::decimal::is_digit(c) {
            return None;
        }
        let d = ((c as u32) - 48) as u8;
        let ghost cur = s@.subrange(from as int, j as int);
        proof {
            assert(s@.subrange(from as int, (j + 1) as int) =~= cur.push(s@[j as int]));
            crate::decimal::lemma_digits_val_push(cur, s@[j as int]);
            assert(crate::strnum::pow10(((j + 1) - from) as nat) == 10 * crate::strnum::pow10(
                (j - from) as nat,
            ));
            assert(crate::strnum::pow10(((j + 1) - from) as nat) <= 100000000) by {
                crate::strnum::lemma_pow10_monotone(((j + 1) - from) as nat, 8);
                assert(crate::strnum::pow10(8) == 100000000) by {
                    reveal_with_fuel(crate::strnum::pow10, 9);
                };
            };
        }
        acc = acc * 10 + d as u64;
        j = j + 1;
    }
    Some(acc)
}

fn days_in_month_exec(y: u64, m: u8) -> (r: u8)
    requires
        1 <= m <= 12,
    ensures
        r == days_in_month(y as int, m as int),
{
    if m == 2 {
        if y % 4 == 0 && (y % 100 != 0 || y % 400 == 0) {
            29
        } else {
            28
        }
    } else if m == 4 || m == 6 || m == 9 || m == 11 {
        30
    } else {
        31
    }
}

/// Parses `YYYY-MM-DD` into a date.
pub fn parse_date(s: &str) -> (r: Option<Date>)
    ensures
        match spec_parse_date(s@) {
            Option::Some((y, m, d)) => r matches Some(date) && date == (Date {
                y: y as i32,
                m: m as u8,
                d: d as u8,
            }) && date.wf() && 0 <= y <= 9999,
            Option::None => r is None,
        },
{
    let len = s.unicode_len();
    if len != 10 {
        return None;
    }
    if s.get_char(4) != '-' || s.get_char(7) != '-' {
        return None;
    }
    let y = match read_number(s, 0, 4) {
        Some(v) => v,
        None => {
            return None;
        },
    };
    proof {
        assert(crate::strnum::pow10(4) == 10000) by {
            reveal_with_fuel(crate::strnum::pow10, 5);
        };
    }
    let m = match read_number(s, 5, 7) {
        Some(v) => v,
        None => {
            return None;
        },
    };
    let d = match read_number(s, 8, 10) {
        Some(v) => v,
        None => {
            return None;
        },
    };
    if !(1 <= m && m <= 12) {
        return None;
    }
    if !(1 <= d && d <= days_in_month_exec(y, m as u8) as u64) {
        return None;
    }
    Some(Date { y: y as i32, m: m as u8, d: d as u8 })
}

/// Parses a UTC datetime (`YYYY-MM-DD HH:MM:SS`, or `YYYY-MM-DD` for
/// midnight) into milliseconds since the epoch.
#[verifier::rlimit(60)]
pub fn parse_datetime_ms(s: &str) -> (r: Option<i64>)
    ensures
        match spec_parse_datetime_ms(s@) {
            Option::Some(ms) => r == Some(ms as i64) && ms == ms as i64 as int,
            Option::None => r is None,
        },
{
    let len = s.unicode_len();
    if len == 10 {
        match parse_date(s) {
            Some(date) => Some(civil_to_ms(&date, 0, 0, 0)),
            None => None,
        }
    } else if len == 19 {
        if s.get_char(10) != ' ' {
            return None;
        }
        if s.get_char(13) != ':' || s.get_char(16) != ':' {
            return None;
        }
        let ghost whole = s@;
        let ghost datepart = s@.subrange(0, 10);
        let date_str = s.substring_char(0, 10);
        let date = match parse_date(date_str) {
            Some(date) => date,
            None => {
                return None;
            },
        };
        let h = match read_number(s, 11, 13) {
            Some(v) => v,
            None => {
                return None;
            },
        };
        let mi = match read_number(s, 14, 16) {
            Some(v) => v,
            None => {
                return None;
            },
        };
        let sec = match read_number(s, 17, 19) {
            Some(v) => v,
            None => {
                return None;
            },
        };
        if !(h < 24 && mi < 60 && sec < 60) {
            return None;
        }
        Some(civil_to_ms(&date, h as u8, mi as u8, sec as u8))
    } else {
        None
    }
}

/// Milliseconds since the epoch of a civil datetime.
fn civil_to_ms(date: &Date, h: u8, mi: u8, s: u8) -> (r: i64)
    requires
        date.wf(),
        h < 24,
        mi < 60,
        s < 60,
    ensures
        r == ms_of_civil(date.y as int, date.m as int, date.d as int, h as int, mi as int, s as int),
{
    proof {
        lemma_days_bound(date.y as int, date.m as int, date.d as int);
    }
    let days = date_to_days(date);
    (days * 86400 + h as i64 * 3600 + mi as i64 * 60 + s as i64) * 1000
}

/// The civil calendar day of a millisecond timestamp, when it has one.
pub fn day_of_ms(ms: i64) -> (r: Option<Date>)
    ensures
        match civil_of_ms(ms as int) {
            Option::Some((y, mo, d, h, mi, s)) => r matches Some(date) && date == (Date {
                y,
                m: mo,
                d,
            }) && date.wf(),
            Option::None => r is None,
        },
{
    match civil_from_ms(ms) {
        Some((y, mo, d, _h, _mi, _s)) => Some(Date { y, m: mo, d }),
        None => None,
    }
}

} // verus!
