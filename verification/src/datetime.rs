//! Calendar dates and clock times, parsed from `dd/mm/yyyy` and
//! `HH:MM:SS` text and reduced to milliseconds since the Unix epoch.
//!
//! The calendar is the proleptic Gregorian one, years 0 through 9999,
//! and a combined date and time is always read as UTC with no zone shift.

use vstd::prelude::*;

use crate::decimal::digits_value;
use crate::decimal::lemma_digits_val_bound;
use crate::error::EngineError;
use crate::text::all_digits;
use crate::text::digits_val;
use crate::text::pow10;
use crate::text::split_char;
use crate::text::split_on;
use crate::text::str_chars;

verus! {

/// Whether year `y` is a leap year.
pub open spec fn is_leap_year(y: int) -> bool {
    y % 4 == 0 && (y % 100 != 0 || y % 400 == 0)
}

/// Number of days in month `m` of year `y`.
pub open spec fn days_in_month(y: int, m: int) -> int {
    if m == 2 {
        if is_leap_year(y) {
            29
        } else {
            28
        }
    } else if m == 4 || m == 6 || m == 9 || m == 11 {
        30
    } else {
        31
    }
}

/// Whether `y-m-d` is a real calendar date within the supported years.
pub open spec fn valid_civil(y: int, m: int, d: int) -> bool {
    &&& 0 <= y <= 9999
    &&& 1 <= m <= 12
    &&& 1 <= d <= days_in_month(y, m)
}

/// Days from the Unix epoch to `y-m-d`, negative before 1970. The count
/// runs over eras of 400 years (146097 days each); the year is shifted by
/// one era so that every intermediate quantity stays non-negative.
pub open spec fn days_from_epoch(y: int, m: int, d: int) -> int {
    let yy = if m <= 2 {
        y + 399
    } else {
        y + 400
    };
    let era = yy / 400;
    let yoe = yy % 400;
    let mp = if m > 2 {
        m - 3
    } else {
        m + 9
    };
    let doy = (153 * mp + 2) / 5 + d - 1;
    let doe = yoe * 365 + yoe / 4 - yoe / 100 + doy;
    era * 146097 + doe - 865565
}

/// Milliseconds from the Unix epoch to the given UTC instant.
pub open spec fn civil_millis(y: int, m: int, d: int, h: int, mi: int, s: int) -> int {
    days_from_epoch(y, m, d) * 86400000 + (h * 3600 + mi * 60 + s) * 1000
}

/// A UTC instant with second precision.
#[derive(Debug, Clone, Copy, PartialEq, Eq, Structural)]
pub struct UtcDateTime {
    pub year: u32,
    pub month: u32,
    pub day: u32,
    pub hour: u32,
    pub minute: u32,
    pub second: u32,
}

impl UtcDateTime {
    /// Whether the fields denote a real date and clock time.
    pub open spec fn wf(self) -> bool {
        &&& valid_civil(self.year as int, self.month as int, self.day as int)
        &&& self.hour <= 23
        &&& self.minute <= 59
        &&& self.second <= 59
    }

    /// The instant's value in milliseconds since the Unix epoch.
    pub open spec fn millis_spec(self) -> int {
        civil_millis(
            self.year as int,
            self.month as int,
            self.day as int,
            self.hour as int,
            self.minute as int,
            self.second as int,
        )
    }

    /// Milliseconds since the Unix epoch of this instant.
    pub fn timestamp_millis(&self) -> (r: i64)
        requires
            self.wf(),
        ensures
            r == self.millis_spec(),
    {
        let y = self.year as u64;
        let m = self.month as u64;
        let d = self.day as u64;
        let yy: u64 = if m <= 2 {
            y + 399
        } else {
            y + 400
        };
        let era: u64 = yy / 400;
        let yoe: u64 = yy % 400;
        proof {
            vstd::arithmetic::div_mod::lemma_fundamental_div_mod(yy as int, 400);
        }
        let mp: u64 = if m > 2 {
            m - 3
        } else {
            m + 9
        };
        let doy: u64 = (153 * mp + 2) / 5 + d - 1;
        proof {
            vstd::arithmetic::div_mod::lemma_fundamental_div_mod((153 * mp + 2) as int, 5);
            vstd::arithmetic::div_mod::lemma_fundamental_div_mod(yoe as int, 4);
            vstd::arithmetic::div_mod::lemma_fundamental_div_mod(yoe as int, 100);
        }
        let doe: u64 = yoe * 365 + yoe / 4 - yoe / 100 + doy;
        let days: i64 = (era * 146097 + doe) as i64 - 865565;
        let time_ms: i64 = ((self.hour as u64 * 3600 + self.minute as u64 * 60
            + self.second as u64) * 1000) as i64;
        days * 86400000 + time_ms
    }
}

/// The pieces of a date string between `/` separators.
pub open spec fn date_parts(s: Seq<char>) -> Seq<Seq<char>> {
    split_on(s, '/')
}

/// Whether `s` is a well-formed `dd/mm/yyyy` date naming a real calendar
/// day: one- or two-digit day and month, four-digit year.
pub open spec fn valid_date_str(s: Seq<char>) -> bool {
    let p = date_parts(s);
    &&& p.len() == 3
    &&& all_digits(p[0]) && 1 <= p[0].len() <= 2
    &&& all_digits(p[1]) && 1 <= p[1].len() <= 2
    &&& all_digits(p[2]) && p[2].len() == 4
    &&& valid_civil(digits_val(p[2]), digits_val(p[1]), digits_val(p[0]))
}

pub open spec fn date_day(s: Seq<char>) -> int {
    digits_val(date_parts(s)[0])
}

pub open spec fn date_month(s: Seq<char>) -> int {
    digits_val(date_parts(s)[1])
}

pub open spec fn date_year(s: Seq<char>) -> int {
    digits_val(date_parts(s)[2])
}

/// The pieces of a time string between `:` separators.
pub open spec fn time_parts(s: Seq<char>) -> Seq<Seq<char>> {
    split_on(s, ':')
}

/// Whether `s` is a well-formed `HH:MM:SS` clock time: one- or two-digit
/// hour, minute and second within their ranges.
pub open spec fn valid_time_str(s: Seq<char>) -> bool {
    let p = time_parts(s);
    &&& p.len() == 3
    &&& all_digits(p[0]) && 1 <= p[0].len() <= 2 && digits_val(p[0]) <= 23
    &&& all_digits(p[1]) && 1 <= p[1].len() <= 2 && digits_val(p[1]) <= 59
    &&& all_digits(p[2]) && 1 <= p[2].len() <= 2 && digits_val(p[2]) <= 59
}

pub open spec fn time_hour(s: Seq<char>) -> int {
    digits_val(time_parts(s)[0])
}

pub open spec fn time_minute(s: Seq<char>) -> int {
    digits_val(time_parts(s)[1])
}

pub open spec fn time_second(s: Seq<char>) -> int {
    digits_val(time_parts(s)[2])
}

/// The detail carried by a date parse error for input `s`.
pub open spec fn date_err_detail(s: Seq<char>) -> Seq<char> {
    "Failed to parse date '"@ + s + "'"@
}

/// The detail carried by a time parse error for input `s`.
pub open spec fn time_err_detail(s: Seq<char>) -> Seq<char> {
    "Failed to parse time '"@ + s + "'"@
}

/// Digit value of a short part. Reports whether the part is all digits
/// and, if so, its value.
fn part_digits(s: &str) -> (r: (bool, u64))
    requires
        s@.len() <= 4,
    ensures
        r.0 == all_digits(s@),
        r.0 ==> r.1 == digits_val(s@) && r.1 <= 9999,
{
    let cs = str_chars(s);
    let n = cs.len();
    proof {
        assert(cs@.subrange(0, n as int) =~= s@);
    }
    let (ok, over, val) = digits_value(&cs, 0, n);
    proof {
        if ok {
            lemma_digits_val_bound(s@);
            reveal_with_fuel(pow10, 8);
            assert(pow10(s@.len() as nat) <= pow10(4)) by {
                if s@.len() == 0 {
                } else if s@.len() == 1 {
                } else if s@.len() == 2 {
                } else if s@.len() == 3 {
                }
            }
        }
    }
    (ok, val)
}

/// Number of days in month `m` of year `y`.
fn days_in_month_exec(y: u64, m: u64) -> (r: u64)
    requires
        1 <= m <= 12,
    ensures
        r == days_in_month(y as int, m as int),
{
    if m == 2 {
        if y % 4 == 0 && (y % 100 != 0 || y % 400 == 0) {
            29
        } else {
            28
        }
    } else if m == 4 || m == 6 || m == 9 || m == 11 {
        30
    } else {
        31
    }
}

/// The parse-failure detail for a date input.
fn date_err_string(s: &str) -> (r: String)
    ensures
        r@ == date_err_detail(s@),
{
    let mut m = String::from_str("Failed to parse date '");
    m.append(s);
    m.append("'");
    m
}

/// The parse-failure detail for a time input.
fn time_err_string(s: &str) -> (r: String)
    ensures
        r@ == time_err_detail(s@),
{
    let mut m = String::from_str("Failed to parse time '");
    m.append(s);
    m.append("'");
    m
}

/// Parses a `dd/mm/yyyy` date and an `HH:MM:SS` time into one UTC
/// instant. Succeeds exactly on well-formed values that name a real
/// calendar day and clock time; the date is checked first.
pub fn parse_datetime(date_str: &str, time_str: &str) -> (r: Result<UtcDateTime, EngineError>)
    ensures
        r is Ok <==> valid_date_str(date_str@) && valid_time_str(time_str@),
        r matches Ok(dt) ==> {
            &&& dt.wf()
            &&& dt.year == date_year(date_str@)
            &&& dt.month == date_month(date_str@)
            &&& dt.day == date_day(date_str@)
            &&& dt.hour == time_hour(time_str@)
            &&& dt.minute == time_minute(time_str@)
            &&& dt.second == time_second(time_str@)
        },
        r matches Err(e) ==> e matches EngineError::CsvDataFormatError(m) && m@
            == if valid_date_str(date_str@) {
            time_err_detail(time_str@)
        } else {
            date_err_detail(date_str@)
        },
{
    let dp = split_char(date_str, '/');
    let ghost dps = date_parts(date_str@);
    proof {
        assert(dp@.map_values(|p: &str| p@).len() == dp@.len());
    }
    if dp.len() != 3 {
        return Err(EngineError::CsvDataFormatError(date_err_string(date_str)));
    }
    proof {
        assert(dp@[0]@ == dps[0] && dp@[1]@ == dps[1] && dp@[2]@ == dps[2]);
    }
    let d_len = dp[0].unicode_len();
    let m_len = dp[1].unicode_len();
    let y_len = dp[2].unicode_len();
    if d_len < 1 || d_len > 2 || m_len < 1 || m_len > 2 || y_len != 4 {
        return Err(EngineError::CsvDataFormatError(date_err_string(date_str)));
    }
    let (d_ok, d) = part_digits(dp[0]);
    let (m_ok, m) = part_digits(dp[1]);
    let (y_ok, y) = part_digits(dp[2]);
    if !d_ok || !m_ok || !y_ok {
        return Err(EngineError::CsvDataFormatError(date_err_string(date_str)));
    }
    if m < 1 || m > 12 || d < 1 || d > days_in_month_exec(y, m) {
        return Err(EngineError::CsvDataFormatError(date_err_string(date_str)));
    }
    assert(valid_date_str(date_str@));

    let tp = split_char(time_str, ':');
    let ghost tps = time_parts(time_str@);
    proof {
        assert(tp@.map_values(|p: &str| p@).len() == tp@.len());
    }
    if tp.len() != 3 {
        return Err(EngineError::CsvDataFormatError(time_err_string(time_str)));
    }
    proof {
        assert(tp@[0]@ == tps[0] && tp@[1]@ == tps[1] && tp@[2]@ == tps[2]);
    }
    let h_len = tp[0].unicode_len();
    let mi_len = tp[1].unicode_len();
    let s_len = tp[2].unicode_len();
    if h_len < 1 || h_len > 2 || mi_len < 1 || mi_len > 2 || s_len < 1 || s_len > 2 {
        return Err(EngineError::CsvDataFormatError(time_err_string(time_str)));
    }
    let (h_ok, h) = part_digits(tp[0]);
    let (mi_ok, mi) = part_digits(tp[1]);
    let (s_ok, s) = part_digits(tp[2]);
    if !h_ok || !mi_ok || !s_ok {
        return Err(EngineError::CsvDataFormatError(time_err_string(time_str)));
    }
    if h > 23 || mi > 59 || s > 59 {
        return Err(EngineError::CsvDataFormatError(time_err_string(time_str)));
    }
    Ok(
        UtcDateTime {
            year: y as u32,
            month: m as u32,
            day: d as u32,
            hour: h as u32,
            minute: mi as u32,
            second: s as u32,
        },
    )
}

} // verus!
