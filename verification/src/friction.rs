//! Friction record tool rules: month filters, paging and what an update
//! must change.
use vstd::prelude::*;

use chrono::TimeZone;

use crate::decimal::{all_digits, dec_value, parse_u64, parse_u64_chars};
use crate::error::OrbitError;
use crate::json::{JsonValue, json_get};
use crate::session_log::{Timestamp, parse_rfc3339, rfc3339_instant};
use crate::text::{chars_of, copy_string, push_str, trim, trimmed};

verus! {

/// A Gregorian leap year.
pub open spec fn is_leap(y: int) -> bool {
    (y % 4 == 0 && y % 100 != 0) || y % 400 == 0
}

pub open spec fn year_days(y: int) -> int {
    if is_leap(y) {
        366
    } else {
        365
    }
}

/// Days from 1970-01-01 to January 1st of year `y` (negative before 1970),
/// in the proleptic Gregorian calendar.
pub open spec fn days_to_year(y: int) -> int
    decreases (if y >= 1970 {
        y - 1970
    } else {
        1970 - y
    }),
{
    if y == 1970 {
        0
    } else if y > 1970 {
        days_to_year(y - 1) + year_days(y - 1)
    } else {
        days_to_year(y + 1) - year_days(y)
    }
}

pub open spec fn month_days(y: int, m: int) -> int {
    if m == 2 {
        if is_leap(y) {
            29
        } else {
            28
        }
    } else if m == 4 || m == 6 || m == 9 || m == 11 {
        30
    } else {
        31
    }
}

/// Days from January 1st to the first of month `m` of year `y`.
pub open spec fn days_to_month(y: int, m: int) -> int
    decreases m,
{
    if m <= 1 {
        0
    } else {
        days_to_month(y, m - 1) + month_days(y, m - 1)
    }
}

/// Seconds since the Unix epoch at midnight UTC on the first of month `m`
/// of year `y`.
pub open spec fn month_start_secs(y: int, m: int) -> int {
    (days_to_year(y) + days_to_month(y, m)) * 86400
}

/// Between year 0 and year 10001 the day count stays within a few million.
pub proof fn lemma_days_to_year_bounds(y: int)
    requires
        0 <= y <= 10001,
    ensures
        -800_000 <= days_to_year(y) <= 3_000_000,
        y >= 1970 ==> days_to_year(y) >= 365 * (y - 1970),
        y >= 1970 ==> days_to_year(y) <= 366 * (y - 1970),
        y < 1970 ==> days_to_year(y) <= 365 * (y - 1970),
        y < 1970 ==> days_to_year(y) >= 366 * (y - 1970),
    decreases (if y >= 1970 {
        y - 1970
    } else {
        1970 - y
    }),
{
    if y > 1970 {
        lemma_days_to_year_bounds(y - 1);
    } else if y < 1970 {
        lemma_days_to_year_bounds(y + 1);
    }
}

pub proof fn lemma_days_to_month_bounds(y: int, m: int)
    requires
        1 <= m <= 12,
    ensures
        0 <= days_to_month(y, m) <= 31 * (m - 1),
    decreases m,
{
    if m > 1 {
        lemma_days_to_month_bounds(y, m - 1);
    }
}

/// Midnight of the first of a month between year 0 and year 10001 is
/// within a trillion seconds of the epoch.
pub proof fn lemma_month_start_bounds(y: int, m: int)
    requires
        0 <= y <= 10001,
        1 <= m <= 12,
    ensures
        -1_000_000_000_000 < month_start_secs(y, m) < 1_000_000_000_000,
{
    lemma_days_to_year_bounds(y);
    lemma_days_to_month_bounds(y, m);
    let d = days_to_year(y) + days_to_month(y, m);
    assert(-800_000 <= d <= 3_000_341);
    assert(-1_000_000_000_000 < d * 86400 < 1_000_000_000_000) by (nonlinear_arith)
        requires
            -800_000 <= d <= 3_000_341,
    ;
}

/// Calls `Utc.with_ymd_and_hms(year, month, 1, 0, 0, 0).single()` and
/// reports the instant as `timestamp()`. chrono documents the proleptic
/// Gregorian calendar with UTC's single mapping; the claim is that the
/// instant is midnight of that day, `month_start_secs(year, month)`.
#[verifier::external_body]
fn utc_month_start(year: i32, month: u32) -> (r: Option<i64>)
    requires
        0 <= year <= 10000,
        1 <= month <= 12,
    ensures
        r == Some(month_start_secs(year as int, month as int) as i64),
{
    chrono::Utc.with_ymd_and_hms(year, month, 1, 0, 0, 0).single().map(|dt| dt.timestamp())
}

/// A `YYYY-MM` filter: four digits, a dash, two digits.
pub open spec fn month_format_ok(raw: Seq<char>) -> bool {
    raw.len() == 7 && raw[4] == '-' && all_digits(raw.take(4)) && all_digits(raw.skip(5))
}

/// The first and last instants of a `YYYY-MM` month.
pub open spec fn month_bounds_spec(raw: Seq<char>) -> Result<(Timestamp, Timestamp), Seq<char>> {
    if !month_format_ok(raw) {
        Err("`month` must be in YYYY-MM format, got '"@ + raw + "'"@)
    } else {
        let y = dec_value(raw.take(4)) as int;
        let m = dec_value(raw.skip(5)) as int;
        if !(1 <= m <= 12) {
            Err("`month` component must be 01-12, got '"@ + raw + "'"@)
        } else {
            let (ny, nm) = if m == 12 {
                (y + 1, 1)
            } else {
                (y, m + 1)
            };
            Ok(
                (
                    Timestamp { secs: month_start_secs(y, m) as i64, nanos: 0 },
                    Timestamp { secs: (month_start_secs(ny, nm) - 1) as i64, nanos: 999_999_999 },
                ),
            )
        }
    }
}

fn digits_value(cs: &Vec<char>, lo: usize, hi: usize) -> (v: u32)
    requires
        lo <= hi <= cs.len(),
        hi - lo <= 4,
        all_digits(cs@.subrange(lo as int, hi as int)),
    ensures
        v == dec_value(cs@.subrange(lo as int, hi as int)),
        v < 10000,
{
    let mut v: u32 = 0;
    let mut i: usize = lo;
    while i < hi
        invariant
            lo <= i <= hi <= cs.len(),
            hi - lo <= 4,
            all_digits(cs@.subrange(lo as int, hi as int)),
            v == dec_value(cs@.subrange(lo as int, i as int)),
            v < if i - lo == 0 {
                1u32
            } else if i - lo == 1 {
                10u32
            } else if i - lo == 2 {
                100u32
            } else if i - lo == 3 {
                1000u32
            } else {
                10000u32
            },
        decreases hi - i,
    {
        let ghost pre = cs@.subrange(lo as int, i as int);
        let ghost post = cs@.subrange(lo as int, i + 1);
        assert(post.drop_last() =~= pre);
        assert(cs@.subrange(lo as int, hi as int)[i - lo] == cs@[i as int]);
        let d: u32 = cs[i] as u32 - '0' as u32;
        v = v * 10 + d;
        i += 1;
    }
    v
}

fn quoted(prefix: &str, raw: &str) -> (m: String)
    ensures
        m@ == prefix@ + raw@ + "'"@,
{
    let mut m = copy_string(prefix);
    push_str(&mut m, raw);
    push_str(&mut m, "'");
    m
}

/// The first and last instants (inclusive) of the month a `YYYY-MM` filter
/// names.
pub fn parse_month_bounds(raw: &str) -> (r: Result<(Timestamp, Timestamp), OrbitError>)
    ensures
        match month_bounds_spec(raw@) {
            Ok(b) => r == Ok::<(Timestamp, Timestamp), OrbitError>(b),
            Err(m) => r matches Err(OrbitError::InvalidInput(x)) && x@ == m,
        },
{
    let cs = chars_of(raw);
    let mut ok = cs.len() == 7 && cs[4] == '-';
    let mut i: usize = 0;
    while ok && i < 7
        invariant
            cs@ == raw@,
            ok ==> cs.len() == 7 && cs@[4] == '-',
            ok ==> forall|k: int| 0 <= k < i && k != 4 ==> crate::decimal::is_digit(#[trigger] cs@[k]),
            !ok ==> !month_format_ok(raw@),
            i <= 7,
        decreases 7 - i,
    {
        if i != 4 && !('0' <= cs[i] && cs[i] <= '9') {
            proof {
                if i < 4 {
                    assert(raw@.take(4)[i as int] == cs@[i as int]);
                } else {
                    assert(raw@.skip(5)[i - 5] == cs@[i as int]);
                }
            }
            ok = false;
        }
        i += 1;
    }
    if !ok {
        return Err(OrbitError::InvalidInput(quoted("`month` must be in YYYY-MM format, got '", raw)));
    }
    assert(cs@.subrange(0, 4) =~= raw@.take(4));
    assert(cs@.subrange(5, 7) =~= raw@.skip(5));
    assert(all_digits(cs@.subrange(0, 4))) by {
        assert forall|k: int| 0 <= k < 4 implies crate::decimal::is_digit(#[trigger] cs@.subrange(0, 4)[k]) by {
            assert(cs@.subrange(0, 4)[k] == cs@[k]);
        }
    }
    assert(all_digits(cs@.subrange(5, 7))) by {
        assert forall|k: int| 0 <= k < 2 implies crate::decimal::is_digit(#[trigger] cs@.subrange(5, 7)[k]) by {
            assert(cs@.subrange(5, 7)[k] == cs@[k + 5]);
        }
    }
    assert(month_format_ok(raw@));
    let year = digits_value(&cs, 0, 4);
    let month = digits_value(&cs, 5, 7);
    if !(1 <= month && month <= 12) {
        return Err(OrbitError::InvalidInput(quoted("`month` component must be 01-12, got '", raw)));
    }
    proof {
        lemma_month_start_bounds(year as int, month as int);
        if month == 12 {
            lemma_month_start_bounds(year + 1, 1);
        } else {
            lemma_month_start_bounds(year as int, month + 1);
        }
    }
    let start = match utc_month_start(year as i32, month) {
        Some(s) => s,
        None => {
            return Err(OrbitError::InvalidInput(quoted("invalid `month`: ", raw)));
        },
    };
    let (ny, nm) = if month == 12 {
        (year + 1, 1u32)
    } else {
        (year, month + 1)
    };
    let next = match utc_month_start(ny as i32, nm) {
        Some(s) => s,
        None => {
            return Err(OrbitError::InvalidInput(quoted("invalid `month`: ", raw)));
        },
    };
    Ok((Timestamp { secs: start, nanos: 0 }, Timestamp { secs: next - 1, nanos: 999_999_999 }))
}

/// `field` when absent or `null` is no value; a number or a numeric string
/// (trimmed) is its `u64`; anything else is refused.
pub open spec fn optional_usize_spec(input: JsonValue, field: Seq<char>) -> Result<Option<usize>, Seq<char>> {
    match json_get(input, field) {
        None => Ok(None),
        Some(JsonValue::Null) => Ok(None),
        Some(v) => {
            let n = match v {
                JsonValue::UInt(n) => Some(n),
                JsonValue::Int(n) => if n >= 0 {
                    Some(n as u64)
                } else {
                    None
                },
                JsonValue::Str(s) => parse_u64(trim(s@)),
                _ => None,
            };
            match n {
                Some(n) => Ok(Some(n as usize)),
                None => Err("`"@ + field + "` must be a non-negative integer"@),
            }
        },
    }
}

pub fn optional_usize(input: &JsonValue, field: &str) -> (r: Result<Option<usize>, OrbitError>)
    ensures
        match optional_usize_spec(*input, field@) {
            Ok(v) => r == Ok::<Option<usize>, OrbitError>(v),
            Err(m) => r matches Err(OrbitError::InvalidInput(x)) && x@ == m,
        },
{
    let v = match input.get(field) {
        None => {
            return Ok(None);
        },
        Some(v) => v,
    };
    let n: Option<u64> = match v {
        JsonValue::Null => {
            return Ok(None);
        },
        JsonValue::UInt(n) => Some(*n),
        JsonValue::Int(n) => if *n >= 0 {
            Some(*n as u64)
        } else {
            None
        },
        JsonValue::Str(s) => {
            let t = trimmed(s.as_str());
            let tc = chars_of(t.as_str());
            parse_u64_chars(tc.as_slice())
        },
        _ => None,
    };
    match n {
        Some(n) => Ok(Some(#[verifier::truncate] (n as usize))),
        None => {
            let mut m = copy_string("`");
            push_str(&mut m, field);
            push_str(&mut m, "` must be a non-negative integer");
            Err(OrbitError::InvalidInput(m))
        },
    }
}

/// The positions `[start, end)` of the page `skip(offset).take(limit)` of
/// `len` records.
pub fn page_bounds(len: usize, offset: usize, limit: Option<usize>) -> (r: (usize, usize))
    ensures
        r.0 == if offset < len {
            offset
        } else {
            len
        },
        r.1 == match limit {
            Some(l) => if r.0 + l < len {
                (r.0 + l) as usize
            } else {
                len
            },
            None => len,
        },
{
    let start = if offset < len {
        offset
    } else {
        len
    };
    let end = match limit {
        Some(l) => if l < len - start {
            start + l
        } else {
            len
        },
        None => len,
    };
    (start, end)
}

/// A listing bound: the explicit RFC 3339 value of `field` when given,
/// else the month bound.
pub fn list_bound(field: &str, raw: Option<&str>, month_bound: Option<Timestamp>) -> (r: Result<
    Option<Timestamp>,
    OrbitError,
>)
    ensures
        match raw {
            None => r == Ok::<Option<Timestamp>, OrbitError>(month_bound),
            Some(t) => match rfc3339_instant(t@) {
                Ok(p) => r == Ok::<Option<Timestamp>, OrbitError>(
                    Some(Timestamp { secs: p.0, nanos: p.1 }),
                ),
                Err(e) => r matches Err(OrbitError::InvalidInput(x)) && x@ == "`"@ + field@
                    + "` must be RFC3339: "@ + e,
            },
        },
{
    match raw {
        None => Ok(month_bound),
        Some(t) => match parse_rfc3339(t) {
            Ok(p) => Ok(Some(Timestamp { secs: p.0, nanos: p.1 })),
            Err(e) => {
                let mut m = copy_string("`");
                push_str(&mut m, field);
                push_str(&mut m, "` must be RFC3339: ");
                push_str(&mut m, e.as_str());
                Err(OrbitError::InvalidInput(m))
            },
        },
    }
}

/// How an update treats the title: absent leaves it; blank clears it so it
/// is derived from the body again; anything else sets it.
#[derive(Debug, Clone, Copy, PartialEq, Eq, Structural)]
pub enum TitleChange {
    Keep,
    Clear,
    Replace,
}

pub fn title_change(raw: Option<&str>) -> (r: TitleChange)
    ensures
        r == match raw {
            None => TitleChange::Keep,
            Some(t) => if trim(t@).len() == 0 {
                TitleChange::Clear
            } else {
                TitleChange::Replace
            },
        },
{
    match raw {
        None => TitleChange::Keep,
        Some(t) => if trimmed(t).as_str().is_empty() {
            TitleChange::Clear
        } else {
            TitleChange::Replace
        },
    }
}

/// A friction record update must change its status, tags, body or title.
pub fn check_record_update(has_status: bool, has_tags: bool, has_body: bool, title: TitleChange) -> (r:
    Result<(), OrbitError>)
    ensures
        (has_status || has_tags || has_body || title != TitleChange::Keep) ==> r is Ok,
        !(has_status || has_tags || has_body || title != TitleChange::Keep) ==> (r matches Err(
            OrbitError::InvalidInput(m),
        ) && m@ == "orbit.friction.update requires `status`, `tags`, `body`, or `title`"@),
{
    if !has_status && !has_tags && !has_body && title == TitleChange::Keep {
        Err(
            OrbitError::InvalidInput(
                copy_string("orbit.friction.update requires `status`, `tags`, `body`, or `title`"),
            ),
        )
    } else {
        Ok(())
    }
}

} // verus!
