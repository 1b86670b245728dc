//! Issuance timestamps: parsing the wire format's date-time strings into
//! Unix seconds, and the freshness rule over them. A date is modelled as
//! plain values (year, month, day) mapped to a day number by the standard
//! civil-calendar formula.

use vstd::prelude::*;
use vstd::utf8::encode_utf8;

verus! {

/// A year divisible by 4, except centuries not divisible by 400.
pub open spec fn is_leap_year(y: int) -> bool {
    y % 4 == 0 && (y % 100 != 0 || y % 400 == 0)
}

/// Days in a month of the proleptic Gregorian calendar.
pub open spec fn days_in_month(y: int, m: int) -> int
    recommends
        1 <= m <= 12,
{
    if m == 1 || m == 3 || m == 5 || m == 7 || m == 8 || m == 10 || m == 12 {
        31
    } else if m == 2 {
        if is_leap_year(y) {
            29
        } else {
            28
        }
    } else {
        30
    }
}

/// Days since 1970-01-01 of the civil date (y, m, d), by the standard
/// era-based formula over the proleptic Gregorian calendar. The year is
/// shifted by 400 (exactly one 146097-day era) so every intermediate
/// quantity stays non-negative.
pub open spec fn days_from_civil(y: int, m: int, d: int) -> int
    recommends
        0 <= y <= 9999,
        1 <= m <= 12,
        1 <= d <= 31,
{
    let yy = if m <= 2 {
        y + 399
    } else {
        y + 400
    };
    let era = yy / 400;
    let yoe = yy % 400;
    let mp = if m > 2 {
        m - 3
    } else {
        m + 9
    };
    let doy = (153 * mp + 2) / 5 + d - 1;
    let doe = yoe * 365 + yoe / 4 - yoe / 100 + doy;
    era * 146097 + doe - 719468 - 146097
}

/// The value of two decimal digit bytes at `i`.
pub open spec fn spec_two_digits(s: Seq<u8>, i: int) -> Option<int> {
    if 0 <= i && i + 2 <= s.len() && crate::json::is_digit(s[i]) && crate::json::is_digit(
        s[i + 1],
    ) {
        Some((s[i] - 0x30) * 10 + (s[i + 1] - 0x30))
    } else {
        None
    }
}

/// First position at or after `i` holding no decimal digit.
pub open spec fn spec_skip_digits(s: Seq<u8>, i: int) -> int
    recommends
        0 <= i <= s.len(),
    decreases s.len() - i,
        when 0 <= i <= s.len()
{
    if i >= s.len() {
        i
    } else if crate::json::is_digit(s[i]) {
        spec_skip_digits(s, i + 1)
    } else {
        i
    }
}

/// The timestamp grammar: `YYYY-MM-DDTHH:MM:SS` (the `T` in either case),
/// an optional fraction of a second (ignored), then `Z` or a `±HH:MM`
/// offset. The result is the Unix
/// second the string names, or nothing when the string is malformed or
/// names no real calendar date or time of day.
pub open spec fn spec_parse_rfc3339(s: Seq<u8>) -> Option<i64> {
    if s.len() < 20 {
        None
    } else {
        match (spec_two_digits(s, 0), spec_two_digits(s, 2), spec_two_digits(s, 5), spec_two_digits(
            s,
            8,
        ), spec_two_digits(s, 11), spec_two_digits(s, 14), spec_two_digits(s, 17)) {
            (Some(y_hi), Some(y_lo), Some(mo), Some(dy), Some(hh), Some(mi), Some(ss)) => {
                let y = y_hi * 100 + y_lo;
                if s[4] == 0x2d && s[7] == 0x2d && (s[10] == 0x54 || s[10] == 0x74) && s[13]
                    == 0x3a && s[16] == 0x3a && 1 <= mo <= 12 && 1 <= dy
                    <= days_in_month(y, mo) && hh <= 23 && mi <= 59 && ss <= 60 {
                    let p = if s[19] == 0x2e {
                        if 20 < s.len() && crate::json::is_digit(s[20]) {
                            spec_skip_digits(s, 20)
                        } else {
                            -1
                        }
                    } else {
                        19
                    };
                    if p < 0 || p >= s.len() {
                        None
                    } else {
                        let base = days_from_civil(y, mo, dy) * 86400 + hh * 3600 + mi * 60 + ss;
                        if (s[p] == 0x5a || s[p] == 0x7a) && p + 1 == s.len() {
                            Some(base as i64)
                        } else if (s[p] == 0x2b || s[p] == 0x2d) && p + 6 == s.len() && s[p + 3]
                            == 0x3a {
                            match (spec_two_digits(s, p + 1), spec_two_digits(s, p + 4)) {
                                (Some(oh), Some(om)) => {
                                    if oh <= 23 && om <= 59 {
                                        let off = oh * 3600 + om * 60;
                                        if s[p] == 0x2b {
                                            Some((base - off) as i64)
                                        } else {
                                            Some((base + off) as i64)
                                        }
                                    } else {
                                        None
                                    }
                                },
                                _ => None,
                            }
                        } else {
                            None
                        }
                    }
                } else {
                    None
                }
            },
            _ => None,
        }
    }
}

fn two_digits(s: &Vec<u8>, i: usize) -> (r: Option<u32>)
    requires
        i <= s@.len(),
    ensures
        r is Some <==> spec_two_digits(s@, i as int) is Some,
        r is Some ==> r.unwrap() == spec_two_digits(s@, i as int).unwrap(),
        r is Some ==> r.unwrap() <= 99,
{
    if s.len() - i >= 2 {
        let a = s[i];
        let b = s[i + 1];
        if a >= 0x30 && a <= 0x39 && b >= 0x30 && b <= 0x39 {
            return Some(((a - 0x30) as u32) * 10 + ((b - 0x30) as u32));
        }
    }
    None
}

fn skip_digits(s: &Vec<u8>, i: usize) -> (r: usize)
    requires
        i <= s@.len(),
    ensures
        r == spec_skip_digits(s@, i as int),
        i <= r <= s@.len(),
    decreases s@.len() - i,
{
    if i >= s.len() {
        i
    } else {
        let b = s[i];
        if b >= 0x30 && b <= 0x39 {
            skip_digits(s, i + 1)
        } else {
            i
        }
    }
}

/// Days since 1970-01-01 of the civil date (y, m, d).
fn civil_days(y: u32, m: u32, d: u32) -> (r: i64)
    requires
        y <= 9999,
        1 <= m <= 12,
        1 <= d <= 31,
    ensures
        r == days_from_civil(y as int, m as int, d as int),
{
    let yy: u64 = if m <= 2 {
        y as u64 + 399
    } else {
        y as u64 + 400
    };
    let era: u64 = yy / 400;
    let yoe: u64 = yy % 400;
    let mp: u64 = if m > 2 {
        m as u64 - 3
    } else {
        m as u64 + 9
    };
    let doy: u64 = (153 * mp + 2) / 5 + d as u64 - 1;
    let doe: u64 = yoe * 365 + yoe / 4 - yoe / 100 + doy;
    assert(yoe < 400);
    assert(yoe / 4 <= 100 && yoe / 100 <= 4);
    assert(era <= 25);
    (era * 146097 + doe) as i64 - 719468 - 146097
}

/// Parses the issuance timestamp into Unix seconds, exactly as the grammar
/// names it; a malformed string or an impossible date yields nothing.
#[verifier::rlimit(100)]
pub fn parse_rfc3339(ts: &str) -> (r: Option<i64>)
    ensures
        r == spec_parse_rfc3339(encode_utf8(ts@)),
{
    let s = ts.as_bytes_vec();
    if s.len() < 20 {
        return None;
    }
    let y_hi = two_digits(&s, 0);
    let y_lo = two_digits(&s, 2);
    let mo = two_digits(&s, 5);
    let dy = two_digits(&s, 8);
    let hh = two_digits(&s, 11);
    let mi = two_digits(&s, 14);
    let ss = two_digits(&s, 17);
    match (y_hi, y_lo, mo, dy, hh, mi, ss) {
        (Some(y_hi), Some(y_lo), Some(mo), Some(dy), Some(hh), Some(mi), Some(ss)) => {
            let y = y_hi * 100 + y_lo;
            let sep_ok = s[4] == 0x2d && s[7] == 0x2d && (s[10] == 0x54 || s[10] == 0x74)
                && s[13] == 0x3a && s[16] == 0x3a;
            if !sep_ok || mo < 1 || mo > 12 {
                return None;
            }
            let dim = days_in_month_exec(y, mo);
            if !(1 <= dy && dy <= dim && hh <= 23 && mi <= 59 && ss <= 60) {
                return None;
            }
            let p: usize = if s[19] == 0x2e {
                if 20 < s.len() && s[20] >= 0x30 && s[20] <= 0x39 {
                    skip_digits(&s, 20)
                } else {
                    return None;
                }
            } else {
                19
            };
            if p >= s.len() {
                return None;
            }
            let base: i64 = civil_days(y, mo, dy) * 86400 + hh as i64 * 3600 + mi as i64 * 60
                + ss as i64;
            let tail = s[p];
            if (tail == 0x5a || tail == 0x7a) && p + 1 == s.len() {
                Some(base)
            } else if (tail == 0x2b || tail == 0x2d) && s.len() - p == 6 && s[p + 3] == 0x3a {
                match (two_digits(&s, p + 1), two_digits(&s, p + 4)) {
                    (Some(oh), Some(om)) => {
                        if oh <= 23 && om <= 59 {
                            let off: i64 = oh as i64 * 3600 + om as i64 * 60;
                            if tail == 0x2b {
                                Some(base - off)
                            } else {
                                Some(base + off)
                            }
                        } else {
                            None
                        }
                    },
                    _ => None,
                }
            } else {
                None
            }
        },
        _ => None,
    }
}

fn days_in_month_exec(y: u32, m: u32) -> (r: u32)
    requires
        1 <= m <= 12,
    ensures
        r == days_in_month(y as int, m as int),
{
    if m == 1 || m == 3 || m == 5 || m == 7 || m == 8 || m == 10 || m == 12 {
        31
    } else if m == 2 {
        if y % 4 == 0 && (y % 100 != 0 || y % 400 == 0) {
            29
        } else {
            28
        }
    } else {
        30
    }
}

/// The freshness rule: a notification issued at Unix second `ts` is fresh
/// at Unix second `now` exactly when it is no more than one day — 86400
/// seconds — in the past. A timestamp in the future is fresh.
pub open spec fn spec_fresh(ts: int, now: int) -> bool {
    now - ts <= 86400
}

/// Decides freshness; exact for every pair of 64-bit second counts.
pub fn is_fresh(ts: i64, now: i64) -> (r: bool)
    ensures
        r == spec_fresh(ts as int, now as int),
{
    match now.checked_sub(ts) {
        Some(d) => d <= 86400,
        None => ts > 0,
    }
}

} // verus!
