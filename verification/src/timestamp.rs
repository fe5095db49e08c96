//! RFC 3339 timestamps, read as Unix seconds.
//!
//! Deliberately tiny: the only consumers are the lifetimes of two tokens, and a
//! date-time dependency would be out of proportion.

use vstd::prelude::*;
use vstd::utf8::encode_utf8;

use crate::clock::seconds_since_epoch;

verus! {

/// Whether a byte is an ASCII digit.
pub open spec fn is_digit_byte(b: u8) -> bool {
    48 <= b <= 57
}

/// The number that ASCII digits stand for.
pub open spec fn bytes_value(s: Seq<u8>) -> int
    decreases s.len(),
{
    if s.len() == 0 {
        0
    } else {
        10 * bytes_value(s.drop_last()) + (s.last() - 48)
    }
}

/// Whether there are ASCII digits, and nothing else.
pub open spec fn are_digits(s: Seq<u8>) -> bool {
    s.len() > 0 && forall|i: int| 0 <= i < s.len() ==> is_digit_byte(#[trigger] s[i])
}

/// The number that bytes stand for: digits, and nothing else.
pub open spec fn bytes_number(s: Seq<u8>) -> Option<int> {
    if are_digits(s) {
        Some(bytes_value(s))
    } else {
        None
    }
}

/// The day of a date in the Gregorian calendar, counted from 1970-01-01. Years
/// start in March, so that a leap day comes last.
pub open spec fn day_number(y: int, month: int, day: int) -> int {
    let year = if month <= 2 {
        y - 1
    } else {
        y
    };
    let months_since_march = (month + 9) % 12;
    365 * year + year / 4 - year / 100 + year / 400 + (153 * months_since_march + 2) / 5 + day - 1
        - 719468
}

/// Whether a timestamp may go on like this behind its seconds and still be in
/// UTC: with nothing, or with a fraction, and then perhaps with a `Z`.
pub open spec fn is_utc_tail(tail: Seq<u8>) -> bool {
    let fraction = if tail.len() > 0 && tail.last() == 90 {
        tail.drop_last()
    } else {
        tail
    };
    fraction.len() == 0 || (fraction[0] == 46 && are_digits(fraction.drop_first()))
}

/// Whether the signs of `YYYY-MM-DDTHH:MM:SS` stand in their places.
pub open spec fn is_laid_out(bytes: Seq<u8>) -> bool {
    bytes[4] == 45 && bytes[7] == 45 && bytes[10] == 84 && bytes[13] == 58 && bytes[16] == 58
}

/// The Unix time of a timestamp `YYYY-MM-DDTHH:MM:SS`, with an optional fraction
/// and `Z` behind it. Only UTC is accepted: one with an offset has no time here.
pub open spec fn unix_time(bytes: Seq<u8>) -> Option<int> {
    if bytes.len() < 19 || !is_laid_out(bytes) || !is_utc_tail(bytes.skip(19)) {
        None
    } else {
        match (
            bytes_number(bytes.subrange(0, 4)),
            bytes_number(bytes.subrange(5, 7)),
            bytes_number(bytes.subrange(8, 10)),
            bytes_number(bytes.subrange(11, 13)),
            bytes_number(bytes.subrange(14, 16)),
            bytes_number(bytes.subrange(17, 19)),
        ) {
            (Some(y), Some(mo), Some(d), Some(h), Some(mi), Some(s)) => if 1 <= mo <= 12 && 1 <= d
                <= 31 {
                Some(day_number(y, mo, d) * 86400 + h * 3600 + mi * 60 + s)
            } else {
                None
            },
            _ => None,
        }
    }
}

fn digits_between(bytes: &[u8], from: usize, to: usize) -> (r: bool)
    requires
        from <= to <= bytes@.len(),
    ensures
        r == are_digits(bytes@.subrange(from as int, to as int)),
{
    let ghost digits = bytes@.subrange(from as int, to as int);
    let mut i: usize = from;
    while i < to
        invariant
            from <= i <= to <= bytes@.len(),
            digits == bytes@.subrange(from as int, to as int),
            forall|k: int| 0 <= k < i - from ==> is_digit_byte(#[trigger] digits[k]),
        decreases to - i,
    {
        assert(digits[i - from] == bytes@[i as int]);
        if bytes[i] < 48 || bytes[i] > 57 {
            assert(!is_digit_byte(digits[i - from]));
            return false;
        }
        i = i + 1;
    }
    from < to
}

fn utc_tail(bytes: &[u8]) -> (r: bool)
    requires
        bytes@.len() >= 19,
    ensures
        r == is_utc_tail(bytes@.skip(19)),
{
    let ghost tail = bytes@.skip(19);
    let n: usize = bytes.len();
    let end: usize = if n > 19 && bytes[n - 1] == 90 {
        n - 1
    } else {
        n
    };
    let ghost fraction = if tail.len() > 0 && tail.last() == 90 {
        tail.drop_last()
    } else {
        tail
    };
    assert(fraction =~= bytes@.subrange(19, end as int));
    if end == 19 {
        return true;
    }
    assert(fraction.drop_first() =~= bytes@.subrange(20, end as int));
    bytes[19] == 46 && digits_between(bytes, 20, end)
}

fn laid_out(bytes: &[u8]) -> (r: bool)
    requires
        bytes@.len() >= 19,
    ensures
        r == is_laid_out(bytes@),
{
    bytes[4] == 45 && bytes[7] == 45 && bytes[10] == 84 && bytes[13] == 58 && bytes[16] == 58
}

fn number_at(bytes: &[u8], from: usize, to: usize) -> (r: Option<i64>)
    requires
        from < to <= bytes@.len(),
        to - from <= 4,
    ensures
        match r {
            Some(n) => bytes_number(bytes@.subrange(from as int, to as int)) == Some(n as int) && 0
                <= n <= 9999,
            None => bytes_number(bytes@.subrange(from as int, to as int)) is None,
        },
{
    let ghost digits = bytes@.subrange(from as int, to as int);
    let mut value: i64 = 0;
    let mut i: usize = from;
    let ghost mut most: int = 1;
    while i < to
        invariant
            from <= i <= to <= bytes@.len(),
            to - from <= 4,
            digits == bytes@.subrange(from as int, to as int),
            value == bytes_value(digits.take(i - from)),
            0 <= value < most,
            most == (if i - from == 0 {
                1int
            } else if i - from == 1 {
                10
            } else if i - from == 2 {
                100
            } else if i - from == 3 {
                1000
            } else {
                10000
            }),
            forall|k: int| 0 <= k < i - from ==> is_digit_byte(#[trigger] digits[k]),
        decreases to - i,
    {
        let b: u8 = bytes[i];
        assert(digits[i - from] == b);
        if b < 48 || b > 57 {
            assert(!is_digit_byte(digits[i - from]));
            return None;
        }
        assert(digits.take(i + 1 - from).drop_last() =~= digits.take(i - from));
        value = 10 * value + (b - 48) as i64;
        proof {
            most = 10 * most;
        }
        i = i + 1;
    }
    assert(digits.take(digits.len() as int) =~= digits);
    Some(value)
}

#[verifier::spinoff_prover]
fn days_from_civil(y: i64, month: i64, day: i64) -> (r: i64)
    requires
        0 <= y <= 9999,
        1 <= month <= 12,
        1 <= day <= 31,
    ensures
        r == day_number(y as int, month as int, day as int),
        -5_000_000 <= r <= 5_000_000,
{
    let adjusted: i64 = if month <= 2 {
        y - 1
    } else {
        y
    };
    // Shifted by whole eras of 400 years, so that nothing is negative.
    let shifted: i64 = adjusted + 10_000;
    let months_since_march: i64 = (month + 9) % 12;
    365 * shifted + shifted / 4 - shifted / 100 + shifted / 400 + (153 * months_since_march + 2) / 5
        + day - 1 - 719_468 - 3_652_425
}

/// Parse `YYYY-MM-DDTHH:MM:SS` (with optional fraction and `Z`) to a Unix
/// timestamp. Only UTC is accepted, which is all our service emits.
pub fn rfc3339_to_unix(value: &str) -> (r: Option<i64>)
    ensures
        match r {
            Some(t) => unix_time(encode_utf8(value@)) == Some(t as int) && -1_000_000_000_000 <= t
                <= 1_000_000_000_000,
            None => unix_time(encode_utf8(value@)) is None,
        },
{
    let bytes = value.as_bytes();
    if bytes.len() < 19 || !laid_out(bytes) || !utc_tail(bytes) {
        return None;
    }
    let date = (number_at(bytes, 0, 4), number_at(bytes, 5, 7), number_at(bytes, 8, 10));
    let time = (number_at(bytes, 11, 13), number_at(bytes, 14, 16), number_at(bytes, 17, 19));
    match (date, time) {
        ((Some(y), Some(mo), Some(d)), (Some(h), Some(mi), Some(s))) => {
            if mo < 1 || mo > 12 || d < 1 || d > 31 {
                return None;
            }
            let days: i64 = days_from_civil(y, mo, d);
            Some(days * 86_400 + h * 3_600 + mi * 60 + s)
        },
        _ => None,
    }
}

/// How many seconds, from a time on, a timestamp lies ahead; nothing when it
/// cannot be read or does not.
pub open spec fn seconds_ahead(value: Seq<char>, now: u64) -> Option<u64> {
    match unix_time(encode_utf8(value)) {
        Some(t) => if t > now {
            Some((t - now) as u64)
        } else {
            None
        },
        None => None,
    }
}

/// How many seconds, from a time on, a timestamp lies ahead.
pub fn seconds_until(value: &str, now: u64) -> (r: Option<u64>)
    ensures
        r == seconds_ahead(value@, now),
        r matches Some(s) ==> unix_time(encode_utf8(value@)) == Some(now + s),
{
    match rfc3339_to_unix(value) {
        Some(t) => {
            if t > 0 && t as u64 > now {
                Some(t as u64 - now)
            } else {
                None
            }
        },
        None => None,
    }
}

/// How many seconds, by a reading of the clock, a timestamp lies ahead; nothing
/// when there is no reading.
pub open spec fn seconds_ahead_by(value: Seq<char>, reading: Option<u64>) -> Option<u64> {
    match reading {
        Some(now) => seconds_ahead(value, now),
        None => None,
    }
}

/// How many seconds, by a reading of the clock, a timestamp lies ahead.
pub fn seconds_until_by(value: &str, reading: Option<u64>) -> (r: Option<u64>)
    ensures
        r == seconds_ahead_by(value@, reading),
        r matches Some(s) ==> reading matches Some(now) && unix_time(encode_utf8(value@)) == Some(
            now + s,
        ),
{
    match reading {
        Some(now) => seconds_until(value, now),
        None => None,
    }
}

/// Seconds between now and an RFC 3339 timestamp, or `None` if unparseable or
/// already past. How many, and whether it is past, depends on the clock.
pub fn parse_rfc3339_secs_from_now(value: &str) -> (r: Option<u64>)
    ensures
        unix_time(encode_utf8(value@)) is None ==> r is None,
        r matches Some(s) ==> 0 < s && unix_time(encode_utf8(value@)) is Some && s <= unix_time(
            encode_utf8(value@),
        )->0,
{
    seconds_until_by(value, seconds_since_epoch())
}

/// Whether a year has a 29th of February.
pub open spec fn is_leap(y: int) -> bool {
    y % 4 == 0 && (y % 100 != 0 || y % 400 == 0)
}

/// The length of a month.
pub open spec fn days_in_month(y: int, month: int) -> int {
    if month == 2 {
        if is_leap(y) {
            29
        } else {
            28
        }
    } else if month == 4 || month == 6 || month == 9 || month == 11 {
        30
    } else {
        31
    }
}

/// Days are counted from the first of January 1970.
pub proof fn law_epoch_is_day_zero()
    ensures
        day_number(1970, 1, 1) == 0,
{
}

/// Within a month one day follows the other.
pub proof fn law_days_follow_each_other(y: int, month: int, day: int)
    ensures
        day_number(y, month, day + 1) == day_number(y, month, day) + 1,
{
}

/// From the first of a month to the first of the next it is as many days as the
/// month has, in every year, leap or not.
#[verifier::spinoff_prover]
pub proof fn law_months_follow_each_other(y: int, month: int)
    requires
        1 <= month <= 12,
    ensures
        month < 12 ==> day_number(y, month + 1, 1) == day_number(y, month, 1) + days_in_month(
            y,
            month,
        ),
        month == 12 ==> day_number(y + 1, 1, 1) == day_number(y, 12, 1) + days_in_month(y, 12),
{
    if month == 2 {
        assert(y / 4 - (y - 1) / 4 == if y % 4 == 0 {
            1int
        } else {
            0
        });
        assert(y / 100 - (y - 1) / 100 == if y % 100 == 0 {
            1int
        } else {
            0
        });
        assert(y / 400 - (y - 1) / 400 == if y % 400 == 0 {
            1int
        } else {
            0
        });
    }
}

} // verus!
