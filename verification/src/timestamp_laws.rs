//! What reading timestamps promises, over all times.

use vstd::prelude::*;
use vstd::utf8::encode_utf8;

use crate::timestamp::{
    bytes_number, bytes_value, day_number, is_digit_byte, is_utc_tail, seconds_ahead,
    seconds_ahead_by, unix_time,
};

verus! {

/// A number below a hundred in two digits.
pub open spec fn two(n: int) -> Seq<u8> {
    seq![(48 + n / 10) as u8, (48 + n % 10) as u8]
}

/// A number below ten thousand in four digits.
pub open spec fn four(n: int) -> Seq<u8> {
    two(n / 100) + two(n % 100)
}

proof fn lemma_two(n: int)
    requires
        0 <= n < 100,
    ensures
        bytes_number(two(n)) == Some(n),
        two(n).len() == 2,
{
    let s = two(n);
    assert(s.drop_last() =~= seq![s[0]]);
    assert(s.drop_last().drop_last() =~= Seq::<u8>::empty());
    assert(bytes_value(Seq::<u8>::empty()) == 0);
    assert(bytes_value(s.drop_last()) == 10 * bytes_value(s.drop_last().drop_last()) + (s[0] - 48));
    assert(bytes_value(s) == 10 * bytes_value(s.drop_last()) + (s[1] - 48));
    assert(is_digit_byte(s[0]) && is_digit_byte(s[1]));
}

proof fn lemma_four(n: int)
    requires
        0 <= n < 10_000,
    ensures
        bytes_number(four(n)) == Some(n),
        four(n).len() == 4,
{
    let s = four(n);
    lemma_two(n / 100);
    lemma_two(n % 100);
    let a = s.drop_last();
    let b = a.drop_last();
    assert(b =~= two(n / 100));
    assert(bytes_value(a) == 10 * bytes_value(b) + (a.last() - 48));
    assert(bytes_value(s) == 10 * bytes_value(a) + (s.last() - 48));
    assert(a.last() == two(n % 100)[0]);
    assert(s.last() == two(n % 100)[1]);
    assert forall|i: int| 0 <= i < s.len() implies is_digit_byte(#[trigger] s[i]) by {
        if i < 2 {
            assert(s[i] == two(n / 100)[i]);
        } else {
            assert(s[i] == two(n % 100)[i - 2]);
        }
    }
}

/// A time written out, and what stands behind its seconds.
pub open spec fn written(
    year: int,
    month: int,
    day: int,
    hour: int,
    minute: int,
    second: int,
    tail: Seq<u8>,
) -> Seq<u8> {
    four(year) + seq![45u8] + two(month) + seq![45u8] + two(day) + seq![84u8] + two(hour) + seq![
        58u8,
    ] + two(minute) + seq![58u8] + two(second) + tail
}

/// A time in UTC that is written out is read back: its days, hours, minutes and
/// seconds since the start of 1970.
pub proof fn law_written_time_is_read_back(
    year: int,
    month: int,
    day: int,
    hour: int,
    minute: int,
    second: int,
    tail: Seq<u8>,
)
    requires
        0 <= year < 10_000,
        1 <= month <= 12,
        1 <= day <= 31,
        0 <= hour < 100,
        0 <= minute < 100,
        0 <= second < 100,
        is_utc_tail(tail),
    ensures
        unix_time(written(year, month, day, hour, minute, second, tail)) == Some(
            86_400 * day_number(year, month, day) + 3_600 * hour + 60 * minute + second,
        ),
{
    let s = written(year, month, day, hour, minute, second, tail);
    lemma_four(year);
    lemma_two(month);
    lemma_two(day);
    lemma_two(hour);
    lemma_two(minute);
    lemma_two(second);
    assert(s.subrange(0, 4) =~= four(year));
    assert(s.subrange(5, 7) =~= two(month));
    assert(s.subrange(8, 10) =~= two(day));
    assert(s.subrange(11, 13) =~= two(hour));
    assert(s.subrange(14, 16) =~= two(minute));
    assert(s.subrange(17, 19) =~= two(second));
    assert(s.skip(19) =~= tail);
}

/// Nothing behind the seconds, a `Z`, and a fraction with or without one all mean
/// UTC; an offset does not.
pub proof fn law_what_means_utc(digits: Seq<u8>, offset: Seq<u8>)
    requires
        digits.len() > 0,
        forall|i: int| 0 <= i < digits.len() ==> 48 <= #[trigger] digits[i] <= 57,
        offset.len() > 0,
        offset[0] == 43 || offset[0] == 45,
    ensures
        is_utc_tail(Seq::empty()),
        is_utc_tail(seq![90u8]),
        is_utc_tail(seq![46u8] + digits),
        is_utc_tail(seq![46u8] + digits + seq![90u8]),
        !is_utc_tail(offset),
{
    let f = seq![46u8] + digits;
    let z = f + seq![90u8];
    assert(seq![90u8].drop_last() =~= Seq::<u8>::empty());
    assert(z.drop_last() =~= f);
    assert(f.drop_first() =~= digits);
    assert(f.last() == digits[digits.len() - 1]);
    assert(digits[digits.len() - 1] <= 57);
    if offset.last() == 90 {
        assert(offset.drop_last()[0] == offset[0]);
    }
}

/// A date that is out of the calendar, or a text that is too short, has no time.
pub proof fn law_no_time_outside_the_calendar(bytes: Seq<u8>)
    ensures
        bytes.len() < 19 ==> unix_time(bytes) is None,
        unix_time(bytes) is Some ==> bytes[4] == 45 && bytes[7] == 45 && bytes[10] == 84 && bytes[13]
            == 58 && bytes[16] == 58,
        unix_time(bytes) is Some ==> is_utc_tail(bytes.skip(19)),
        unix_time(bytes) is Some ==> 1 <= bytes_value(bytes.subrange(5, 7)) <= 12 && 1
            <= bytes_value(bytes.subrange(8, 10)) <= 31,
{
}

/// A time is ahead by as many seconds as lie between; one that is past, is now,
/// or cannot be read is not ahead at all, and without a clock nothing is.
pub proof fn law_how_far_a_time_is_ahead(value: Seq<char>, now: u64)
    ensures
        ({
            let t = unix_time(encode_utf8(value));
            &&& t is None ==> seconds_ahead(value, now) is None
            &&& t is Some && t->0 <= now ==> seconds_ahead(value, now) is None
            &&& t is Some && now < t->0 <= u64::MAX ==> (seconds_ahead(value, now) matches Some(s)
                && now + s == t->0)
            &&& seconds_ahead_by(value, Some(now)) == seconds_ahead(value, now)
            &&& seconds_ahead_by(value, None) is None
        }),
{
}

} // verus!
