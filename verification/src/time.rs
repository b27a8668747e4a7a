//! Timestamps for readers: the date, and how far it is from the present.

use vstd::prelude::*;
use vstd::string::*;
use crate::text::{all_digits, decimal};

verus! {

/// The seconds from the origin of the day count, the first of March four
/// hundred years before the year 0, to the start of 1970.
pub const EPOCH: u64 = 74784816000;

/// The characters that hold the date and the time of day in a timestamp such
/// as `2024-01-02T03:04:05Z`.
pub const STAMP_LEN: usize = 19;

/// The decimal digit for a number below ten.
pub open spec fn digit_text(d: int) -> Seq<char> {
    seq![(d + 48) as char]
}

/// A number in decimal digits.
pub open spec fn number_text(n: nat) -> Seq<char>
    decreases n,
{
    if n < 10 {
        digit_text(n as int)
    } else {
        number_text(n / 10) + digit_text((n % 10) as int)
    }
}

/// A span of time in its two largest units: minutes below an hour, hours and
/// minutes below a day, days and hours from there on.
pub open spec fn span_text(seconds: nat) -> Seq<char> {
    let minutes = seconds / 60;
    if minutes < 60 {
        number_text(minutes) + "m"@
    } else if minutes < 1440 {
        number_text(minutes / 60) + "h "@ + number_text(minutes % 60) + "m"@
    } else {
        number_text(minutes / 1440) + "d "@ + number_text(minutes / 60 % 24) + "h"@
    }
}

/// The number that the characters from `from` up to `to` write, where all of
/// them are digits.
pub open spec fn field(stamp: Seq<char>, from: int, to: int) -> Option<int> {
    if all_digits(stamp.subrange(from, to)) {
        Some(decimal(stamp.subrange(from, to)))
    } else {
        None
    }
}

/// The days from the origin of the day count to a day of the civil
/// calendar.
pub open spec fn days_to(year: int, month: int, day: int) -> int {
    let y = if month <= 2 {
        year + 399
    } else {
        year + 400
    };
    let m = if month <= 2 {
        month + 9
    } else {
        month - 3
    };
    let of_year = (153 * m + 2) / 5 + day - 1;
    let of_era = (y % 400) * 365 + (y % 400) / 4 - (y % 400) / 100 + of_year;
    (y / 400) * 146097 + of_era
}

/// The seconds from the origin of the day count to the moment that a
/// timestamp names, read as universal time: four digits of year, two each of
/// month, day, hour, minute and second, with one character between each two.
/// A timestamp that is shorter, or holds something else in these places, or
/// a month, day or time of day that there is not, names no moment.
pub open spec fn moment(stamp: Seq<char>) -> Option<int> {
    if stamp.len() < STAMP_LEN {
        None
    } else {
        match (
            field(stamp, 0, 4),
            field(stamp, 5, 7),
            field(stamp, 8, 10),
            field(stamp, 11, 13),
            field(stamp, 14, 16),
            field(stamp, 17, 19),
        ) {
            (Some(year), Some(month), Some(day), Some(hour), Some(minute), Some(second)) => if 1
                <= month <= 12 && 1 <= day <= 31 && hour <= 23 && minute <= 59 && second <= 60 {
                Some(days_to(year, month, day) * 86400 + hour * 3600 + minute * 60 + second)
            } else {
                None
            },
            _ => None,
        }
    }
}

/// The date and the time of day of a timestamp with a space between them;
/// the timestamp itself where it is too short to hold both.
pub open spec fn date_text(stamp: Seq<char>) -> Seq<char> {
    if stamp.len() < STAMP_LEN {
        stamp
    } else {
        stamp.subrange(0, 10) + " "@ + stamp.subrange(11, 19)
    }
}

/// How far a timestamp is from the present, `now` seconds after the start of
/// 1970.
pub open spec fn diff_text(stamp: Seq<char>, now: int) -> Seq<char> {
    match moment(stamp) {
        Some(then) => if then >= now + EPOCH {
            "in "@ + span_text((then - (now + EPOCH)) as nat)
        } else {
            span_text((now + EPOCH - then) as nat) + " ago"@
        },
        None => "unknown"@,
    }
}

/// The decimal digit for a number below ten.
fn digit(d: u128) -> (r: &'static str)
    requires
        d < 10,
    ensures
        r@ == digit_text(d as int),
{
    proof {
        reveal_strlit("0");
        reveal_strlit("1");
        reveal_strlit("2");
        reveal_strlit("3");
        reveal_strlit("4");
        reveal_strlit("5");
        reveal_strlit("6");
        reveal_strlit("7");
        reveal_strlit("8");
        reveal_strlit("9");
    }
    let r = if d == 0 {
        "0"
    } else if d == 1 {
        "1"
    } else if d == 2 {
        "2"
    } else if d == 3 {
        "3"
    } else if d == 4 {
        "4"
    } else if d == 5 {
        "5"
    } else if d == 6 {
        "6"
    } else if d == 7 {
        "7"
    } else if d == 8 {
        "8"
    } else {
        "9"
    };
    assert(r@ =~= digit_text(d as int));
    r
}

/// A number in decimal digits.
pub fn number(n: u128) -> (r: String)
    ensures
        r@ == number_text(n as nat),
    decreases n,
{
    if n < 10 {
        String::from_str(digit(n))
    } else {
        let mut r = number(n / 10);
        r.append(digit(n % 10));
        r
    }
}

/// A span of time in its two largest units.
pub fn span(seconds: u128) -> (r: String)
    ensures
        r@ == span_text(seconds as nat),
{
    let minutes = seconds / 60;
    if minutes < 60 {
        let mut r = number(minutes);
        r.append("m");
        r
    } else if minutes < 1440 {
        let mut r = number(minutes / 60);
        r.append("h ");
        r.append(number(minutes % 60).as_str());
        r.append("m");
        r
    } else {
        let mut r = number(minutes / 1440);
        r.append("d ");
        r.append(number(minutes / 60 % 24).as_str());
        r.append("h");
        r
    }
}

/// The number that at most four characters of a timestamp write.
fn read_field(stamp: &str, from: usize, to: usize) -> (r: Option<u64>)
    requires
        from <= to <= stamp@.len(),
        to - from <= 4,
    ensures
        r matches Some(n) ==> field(stamp@, from as int, to as int) == Some(n as int) && n < 10000,
        r is None ==> field(stamp@, from as int, to as int) is None,
{
    let ghost digits = stamp@.subrange(from as int, to as int);
    let mut acc: u64 = 0;
    let mut i: usize = from;
    while i < to
        invariant
            from <= i <= to <= stamp@.len(),
            to - from <= 4,
            digits == stamp@.subrange(from as int, to as int),
            all_digits(digits.take(i - from)),
            acc == decimal(digits.take(i - from)),
            i - from == 0 ==> acc == 0,
            i - from == 1 ==> acc < 10,
            i - from == 2 ==> acc < 100,
            i - from == 3 ==> acc < 1000,
            i - from == 4 ==> acc < 10000,
        decreases to - i,
    {
        let c = stamp.get_char(i);
        let code = c as u32;
        if code < 48 || code > 57 {
            assert(!('0' <= digits[i - from] <= '9'));
            return None;
        }
        acc = acc * 10 + (code - 48) as u64;
        proof {
            let upto = digits.take(i + 1 - from);
            assert(upto.drop_last() =~= digits.take(i - from));
            assert(upto.last() == c);
            assert forall|k: int| 0 <= k < upto.len() implies '0' <= #[trigger] upto[k] <= '9' by {
                if k < upto.len() - 1 {
                    assert(digits.take(i - from)[k] == upto[k]);
                }
            }
        }
        i += 1;
    }
    assert(digits.take(to - from) =~= digits);
    Some(acc)
}

/// The days from the origin of the day count to a day of the civil
/// calendar.
fn days(year: u64, month: u64, day: u64) -> (r: u64)
    requires
        year < 10000,
        1 <= month <= 12,
        1 <= day <= 31,
    ensures
        r == days_to(year as int, month as int, day as int),
        r < 4000000,
{
    let y = if month <= 2 {
        year + 399
    } else {
        year + 400
    };
    let m = if month <= 2 {
        month + 9
    } else {
        month - 3
    };
    let of_year = (153 * m + 2) / 5 + day - 1;
    let in_era = y % 400;
    let of_era = in_era * 365 + in_era / 4 - in_era / 100 + of_year;
    (y / 400) * 146097 + of_era
}

/// The moment that a timestamp names.
fn read_moment(stamp: &str) -> (r: Option<u64>)
    ensures
        r matches Some(n) ==> moment(stamp@) == Some(n as int),
        r is None ==> moment(stamp@) is None,
{
    if stamp.unicode_len() < STAMP_LEN {
        return None;
    }
    let year = read_field(stamp, 0, 4);
    let month = read_field(stamp, 5, 7);
    let day = read_field(stamp, 8, 10);
    let hour = read_field(stamp, 11, 13);
    let minute = read_field(stamp, 14, 16);
    let second = read_field(stamp, 17, 19);
    match (year, month, day, hour, minute, second) {
        (Some(year), Some(month), Some(day), Some(hour), Some(minute), Some(second)) => {
            if 1 <= month && month <= 12 && 1 <= day && day <= 31 && hour <= 23 && minute <= 59
                && second <= 60 {
                Some(days(year, month, day) * 86400 + hour * 3600 + minute * 60 + second)
            } else {
                None
            }
        },
        _ => None,
    }
}

/// The date of a timestamp, and how far the timestamp is from the present,
/// `now` seconds after the start of 1970.
pub fn humanize(stamp: &str, now: u64) -> (r: (String, String))
    ensures
        r.0@ == date_text(stamp@),
        r.1@ == diff_text(stamp@, now as int),
{
    let date = if stamp.unicode_len() < STAMP_LEN {
        String::from_str(stamp)
    } else {
        let mut date = String::from_str(stamp.substring_char(0, 10));
        date.append(" ");
        date.append(stamp.substring_char(11, 19));
        date
    };
    let present: u128 = now as u128 + EPOCH as u128;
    let diff = match read_moment(stamp) {
        Some(then) => {
            let then = then as u128;
            if then >= present {
                let mut diff = String::from_str("in ");
                diff.append(span(then - present).as_str());
                diff
            } else {
                let mut diff = span(present - then);
                diff.append(" ago");
                diff
            }
        },
        None => String::from_str("unknown"),
    };
    (date, diff)
}

} // verus!
