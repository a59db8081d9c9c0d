//! Instants read from iCalendar values, normalized to UTC.

use vstd::prelude::*;
use crate::models::Timestamp;
use crate::strings::{starts_with, str_starts_with};
use chrono::TimeZone;

verus! {

/// A date or date-time as an iCalendar property gives it. Wall-clock
/// readings are held as the seconds they would be if read in UTC.
#[derive(Debug, Clone, PartialEq, Eq)]
pub enum IcalTime {
    /// An absolute instant.
    Utc(Timestamp),
    /// A wall-clock reading with no zone.
    Floating(Timestamp),
    /// A wall-clock reading in a named zone.
    Zoned { local: Timestamp, tzid: String },
    /// A bare date, held as its midnight.
    Date(Timestamp),
}

pub open spec fn is_digit(c: char) -> bool {
    '0' <= c && c <= '9'
}

pub open spec fn all_digits(s: Seq<char>) -> bool {
    forall|i: int| 0 <= i < s.len() ==> is_digit(#[trigger] s[i])
}

/// The value of a string of decimal digits.
pub open spec fn digits_value(s: Seq<char>) -> int
    decreases s.len(),
{
    if s.len() == 0 {
        0
    } else {
        digits_value(s.drop_last()) * 10 + (s.last() as int - '0' as int)
    }
}

/// The integer a short text spells as Rust's integer parsing reads it: an
/// optional `+` (or, when `signed`, `-`) and then at least one digit.
pub open spec fn int_text(s: Seq<char>, signed: bool) -> Option<int> {
    if s.len() > 0 && (s[0] == '+' || (signed && s[0] == '-')) {
        let d = s.drop_first();
        if d.len() > 0 && all_digits(d) {
            Some(
                if s[0] == '-' {
                    -digits_value(d)
                } else {
                    digits_value(d)
                },
            )
        } else {
            None
        }
    } else if s.len() > 0 && all_digits(s) {
        Some(digits_value(s))
    } else {
        None
    }
}

proof fn lemma_digits_bound(s: Seq<char>)
    requires
        all_digits(s),
    ensures
        0 <= digits_value(s) < pow10(s.len()),
    decreases s.len(),
{
    if s.len() > 0 {
        lemma_digits_bound(s.drop_last());
        assert(is_digit(s[s.len() - 1]));
    }
}

pub open spec fn pow10(n: nat) -> int
    decreases n,
{
    if n == 0 {
        1
    } else {
        10 * pow10((n - 1) as nat)
    }
}

/// The digits of `s` from `from` on, read as a decimal number.
fn digits_of(s: &str, from: usize, n: usize) -> (r: Option<i64>)
    requires
        n == s@.len(),
        from <= n,
        n - from <= 9,
    ensures
        match r {
            Some(v) => all_digits(s@.subrange(from as int, n as int)) && v == digits_value(
                s@.subrange(from as int, n as int),
            ),
            None => !all_digits(s@.subrange(from as int, n as int)),
        },
{
    let mut v: i64 = 0;
    let mut i: usize = from;
    assert(s@.subrange(from as int, from as int) =~= Seq::<char>::empty());
    while i < n
        invariant
            n == s@.len(),
            from <= i <= n,
            n - from <= 9,
            all_digits(s@.subrange(from as int, i as int)),
            v == digits_value(s@.subrange(from as int, i as int)),
            0 <= v < pow10((i - from) as nat),
        decreases n - i,
    {
        let c = s.get_char(i);
        let ghost prev = s@.subrange(from as int, i as int);
        let ghost next = s@.subrange(from as int, i + 1);
        assert(next.drop_last() =~= prev);
        if !('0' <= c && c <= '9') {
            assert(next[(i - from) as int] == c);
            proof {
                let t = s@.subrange(from as int, n as int);
                assert(t[(i - from) as int] == c);
            }
            return None;
        }
        proof {
            assert(pow10((i - from) as nat) <= 100000000) by {
                lemma_pow10_mono((i - from) as nat, 8);
                assert(pow10(8) == 100000000) by {
                    reveal_with_fuel(pow10, 9);
                }
            }
        }
        v = v * 10 + (c as i64 - '0' as i64);
        i = i + 1;
        proof {
            assert forall|j: int| 0 <= j < next.len() implies is_digit(#[trigger] next[j]) by {
                if j < prev.len() {
                    assert(next[j] == prev[j]);
                }
            }
        }
    }
    Some(v)
}

proof fn lemma_pow10_mono(a: nat, b: nat)
    requires
        a <= b,
    ensures
        0 < pow10(a) <= pow10(b),
    decreases b,
{
    if a < b {
        lemma_pow10_mono(a, (b - 1) as nat);
    } else if a > 0 {
        lemma_pow10_mono((a - 1) as nat, (a - 1) as nat);
    }
}

/// The integer `s` spells, read as Rust reads an `i32` (`signed`) or a
/// `u32`.
fn parse_int(s: &str, signed: bool) -> (r: Option<i64>)
    requires
        s@.len() <= 9,
    ensures
        match int_text(s@, signed) {
            Some(v) => r == Some(v as i64) && -pow10(s@.len()) < v < pow10(s@.len()) && (!signed ==> v
                >= 0),
            None => r is None,
        },
{
    let n = s.unicode_len();
    if n == 0 {
        return None;
    }
    let c = s.get_char(0);
    if c == '+' || (signed && c == '-') {
        if n == 1 {
            return None;
        }
        assert(s@.drop_first() =~= s@.subrange(1, n as int));
        match digits_of(s, 1, n) {
            Some(v) => {
                proof {
                    lemma_digits_bound(s@.drop_first());
                    lemma_pow10_mono((n - 1) as nat, 8);
                    lemma_pow10_mono((n - 1) as nat, n as nat);
                }
                if c == '-' {
                    Some(-v)
                } else {
                    Some(v)
                }
            },
            None => None,
        }
    } else {
        assert(s@ =~= s@.subrange(0, n as int));
        match digits_of(s, 0, n) {
            Some(v) => {
                proof {
                    lemma_digits_bound(s@);
                }
                Some(v)
            },
            None => None,
        }
    }
}

/// `GMT`
pub open spec fn gmt_key() -> Seq<char> {
    seq!['G', 'M', 'T']
}

/// The offset east of UTC, in seconds, that a zone name of the form `GMT`,
/// `GMT+HHMM` or `GMT-HHMM` gives, when it is less than a day.
pub open spec fn gmt_offset(tzid: Seq<char>) -> Option<int> {
    if !starts_with(tzid, gmt_key()) {
        None
    } else {
        let o = tzid.subrange(3, tzid.len() as int);
        if o.len() == 0 {
            Some(0)
        } else if (o[0] == '+' || o[0] == '-') && o.len() == 5 {
            match (int_text(o.subrange(1, 3), true), int_text(o.subrange(3, 5), true)) {
                (Some(h), Some(m)) => {
                    let total = if o[0] == '+' {
                        h * 3600 + m * 60
                    } else {
                        -(h * 3600 + m * 60)
                    };
                    if -86400 < total < 86400 {
                        Some(total)
                    } else {
                        None
                    }
                },
                _ => None,
            }
        } else {
            None
        }
    }
}

/// The offset east of UTC, in seconds, of a zone named `GMT`, `GMT+HHMM` or
/// `GMT-HHMM`.
pub fn parse_gmt_offset(tzid: &str) -> (r: Option<i32>)
    ensures
        match gmt_offset(tzid@) {
            Some(v) => r == Some(v as i32),
            None => r is None,
        },
{
    proof {
        reveal_strlit("GMT");
    }
    assert("GMT"@ =~= gmt_key());
    if !str_starts_with(tzid, "GMT") {
        return None;
    }
    let n = tzid.unicode_len();
    if n == 3 {
        assert(tzid@.subrange(3, 3).len() == 0);
        return Some(0);
    }
    let c = tzid.get_char(3);
    if !(c == '+' || c == '-') || n != 8 {
        assert(tzid@.subrange(3, n as int)[0] == tzid@[3]);
        return None;
    }
    let ghost o = tzid@.subrange(3, n as int);
    let hours = parse_int(tzid.substring_char(4, 6), true);
    let minutes = parse_int(tzid.substring_char(6, 8), true);
    assert(o.subrange(1, 3) =~= tzid@.subrange(4, 6));
    assert(o.subrange(3, 5) =~= tzid@.subrange(6, 8));
    assert(o[0] == c);
    assert(pow10(2) == 100) by {
        reveal_with_fuel(pow10, 3);
    }
    match (hours, minutes) {
        (Some(h), Some(m)) => {
            let total: i64 = if c == '+' {
                h * 3600 + m * 60
            } else {
                -(h * 3600 + m * 60)
            };
            assert(int_text(o.subrange(1, 3), true) == Some(h as int));
            assert(int_text(o.subrange(3, 5), true) == Some(m as int));
            if -86400 < total && total < 86400 {
                Some(total as i32)
            } else {
                None
            }
        },
        _ => {
            assert(int_text(o.subrange(1, 3), true) is None || int_text(o.subrange(3, 5), true) is None);
            None
        },
    }
}

/// The instant of a UTC calendar date and time, as chrono computes it
/// (`None` for a date or time that does not exist).
pub uninterp spec fn utc_civil(year: i32, month: u32, day: u32, hour: u32, min: u32, sec: u32) -> Option<Timestamp>;

/// Relies on chrono's `Utc.with_ymd_and_hms(..).single()` and `timestamp()`.
#[verifier::external_body]
fn utc_from_civil(year: i32, month: u32, day: u32, hour: u32, min: u32, sec: u32) -> (r: Option<Timestamp>)
    ensures
        r == utc_civil(year, month, day, hour, min, sec),
{
    match chrono::Utc.with_ymd_and_hms(year, month, day, hour, min, sec).single() {
        Some(d) => Some(d.timestamp()),
        None => None,
    }
}


/// The index of the first `c` in `s`, or the length of `s` when there is none.
pub open spec fn index_of(s: Seq<char>, c: char) -> int
    decreases s.len(),
{
    if s.len() == 0 {
        0
    } else if s[0] == c {
        0
    } else {
        1 + index_of(s.drop_first(), c)
    }
}

/// An EXDATE value without its `TZID=...:` prefix: what follows the first
/// colon, if any.
pub open spec fn without_zone_prefix(v: Seq<char>) -> Seq<char> {
    let k = index_of(v, ':');
    if k < v.len() {
        v.subrange(k + 1, v.len() as int)
    } else {
        v
    }
}

/// Year, month and day read from `YYYYMMDD` at the start of `c`.
pub open spec fn date_fields(c: Seq<char>) -> Option<(int, int, int)> {
    match (int_text(c.subrange(0, 4), true), int_text(c.subrange(4, 6), false), int_text(c.subrange(6, 8), false)) {
        (Some(y), Some(m), Some(d)) => Some((y, m, d)),
        _ => None,
    }
}

/// Hour, minute and second read from `HHMMSS` at index 9 of `c`.
pub open spec fn time_fields(c: Seq<char>) -> Option<(int, int, int)> {
    match (int_text(c.subrange(9, 11), false), int_text(c.subrange(11, 13), false), int_text(c.subrange(13, 15), false)) {
        (Some(h), Some(m), Some(s)) => Some((h, m, s)),
        _ => None,
    }
}

/// The instant of date and time fields.
pub open spec fn civil_instant(d: (int, int, int), t: (int, int, int)) -> Option<Timestamp> {
    utc_civil(d.0 as i32, d.1 as u32, d.2 as u32, t.0 as u32, t.1 as u32, t.2 as u32)
}

/// The instant an EXDATE value names: `YYYYMMDDTHHMMSSZ`, a bare date
/// `YYYYMMDD` (midnight UTC) or `YYYYMMDDTHHMMSS` (read as UTC).
pub open spec fn exdate_instant(v: Seq<char>) -> Option<Timestamp> {
    let c = without_zone_prefix(v);
    if c.len() == 16 && c.last() == 'Z' && date_fields(c) is Some && time_fields(c) is Some {
        civil_instant(date_fields(c)->0, time_fields(c)->0)
    } else if c.len() == 8 && all_digits(c) && date_fields(c) is Some {
        civil_instant(date_fields(c)->0, (0, 0, 0))
    } else if c.contains('T') && c.len() == 15 && date_fields(c) is Some && time_fields(c) is Some {
        civil_instant(date_fields(c)->0, time_fields(c)->0)
    } else {
        None
    }
}

/// The first `c` of `s` is at `k` (or there is none and `k` is the length).
pub proof fn lemma_index_of(s: Seq<char>, c: char, k: int)
    requires
        0 <= k <= s.len(),
        forall|j: int| 0 <= j < k ==> s[j] != c,
        k < s.len() ==> s[k] == c,
    ensures
        index_of(s, c) == k,
    decreases s.len(),
{
    if s.len() > 0 && k > 0 {
        let d = s.drop_first();
        assert forall|j: int| 0 <= j < k - 1 implies d[j] != c by {
            assert(d[j] == s[j + 1]);
        }
        lemma_index_of(d, c, k - 1);
    }
}

fn read_date(c: &str) -> (r: Option<(i64, i64, i64)>)
    requires
        c@.len() >= 8,
    ensures
        match date_fields(c@) {
            Some(f) => r == Some((f.0 as i64, f.1 as i64, f.2 as i64)) && -10000 < f.0 < 10000 && 0 <= f.1
                < 100 && 0 <= f.2 < 100,
            None => r is None,
        },
{
    let y = parse_int(c.substring_char(0, 4), true);
    let m = parse_int(c.substring_char(4, 6), false);
    let d = parse_int(c.substring_char(6, 8), false);
    assert(pow10(4) == 10000 && pow10(2) == 100) by {
        reveal_with_fuel(pow10, 5);
    }
    match (y, m, d) {
        (Some(y), Some(m), Some(d)) => Some((y, m, d)),
        _ => None,
    }
}

fn read_time(c: &str) -> (r: Option<(i64, i64, i64)>)
    requires
        c@.len() >= 15,
    ensures
        match time_fields(c@) {
            Some(f) => r == Some((f.0 as i64, f.1 as i64, f.2 as i64)) && 0 <= f.0 < 100 && 0 <= f.1 < 100
                && 0 <= f.2 < 100,
            None => r is None,
        },
{
    let h = parse_int(c.substring_char(9, 11), false);
    let m = parse_int(c.substring_char(11, 13), false);
    let s = parse_int(c.substring_char(13, 15), false);
    assert(pow10(2) == 100) by {
        reveal_with_fuel(pow10, 3);
    }
    match (h, m, s) {
        (Some(h), Some(m), Some(s)) => Some((h, m, s)),
        _ => None,
    }
}

/// The instant of one EXDATE value.
pub fn parse_exdate_value(value: &str) -> (r: Option<Timestamp>)
    ensures
        r == exdate_instant(value@),
{
    let n = value.unicode_len();
    let mut k: usize = 0;
    let mut found = false;
    while k < n && !found
        invariant
            n == value@.len(),
            k <= n,
            forall|j: int| 0 <= j < k ==> value@[j] != ':',
            found ==> k < n && value@[k as int] == ':',
        decreases n - k + (if found {
            0int
        } else {
            1int
        }),
    {
        if value.get_char(k) == ':' {
            found = true;
        } else {
            k = k + 1;
        }
    }
    proof {
        lemma_index_of(value@, ':', k as int);
    }
    let c = if k < n {
        value.substring_char(k + 1, n)
    } else {
        value
    };
    let len = c.unicode_len();
    if len == 16 && c.get_char(15) == 'Z' {
        if let (Some(d), Some(t)) = (read_date(c), read_time(c)) {
            return utc_from_civil(d.0 as i32, d.1 as u32, d.2 as u32, t.0 as u32, t.1 as u32, t.2 as u32);
        }
    }
    if len == 8 {
        let mut all = true;
        let mut i: usize = 0;
        while i < 8
            invariant
                len == c@.len(),
                len == 8,
                i <= 8,
                all == (forall|j: int| 0 <= j < i ==> is_digit(#[trigger] c@[j])),
            decreases 8 - i,
        {
            let ch = c.get_char(i);
            all = all && '0' <= ch && ch <= '9';
            i = i + 1;
        }
        if all {
            if let Some(d) = read_date(c) {
                return utc_from_civil(d.0 as i32, d.1 as u32, d.2 as u32, 0, 0, 0);
            }
        }
    }
    if len == 15 {
        let mut has_t = false;
        let mut i: usize = 0;
        while i < 15
            invariant
                len == c@.len(),
                len == 15,
                i <= 15,
                has_t == (exists|j: int| 0 <= j < i && c@[j] == 'T'),
            decreases 15 - i,
        {
            if c.get_char(i) == 'T' {
                has_t = true;
            }
            i = i + 1;
        }
        if has_t {
            if let (Some(d), Some(t)) = (read_date(c), read_time(c)) {
                return utc_from_civil(d.0 as i32, d.1 as u32, d.2 as u32, t.0 as u32, t.1 as u32, t.2 as u32);
            }
        }
    }
    None
}


/// What chrono-tz makes of a wall-clock reading in a named zone: `None`
/// when it does not know the zone; else the earliest instant with that
/// reading, if there is one.
pub uninterp spec fn zoned_instant(tzid: Seq<char>, local: Timestamp) -> Option<Option<Timestamp>>;

/// Relies on chrono-tz's `Tz::from_str` (an error for an unknown zone) and
/// chrono's `from_local_datetime(..).earliest()`; `from_timestamp` and
/// `naive_utc` only convert the reading.
#[verifier::external_body]
fn zone_local_to_utc(tzid: &str, local: Timestamp) -> (r: Option<Option<Timestamp>>)
    ensures
        r == zoned_instant(tzid@, local),
{
    let tz: chrono_tz::Tz = match tzid.parse() {
        Ok(tz) => tz,
        Err(_) => return None,
    };
    let naive = match chrono::DateTime::from_timestamp(local, 0) {
        Some(d) => d.naive_utc(),
        None => return Some(None),
    };
    match tz.from_local_datetime(&naive).earliest() {
        Some(d) => Some(Some(d.timestamp())),
        None => Some(None),
    }
}

/// Relies on chrono's `Local.from_local_datetime(..).earliest()`: the
/// earliest instant with this wall-clock reading in the machine's zone.
/// Nothing is known of it.
#[verifier::external_body]
fn machine_local_to_utc(local: Timestamp) -> (r: Option<Timestamp>) {
    let naive = match chrono::DateTime::from_timestamp(local, 0) {
        Some(d) => d.naive_utc(),
        None => return None,
    };
    match chrono::Local.from_local_datetime(&naive).earliest() {
        Some(d) => Some(d.timestamp()),
        None => None,
    }
}

/// The instant of a value that does not depend on the machine's zone: a
/// UTC value as it is, a date at midnight UTC, a zoned reading through the
/// zone database, else through a `GMT+HHMM` offset, else read as UTC.
pub open spec fn fixed_instant(t: IcalTime) -> Option<Timestamp> {
    match t {
        IcalTime::Utc(ts) => Some(ts),
        IcalTime::Date(d) => Some(d),
        IcalTime::Zoned { local, tzid } => match zoned_instant(tzid@, local) {
            Some(r) => r,
            None => match gmt_offset(tzid@) {
                Some(off) => if i64::MIN <= local - off <= i64::MAX {
                    Some((local - off) as Timestamp)
                } else {
                    None
                },
                None => Some(local),
            },
        },
        IcalTime::Floating(_) => None,
    }
}

/// The UTC instant of an iCalendar date or date-time. A floating reading is
/// taken in the machine's zone.
pub fn parse_datetime(t: &IcalTime) -> (r: Option<Timestamp>)
    ensures
        !(t is Floating) ==> r == fixed_instant(*t),
{
    match t {
        IcalTime::Utc(ts) => Some(*ts),
        IcalTime::Date(d) => Some(*d),
        IcalTime::Floating(local) => machine_local_to_utc(*local),
        IcalTime::Zoned { local, tzid } => match zone_local_to_utc(tzid.as_str(), *local) {
            Some(r) => r,
            None => match parse_gmt_offset(tzid.as_str()) {
                Some(off) => {
                    let v: i128 = *local as i128 - off as i128;
                    if i64::MIN as i128 <= v && v <= i64::MAX as i128 {
                        Some(v as i64)
                    } else {
                        None
                    }
                },
                None => Some(*local),
            },
        },
    }
}

} // verus!
