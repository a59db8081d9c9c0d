//! The date ranges that queries name, read from their text.

use vstd::prelude::*;
use crate::datetime::{all_digits, digits_value, index_of, int_text, is_digit, lemma_index_of};

verus! {

/// What a range text asks for. Days are days of the local calendar; the
/// query layer resolves them to instants.
#[derive(Debug, Clone, PartialEq, Eq)]
pub enum RangeRequest {
    /// Today.
    Today,
    /// Tomorrow.
    Tomorrow,
    /// Seven days from today.
    Week,
    /// Thirty days from today.
    Month,
    /// From the first date to the second, each `YYYY-MM-DD`.
    Between(String, String),
    /// One day starting this many days from now.
    Relative(i64),
    /// One date, `YYYY-MM-DD`.
    Day(String),
}

impl RangeRequest {
    /// For a range counted from today: the first day (0 for today) and how
    /// many days it spans.
    pub fn day_span(&self) -> (r: Option<(i64, i64)>)
        ensures
            match *self {
                RangeRequest::Today => r == Some((0i64, 1i64)),
                RangeRequest::Tomorrow => r == Some((1i64, 1i64)),
                RangeRequest::Week => r == Some((0i64, 7i64)),
                RangeRequest::Month => r == Some((0i64, 30i64)),
                _ => r is None,
            },
    {
        match self {
            RangeRequest::Today => Some((0, 1)),
            RangeRequest::Tomorrow => Some((1, 1)),
            RangeRequest::Week => Some((0, 7)),
            RangeRequest::Month => Some((0, 30)),
            _ => None,
        }
    }
}

/// Why a range text was refused.
#[derive(Debug, Clone, PartialEq, Eq)]
pub enum RangeError {
    /// More than one `:`.
    NotStartEnd,
    /// The number of a relative range is not an `i64`.
    InvalidNumber,
    /// The unit of a relative range is neither `d` nor `w`.
    InvalidUnit(char),
}

/// The sentence for each range error.
pub open spec fn range_error_text(e: RangeError, range: Seq<char>) -> Seq<char> {
    match e {
        RangeError::NotStartEnd => "Range must be in format 'start:end'"@,
        RangeError::InvalidNumber => "Invalid number in relative date: "@ + range,
        RangeError::InvalidUnit(_) => "Invalid unit. Use 'd' for days or 'w' for weeks"@,
    }
}

impl RangeError {
    /// A sentence that says what is wrong with `range`.
    pub fn message(&self, range: &str) -> (r: String)
        ensures
            r@ == range_error_text(*self, range@),
    {
        proof {
            reveal_strlit("Range must be in format 'start:end'");
            reveal_strlit("Invalid number in relative date: ");
            reveal_strlit("Invalid unit. Use 'd' for days or 'w' for weeks");
        }
        match self {
            RangeError::NotStartEnd => String::from_str("Range must be in format 'start:end'"),
            RangeError::InvalidNumber => {
                let mut m = String::from_str("Invalid number in relative date: ");
                m.append(range);
                m
            },
            RangeError::InvalidUnit(_) => String::from_str(
                "Invalid unit. Use 'd' for days or 'w' for weeks",
            ),
        }
    }
}

pub open spec fn lit_today() -> Seq<char> {
    seq!['t', 'o', 'd', 'a', 'y']
}

pub open spec fn lit_tomorrow() -> Seq<char> {
    seq!['t', 'o', 'm', 'o', 'r', 'r', 'o', 'w']
}

pub open spec fn lit_week() -> Seq<char> {
    seq!['w', 'e', 'e', 'k']
}

pub open spec fn lit_month() -> Seq<char> {
    seq!['m', 'o', 'n', 't', 'h']
}

/// The `i64` a text spells as Rust reads one.
pub open spec fn i64_text(s: Seq<char>) -> Option<int> {
    match int_text(s, true) {
        Some(v) => if i64::MIN <= v <= i64::MAX {
            Some(v)
        } else {
            None
        },
        None => None,
    }
}

/// How many `:` the text holds.
pub open spec fn colon_count(s: Seq<char>) -> nat
    decreases s.len(),
{
    if s.len() == 0 {
        0
    } else {
        colon_count(s.drop_last()) + if s.last() == ':' {
            1nat
        } else {
            0nat
        }
    }
}

/// The days a relative range `±N(d|w)` moves by, when they fit an `i64`.
pub open spec fn relative_days(s: Seq<char>) -> Result<int, RangeError> {
    if s.len() < 2 {
        Err(RangeError::InvalidNumber)
    } else {
        match relative_days_raw(s) {
            Ok(d) => if i64::MIN <= d <= i64::MAX {
                Ok(d)
            } else {
                Err(RangeError::InvalidNumber)
            },
            Err(e) => Err(e),
        }
    }
}

/// The days of `±N(d|w)`, before any bound.
pub open spec fn relative_days_raw(s: Seq<char>) -> Result<int, RangeError> {
    let unit = s.last();
    let num = i64_text(s.subrange(1, s.len() - 1));
    match num {
        None => Err(RangeError::InvalidNumber),
        Some(n) => {
            let n2 = if s[0] == '-' {
                -n
            } else {
                n
            };
            if unit == 'd' {
                Ok(n2)
            } else if unit == 'w' {
                Ok(n2 * 7)
            } else {
                Err(RangeError::InvalidUnit(unit))
            }
        },
    }
}

/// The digits of `s` from `from` on, as a number, when it is at most
/// 2^63.
fn magnitude(s: &str, from: usize, n: usize) -> (r: Option<i128>)
    requires
        n == s@.len(),
        from <= n,
    ensures
        match r {
            Some(v) => all_digits(s@.subrange(from as int, n as int)) && v == digits_value(
                s@.subrange(from as int, n as int),
            ) && 0 <= v <= 0x8000_0000_0000_0000,
            None => !all_digits(s@.subrange(from as int, n as int)) || digits_value(
                s@.subrange(from as int, n as int),
            ) > 0x8000_0000_0000_0000,
        },
{
    let mut v: i128 = 0;
    let mut i: usize = from;
    assert(s@.subrange(from as int, from as int) =~= Seq::<char>::empty());
    while i < n
        invariant
            n == s@.len(),
            from <= i <= n,
            all_digits(s@.subrange(from as int, i as int)),
            v == digits_value(s@.subrange(from as int, i as int)),
            0 <= v <= 0x8000_0000_0000_0000,
        decreases n - i,
    {
        let c = s.get_char(i);
        let ghost prev = s@.subrange(from as int, i as int);
        let ghost next = s@.subrange(from as int, i + 1);
        assert(next.drop_last() =~= prev);
        if !('0' <= c && c <= '9') {
            proof {
                let t = s@.subrange(from as int, n as int);
                assert(t[(i - from) as int] == c);
            }
            return None;
        }
        v = v * 10 + (c as i128 - '0' as i128);
        proof {
            assert forall|j: int| 0 <= j < next.len() implies is_digit(#[trigger] next[j]) by {
                if j < prev.len() {
                    assert(next[j] == prev[j]);
                }
            }
        }
        i = i + 1;
        if v > 0x8000_0000_0000_0000 {
            proof {
                lemma_digits_grow(s@.subrange(from as int, n as int), (i - from) as int);
                assert(s@.subrange(from as int, n as int).subrange(0, (i - from) as int) =~= next);
            }
            return None;
        }
    }
    Some(v)
}

/// A prefix of a digit string is worth no more than the whole.
proof fn lemma_digits_grow(s: Seq<char>, k: int)
    requires
        all_digits(s.subrange(0, k)) || all_digits(s),
        0 <= k <= s.len(),
    ensures
        all_digits(s) ==> digits_value(s.subrange(0, k)) <= digits_value(s),
    decreases s.len() - k,
{
    if k == s.len() {
        assert(s.subrange(0, k) =~= s);
    } else if all_digits(s) {
        lemma_digits_grow(s, k + 1);
        let a = s.subrange(0, k);
        let b = s.subrange(0, k + 1);
        assert(b.drop_last() =~= a);
        assert(is_digit(s[k]));
        assert forall|i: int| 0 <= i < a.len() implies is_digit(#[trigger] a[i]) by {
            assert(a[i] == s[i]);
        }
        lemma_digits_nonneg(a);
    }
}

proof fn lemma_digits_nonneg(s: Seq<char>)
    requires
        all_digits(s),
    ensures
        digits_value(s) >= 0,
    decreases s.len(),
{
    if s.len() > 0 {
        assert(s.drop_last() =~= s.subrange(0, s.len() - 1));
        assert forall|i: int| 0 <= i < s.drop_last().len() implies is_digit(#[trigger] s.drop_last()[i]) by {
            assert(s.drop_last()[i] == s[i]);
        }
        lemma_digits_nonneg(s.drop_last());
        assert(is_digit(s[s.len() - 1]));
    }
}

/// The `i64` that `s` spells.
pub fn parse_i64(s: &str) -> (r: Option<i64>)
    ensures
        match i64_text(s@) {
            Some(v) => r == Some(v as i64),
            None => r is None,
        },
{
    let n = s.unicode_len();
    if n == 0 {
        return None;
    }
    let c = s.get_char(0);
    let (from, negative) = if c == '+' || c == '-' {
        (1usize, c == '-')
    } else {
        (0usize, false)
    };
    if from == 1 && n == 1 {
        return None;
    }
    assert(from == 1 ==> s@.drop_first() =~= s@.subrange(1, n as int));
    assert(from == 0 ==> s@ =~= s@.subrange(0, n as int));
    match magnitude(s, from, n) {
        None => None,
        Some(m) => {
            let v: i128 = if negative {
                -m
            } else {
                m
            };
            if v < i64::MIN as i128 || v > i64::MAX as i128 {
                None
            } else {
                Some(v as i64)
            }
        },
    }
}


/// Whether `s` equals the literal `lit`.
fn text_is(s: &str, lit: &str) -> (r: bool)
    ensures
        r == (s@ == lit@),
{
    let n = s.unicode_len();
    if n != lit.unicode_len() {
        return false;
    }
    let mut i: usize = 0;
    while i < n
        invariant
            n == s@.len(),
            n == lit@.len(),
            i <= n,
            forall|j: int| 0 <= j < i ==> s@[j] == lit@[j],
        decreases n - i,
    {
        if s.get_char(i) != lit.get_char(i) {
            return false;
        }
        i = i + 1;
    }
    assert(s@ =~= lit@);
    true
}

/// The days a relative range moves by.
fn relative(range: &str) -> (r: Result<i64, RangeError>)
    ensures
        match relative_days(range@) {
            Ok(d) => r == Ok::<i64, RangeError>(d as i64),
            Err(e) => r == Err::<i64, RangeError>(e),
        },
{
    let n = range.unicode_len();
    if n < 2 {
        return Err(RangeError::InvalidNumber);
    }
    let unit = range.get_char(n - 1);
    let num = match parse_i64(range.substring_char(1, n - 1)) {
        Some(v) => v,
        None => return Err(RangeError::InvalidNumber),
    };
    let signed: i128 = if range.get_char(0) == '-' {
        -(num as i128)
    } else {
        num as i128
    };
    let days: i128 = if unit == 'd' {
        signed
    } else if unit == 'w' {
        signed * 7
    } else {
        return Err(RangeError::InvalidUnit(unit));
    };
    if days < i64::MIN as i128 || days > i64::MAX as i128 {
        return Err(RangeError::InvalidNumber);
    }
    Ok(days as i64)
}

/// What the range text asks for: `today`, `tomorrow`, `week`, `month`,
/// `start:end`, `±N` days (`d`) or weeks (`w`), or one date.
pub fn parse_range_request(range: &str) -> (r: Result<RangeRequest, RangeError>)
    ensures
        range@ == lit_today() ==> r == Ok::<RangeRequest, RangeError>(RangeRequest::Today),
        range@ == lit_tomorrow() ==> r == Ok::<RangeRequest, RangeError>(RangeRequest::Tomorrow),
        range@ == lit_week() ==> r == Ok::<RangeRequest, RangeError>(RangeRequest::Week),
        range@ == lit_month() ==> r == Ok::<RangeRequest, RangeError>(RangeRequest::Month),
        ({
            let s = range@;
            let plain = s != lit_today() && s != lit_tomorrow() && s != lit_week() && s != lit_month();
            &&& plain && colon_count(s) == 1 ==> (r matches Ok(RangeRequest::Between(a, b)) && a@ == s.subrange(
                0,
                index_of(s, ':'),
            ) && b@ == s.subrange(index_of(s, ':') + 1, s.len() as int))
            &&& plain && colon_count(s) > 1 ==> r == Err::<RangeRequest, RangeError>(RangeError::NotStartEnd)
            &&& plain && colon_count(s) == 0 && s.len() > 0 && (s[0] == '+' || s[0] == '-') ==> match relative_days(s) {
                Ok(d) => r == Ok::<RangeRequest, RangeError>(RangeRequest::Relative(d as i64)),
                Err(e) => r == Err::<RangeRequest, RangeError>(e),
            }
            &&& plain && colon_count(s) == 0 && !(s.len() > 0 && (s[0] == '+' || s[0] == '-')) ==> (r matches Ok(
                RangeRequest::Day(d),
            ) && d@ == s)
        }),
{
    proof {
        reveal_strlit("today");
        reveal_strlit("tomorrow");
        reveal_strlit("week");
        reveal_strlit("month");
    }
    assert("today"@ =~= lit_today());
    assert("tomorrow"@ =~= lit_tomorrow());
    assert("week"@ =~= lit_week());
    assert("month"@ =~= lit_month());
    if text_is(range, "today") {
        return Ok(RangeRequest::Today);
    }
    if text_is(range, "tomorrow") {
        return Ok(RangeRequest::Tomorrow);
    }
    if text_is(range, "week") {
        return Ok(RangeRequest::Week);
    }
    if text_is(range, "month") {
        return Ok(RangeRequest::Month);
    }
    let ghost s = range@;
    let n = range.unicode_len();
    let mut count: usize = 0;
    let mut first: usize = 0;
    let mut i: usize = 0;
    assert(s.subrange(0, 0) =~= Seq::<char>::empty());
    while i < n
        invariant
            n == s.len(),
            s == range@,
            i <= n,
            count <= i,
            colon_count(s.subrange(0, i as int)) == count,
            count == 0 ==> forall|j: int| 0 <= j < i ==> s[j] != ':',
            count >= 1 ==> first < i && s[first as int] == ':' && forall|j: int| 0 <= j < first ==> s[j] != ':',
        decreases n - i,
    {
        assert(s.subrange(0, i + 1).drop_last() =~= s.subrange(0, i as int));
        if range.get_char(i) == ':' {
            if count == 0 {
                first = i;
            }
            count = count + 1;
        }
        i = i + 1;
    }
    assert(s.subrange(0, n as int) =~= s);
    if count == 1 {
        proof {
            lemma_index_of(s, ':', first as int);
        }
        let a = String::from_str(range.substring_char(0, first));
        let b = String::from_str(range.substring_char(first + 1, n));
        return Ok(RangeRequest::Between(a, b));
    }
    if count > 1 {
        return Err(RangeError::NotStartEnd);
    }
    if n > 0 {
        let c = range.get_char(0);
        if c == '+' || c == '-' {
            return match relative(range) {
                Ok(d) => Ok(RangeRequest::Relative(d)),
                Err(e) => Err(e),
            };
        }
    }
    Ok(RangeRequest::Day(String::from_str(range)))
}

} // verus!
