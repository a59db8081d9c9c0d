//! Expansion of a recurring event into its occurrences within a window
//! around the present.

use vstd::prelude::*;
use crate::clock::{now_timestamp, utc_basic_stamp, utc_basic_text};
use crate::models::{events_view, CalendarEvent, EventView, Timestamp};
use crate::strings::{starts_with, str_starts_with};

verus! {

/// Seconds in a day.
pub const SECONDS_PER_DAY: i64 = 86400;

/// The most occurrences that one expansion asks the rule for.
pub const MAX_OCCURRENCES: u16 = 65535;

/// How far around the present recurring events are expanded.
#[derive(Debug, Clone)]
pub struct RecurrenceConfig {
    /// Days after now.
    pub expand_forward_days: i64,
    /// Days before now.
    pub expand_backward_days: i64,
}

impl Default for RecurrenceConfig {
    fn default() -> (r: Self)
        ensures
            r.expand_forward_days == 730,
            r.expand_backward_days == 365,
    {
        RecurrenceConfig { expand_forward_days: 730, expand_backward_days: 365 }
    }
}

/// `v` clamped to the range of `i64`.
pub open spec fn clamp_i64(v: int) -> int {
    if v < i64::MIN {
        i64::MIN as int
    } else if v > i64::MAX {
        i64::MAX as int
    } else {
        v
    }
}

/// The first instant of the expansion window.
pub open spec fn window_start(now: int, config: RecurrenceConfig) -> int {
    clamp_i64(now - config.expand_backward_days * SECONDS_PER_DAY)
}

/// The last instant of the expansion window.
pub open spec fn window_end(now: int, config: RecurrenceConfig) -> int {
    clamp_i64(now + config.expand_forward_days * SECONDS_PER_DAY)
}

/// `now` moved by `days` whole days, clamped to the range of `i64`.
fn shift_days(now: Timestamp, days: i64, forward: bool) -> (r: Timestamp)
    ensures
        r == clamp_i64(
            if forward {
                now + days * SECONDS_PER_DAY
            } else {
                now - days * SECONDS_PER_DAY
            },
        ),
{
    assert(-0x8000_0000_0000_0000 * 86400 <= days * 86400 <= 0x7fff_ffff_ffff_ffff * 86400)
        by (nonlinear_arith)
        requires
            -0x8000_0000_0000_0000 <= days <= 0x7fff_ffff_ffff_ffff,
    ;
    let delta: i128 = (days as i128) * (SECONDS_PER_DAY as i128);
    let v: i128 = if forward {
        now as i128 + delta
    } else {
        now as i128 - delta
    };
    if v < i64::MIN as i128 {
        i64::MIN
    } else if v > i64::MAX as i128 {
        i64::MAX
    } else {
        v as i64
    }
}

/// The occurrences of a series that lie in `[ws, we]`, taken in order up to
/// the first one after `we`; each keeps the event's duration, and one whose
/// end is not representable is left out.
pub open spec fn window_instances(ev: EventView, occ: Seq<Timestamp>, ws: int, we: int) -> Seq<
    EventView,
>
    decreases occ.len(),
{
    if occ.len() == 0 {
        Seq::empty()
    } else if occ[0] > we {
        Seq::empty()
    } else {
        let rest = window_instances(ev, occ.drop_first(), ws, we);
        let end = occ[0] + (ev.end - ev.start);
        if occ[0] < ws || end < i64::MIN || end > i64::MAX {
            rest
        } else {
            seq![ev.with_times(occ[0] as int, end)] + rest
        }
    }
}

/// The window's occurrences, or the event itself when there are none.
pub open spec fn expansion_of(ev: EventView, occ: Seq<Timestamp>, ws: int, we: int) -> Seq<
    EventView,
> {
    let inst = window_instances(ev, occ, ws, we);
    if inst.len() == 0 {
        seq![ev]
    } else {
        inst
    }
}

/// Every instance lies in the window, is the event moved, and keeps its
/// duration.
pub proof fn lemma_window_instances(ev: EventView, occ: Seq<Timestamp>, ws: int, we: int)
    ensures
        forall|i: int|
            #![trigger window_instances(ev, occ, ws, we)[i]]
            0 <= i < window_instances(ev, occ, ws, we).len() ==> {
                let x = window_instances(ev, occ, ws, we)[i];
                &&& ws <= x.start <= we
                &&& x.end - x.start == ev.end - ev.start
                &&& x == ev.with_times(x.start, x.end)
            },
        window_instances(ev, occ, ws, we).len() <= occ.len(),
    decreases occ.len(),
{
    if occ.len() > 0 && occ[0] <= we {
        lemma_window_instances(ev, occ.drop_first(), ws, we);
    }
}

/// The instances for the occurrences `occurrences` of the series of `event`:
/// those in `[window_start, window_end]`, or the event itself when none is.
pub fn instances_from_occurrences(
    event: &CalendarEvent,
    occurrences: &Vec<Timestamp>,
    window_start: Timestamp,
    window_end: Timestamp,
) -> (r: Vec<CalendarEvent>)
    ensures
        events_view(r@) == expansion_of(
            event@,
            occurrences@,
            window_start as int,
            window_end as int,
        ),
{
    let ghost ev = event@;
    let ghost occ = occurrences@;
    let ghost ws = window_start as int;
    let ghost we = window_end as int;
    let duration: i128 = event.end as i128 - event.start as i128;
    let mut out: Vec<CalendarEvent> = Vec::new();
    let mut i: usize = 0;
    let mut done = false;
    assert(occ.subrange(0, occ.len() as int) =~= occ);
    assert(events_view(out@) + window_instances(ev, occ, ws, we) =~= window_instances(ev, occ, ws, we));
    while i < occurrences.len() && !done
        invariant
            i <= occ.len(),
            occ == occurrences@,
            ev == event@,
            ws == window_start as int,
            we == window_end as int,
            duration == ev.end - ev.start,
            window_instances(ev, occ, ws, we) == events_view(out@) + window_instances(
                ev,
                occ.subrange(i as int, occ.len() as int),
                ws,
                we,
            ),
            done ==> window_instances(ev, occ.subrange(i as int, occ.len() as int), ws, we)
                =~= Seq::<EventView>::empty(),
        decreases occ.len() - i + (if done { 0int } else { 1int }),
    {
        let o = occurrences[i];
        let ghost tail = occ.subrange(i as int, occ.len() as int);
        let ghost next = occ.subrange(i + 1, occ.len() as int);
        assert(tail.drop_first() =~= next);
        assert(tail[0] == o);
        if o > window_end {
            done = true;
        } else {
            let end: i128 = o as i128 + duration;
            if o >= window_start && i64::MIN as i128 <= end && end <= i64::MAX as i128 {
                let mut instance = event.duplicate();
                instance.start = o;
                instance.end = end as i64;
                let ghost before = out@;
                out.push(instance);
                assert(events_view(out@) =~= events_view(before).push(instance@));
                assert(instance@ == ev.with_times(o as int, end as int));
                assert(window_instances(ev, tail, ws, we) == seq![instance@] + window_instances(ev, next, ws, we));
                assert(events_view(before).push(instance@) + window_instances(ev, next, ws, we)
                    =~= events_view(before) + (seq![instance@] + window_instances(ev, next, ws, we)));
            } else {
                assert(window_instances(ev, tail, ws, we) == window_instances(ev, next, ws, we));
            }
            i = i + 1;
        }
    }
    proof {
        if !done {
            assert(occ.subrange(i as int, occ.len() as int) =~= Seq::<Timestamp>::empty());
        }
        assert(events_view(out@) + Seq::<EventView>::empty() =~= events_view(out@));
    }
    if out.len() == 0 {
        out.push(event.duplicate());
        assert(events_view(out@) =~= seq![event@]);
    }
    out
}


/// `UNTIL=`
pub open spec fn until_key() -> Seq<char> {
    seq!['U', 'N', 'T', 'I', 'L', '=']
}

pub open spec fn is_digit(c: char) -> bool {
    '0' <= c && c <= '9'
}

/// A bare date `YYYYMMDD`.
pub open spec fn is_bare_date(v: Seq<char>) -> bool {
    v.len() == 8 && forall|i: int| 0 <= i < v.len() ==> is_digit(#[trigger] v[i])
}

/// A naive date-time `YYYYMMDDTHHMMSS` (digits and `T` only).
pub open spec fn is_naive_datetime(v: Seq<char>) -> bool {
    v.len() == 15 && forall|i: int| 0 <= i < v.len() ==> is_digit(#[trigger] v[i]) || v[i] == 'T'
}

/// One `;`-separated part of a rule with an `UNTIL` value made absolute: a
/// bare date becomes midnight UTC, a naive date-time gets the UTC marker,
/// anything else stays.
pub open spec fn normalize_part(p: Seq<char>) -> Seq<char> {
    if starts_with(p, until_key()) {
        let v = p.subrange(6, p.len() as int);
        if v.len() > 0 && v.last() == 'Z' {
            p
        } else if is_bare_date(v) {
            p + seq!['T', '0', '0', '0', '0', '0', '0', 'Z']
        } else if is_naive_datetime(v) {
            p.push('Z')
        } else {
            p
        }
    } else {
        p
    }
}

/// The rest `s` of a rule normalized part by part, `cur` being the part
/// read so far.
pub open spec fn normalize_from(s: Seq<char>, cur: Seq<char>) -> Seq<char>
    decreases s.len(),
{
    if s.len() == 0 {
        normalize_part(cur)
    } else if s[0] == ';' {
        normalize_part(cur) + seq![';'] + normalize_from(s.drop_first(), Seq::empty())
    } else {
        normalize_from(s.drop_first(), cur.push(s[0]))
    }
}

/// A rule with every `UNTIL` value made absolute.
pub open spec fn normalize_rule(s: Seq<char>) -> Seq<char> {
    normalize_from(s, Seq::empty())
}

fn is_digit_char(c: char) -> (r: bool)
    ensures
        r == is_digit(c),
{
    '0' <= c && c <= '9'
}

/// One part of a rule with its `UNTIL` value made absolute.
fn normalize_until_part(p: &str) -> (r: String)
    ensures
        r@ == normalize_part(p@),
{
    proof {
        reveal_strlit("UNTIL=");
        reveal_strlit("T000000Z");
        reveal_strlit("Z");
    }
    let key = "UNTIL=";
    assert(key@ =~= until_key());
    let mut r = String::from_str(p);
    if !str_starts_with(p, key) {
        return r;
    }
    let n = p.unicode_len();
    let ghost v = p@.subrange(6, n as int);
    if n > 6 && p.get_char(n - 1) == 'Z' {
        assert(v.last() == p@[n - 1]);
        return r;
    }
    let len = n - 6;
    let mut digits = true;
    let mut digits_or_t = true;
    let mut i: usize = 6;
    while i < n
        invariant
            n == p@.len(),
            6 <= i <= n,
            v == p@.subrange(6, n as int),
            digits == (forall|j: int| 6 <= j < i ==> is_digit(#[trigger] p@[j])),
            digits_or_t == (forall|j: int| 6 <= j < i ==> is_digit(#[trigger] p@[j]) || p@[j] == 'T'),
        decreases n - i,
    {
        let c = p.get_char(i);
        let d = is_digit_char(c);
        digits = digits && d;
        digits_or_t = digits_or_t && (d || c == 'T');
        i = i + 1;
    }
    assert(digits == (forall|j: int| 0 <= j < v.len() ==> is_digit(#[trigger] v[j]))) by {
        if digits {
            assert forall|j: int| 0 <= j < v.len() implies is_digit(#[trigger] v[j]) by {
                assert(v[j] == p@[j + 6]);
            }
        } else {
            let j = choose|j: int| 6 <= j < n && !is_digit(#[trigger] p@[j]);
            assert(v[j - 6] == p@[j]);
        }
    }
    assert(digits_or_t == (forall|j: int| 0 <= j < v.len() ==> is_digit(#[trigger] v[j]) || v[j] == 'T')) by {
        if digits_or_t {
            assert forall|j: int| 0 <= j < v.len() implies is_digit(#[trigger] v[j]) || v[j] == 'T' by {
                assert(v[j] == p@[j + 6]);
            }
        } else {
            let j = choose|j: int| 6 <= j < n && !(is_digit(#[trigger] p@[j]) || p@[j] == 'T');
            assert(v[j - 6] == p@[j]);
        }
    }
    if len == 8 && digits {
        r.append("T000000Z");
        assert("T000000Z"@ =~= seq!['T', '0', '0', '0', '0', '0', '0', 'Z']);
    } else if len == 15 && digits_or_t {
        r.append("Z");
        assert(p@ + "Z"@ =~= p@.push('Z'));
    }
    r
}

/// The rule with every `UNTIL` value made absolute: `UNTIL=YYYYMMDD`
/// becomes `UNTIL=YYYYMMDDT000000Z` and `UNTIL=YYYYMMDDTHHMMSS` becomes
/// `UNTIL=YYYYMMDDTHHMMSSZ`.
pub fn normalize_until_to_utc(rrule_str: &str) -> (r: String)
    ensures
        r@ == normalize_rule(rrule_str@),
{
    proof {
        reveal_strlit(";");
    }
    let s = rrule_str;
    let n = s.unicode_len();
    let mut out = String::new();
    let mut seg: usize = 0;
    let mut i: usize = 0;
    assert(s@.subrange(0, n as int) =~= s@);
    assert(s@.subrange(0, 0) =~= Seq::<char>::empty());
    assert(out@ + normalize_from(s@, Seq::empty()) =~= normalize_rule(s@));
    while i < n
        invariant
            n == s@.len(),
            seg <= i <= n,
            normalize_rule(s@) == out@ + normalize_from(
                s@.subrange(i as int, n as int),
                s@.subrange(seg as int, i as int),
            ),
        decreases n - i,
    {
        let c = s.get_char(i);
        let ghost rest = s@.subrange(i as int, n as int);
        assert(rest.drop_first() =~= s@.subrange(i + 1, n as int));
        assert(rest[0] == c);
        if c == ';' {
            let part = normalize_until_part(s.substring_char(seg, i));
            let ghost before = out@;
            out.append(part.as_str());
            out.append(";");
            proof {
                reveal_strlit(";");
            }
            assert(";"@ =~= seq![';']);
            assert(s@.subrange(i + 1, i + 1) =~= Seq::<char>::empty());
            assert(before + part@ + ";"@ + normalize_from(s@.subrange(i + 1, n as int), Seq::empty())
                =~= before + (normalize_part(s@.subrange(seg as int, i as int)) + seq![';']
                + normalize_from(s@.subrange(i + 1, n as int), Seq::empty())));
            seg = i + 1;
        } else {
            assert(s@.subrange(seg as int, i as int).push(c) =~= s@.subrange(seg as int, i + 1));
        }
        i = i + 1;
    }
    let last = normalize_until_part(s.substring_char(seg, n));
    assert(s@.subrange(n as int, n as int) =~= Seq::<char>::empty());
    out.append(last.as_str());
    out
}

/// The rule is one line: it holds no line break.
pub open spec fn single_line(rule: Seq<char>) -> bool {
    forall|i: int| 0 <= i < rule.len() ==> rule[i] != '\n' && rule[i] != '\r'
}

/// The start stamp a rule is anchored with: none for a rule of more than one
/// line (rrule would read the other lines as further properties), else the
/// start's text when chrono can write it.
pub open spec fn stamp_for(rule: Seq<char>, start: Timestamp) -> Option<Seq<char>> {
    if single_line(rule) {
        utc_basic_text(start)
    } else {
        None
    }
}

/// The iCalendar text of a rule anchored at a start: `DTSTART:<stamp>`, a
/// line break, then `RRULE:<rule>`.
pub open spec fn rule_text(stamp: Seq<char>, rule: Seq<char>) -> Seq<char> {
    seq!['D', 'T', 'S', 'T', 'A', 'R', 'T', ':'] + stamp + seq!['\n', 'R', 'R', 'U', 'L', 'E', ':'] + rule
}

/// The rule text for `rrule_str` starting at `dtstart`, with its `UNTIL`
/// values made absolute; `None` when the start cannot be written.
pub fn rrule_text(rrule_str: &str, dtstart: Timestamp) -> (r: Option<String>)
    ensures
        match stamp_for(rrule_str@, dtstart) {
            Some(stamp) => r is Some && r->0@ == rule_text(stamp, normalize_rule(rrule_str@)),
            None => r is None,
        },
{
    proof {
        reveal_strlit("DTSTART:");
        reveal_strlit("\nRRULE:");
    }
    let n = rrule_str.unicode_len();
    let mut i: usize = 0;
    while i < n
        invariant
            n == rrule_str@.len(),
            i <= n,
            forall|j: int| 0 <= j < i ==> rrule_str@[j] != '\n' && rrule_str@[j] != '\r',
        decreases n - i,
    {
        let c = rrule_str.get_char(i);
        if c == '\n' || c == '\r' {
            return None;
        }
        i = i + 1;
    }
    let stamp = match utc_basic_stamp(dtstart) {
        Some(t) => t,
        None => return None,
    };
    let normalized = normalize_until_to_utc(rrule_str);
    let mut text = String::from_str("DTSTART:");
    text.append(stamp.as_str());
    text.append("\nRRULE:");
    text.append(normalized.as_str());
    assert(text@ =~= rule_text(stamp@, normalize_rule(rrule_str@)));
    Some(text)
}

/// The occurrences, in seconds, that rrule lists for an iCalendar rule text
/// from `start` to `end` (both included), at most `cap`; `None` when the text
/// is refused. The library only hands rrule a UTC `DTSTART` line followed by
/// one `RRULE` line, whose occurrences do not depend on the machine's zone.
pub uninterp spec fn rrule_dates(text: Seq<char>, start: Timestamp, end: Timestamp, cap: u16) -> Option<Seq<Timestamp>>;

/// Relies on rrule's `RRuleSet::from_str` (an error for a rule it refuses)
/// and `after(start).before(end).all(cap)`: at most `cap` occurrences, none
/// before `start` or after `end` (both bounds inclusive); and on chrono's
/// `DateTime::from_timestamp` for the bounds (`None` out of its range).
#[verifier::external_body]
fn rrule_occurrences(text: &str, start: Timestamp, end: Timestamp, cap: u16) -> (r: Option<Vec<Timestamp>>)
    ensures
        match r {
            Some(v) => rrule_dates(text@, start, end, cap) == Some(v@) && v@.len() <= cap && forall|i: int|
                0 <= i < v@.len() ==> v@[i] <= end,
            None => rrule_dates(text@, start, end, cap) is None,
        },
{
    let set: rrule::RRuleSet = match text.parse() {
        Ok(set) => set,
        Err(_) => return None,
    };
    let (start, end) = match (chrono::DateTime::from_timestamp(start, 0), chrono::DateTime::from_timestamp(end, 0)) {
        (Some(a), Some(b)) => (a.with_timezone(&rrule::Tz::UTC), b.with_timezone(&rrule::Tz::UTC)),
        _ => return None,
    };
    let mut out = Vec::new();
    for d in set.after(start).before(end).all(cap).dates {
        out.push(d.timestamp());
    }
    Some(out)
}

/// What the expansion of `ev` at `now` is, given the rule's occurrences.
pub open spec fn expansion_at(ev: EventView, config: RecurrenceConfig, now: Timestamp) -> Seq<
    EventView,
> {
    match ev.rrule {
        None => seq![ev],
        Some(rule) => match stamp_for(rule, ev.start as Timestamp) {
            None => seq![ev],
            Some(stamp) => match rrule_dates(
                rule_text(stamp, normalize_rule(rule)),
                window_start(now as int, config) as Timestamp,
                window_end(now as int, config) as Timestamp,
                MAX_OCCURRENCES,
            ) {
                None => seq![ev],
                Some(occ) => expansion_of(
                    ev,
                    occ,
                    window_start(now as int, config),
                    window_end(now as int, config),
                ),
            },
        },
    }
}

/// The occurrences of `event` within the window around `now`, or the event
/// itself when it has no rule, its rule is refused, or no occurrence falls
/// in the window.
pub fn expand_recurring_event_at(event: &CalendarEvent, config: &RecurrenceConfig, now: Timestamp) -> (r: Vec<
    CalendarEvent,
>)
    ensures
        events_view(r@) == expansion_at(event@, *config, now),
        r@.len() >= 1,
        event.rrule is None ==> events_view(r@) == seq![event@],
        forall|i: int|
            0 <= i < r@.len() ==> {
                let x = (#[trigger] r@[i])@;
                &&& x == event@.with_times(x.start, x.end)
                &&& x.end - x.start == event@.end - event@.start
            },
{
    let rule = match &event.rrule {
        None => {
            let r = vec![event.duplicate()];
            assert(events_view(r@) =~= seq![event@]);
            return r;
        },
        Some(rule) => rule,
    };
    let ws = shift_days(now, config.expand_backward_days, false);
    let we = shift_days(now, config.expand_forward_days, true);
    let text = match rrule_text(rule.as_str(), event.start) {
        Some(t) => t,
        None => {
            let r = vec![event.duplicate()];
            assert(events_view(r@) =~= seq![event@]);
            return r;
        },
    };
    let occurrences = match rrule_occurrences(text.as_str(), ws, we, MAX_OCCURRENCES) {
        Some(o) => o,
        None => {
            let r = vec![event.duplicate()];
            assert(events_view(r@) =~= seq![event@]);
            return r;
        },
    };
    let r = instances_from_occurrences(event, &occurrences, ws, we);
    assert(events_view(r@).len() == r@.len());
    proof {
        lemma_window_instances(event@, occurrences@, ws as int, we as int);
        assert forall|i: int| 0 <= i < r@.len() implies {
            let x = (#[trigger] r@[i])@;
            &&& x == event@.with_times(x.start, x.end)
            &&& x.end - x.start == event@.end - event@.start
        } by {
            assert(r@[i]@ == events_view(r@)[i]);
            let w = window_instances(event@, occurrences@, ws as int, we as int);
            if w.len() == 0 {
                assert(event@.with_times(event@.start, event@.end) =~= event@);
            } else {
                assert(events_view(r@)[i] == w[i]);
            }
        }
    }
    r
}

/// The occurrences of `event` within the window around the present, or the
/// event itself when it has no rule, its rule is refused, or no occurrence
/// falls in the window.
pub fn expand_recurring_event(event: &CalendarEvent, config: &RecurrenceConfig) -> (r: Vec<
    CalendarEvent,
>)
    ensures
        exists|now: Timestamp| events_view(r@) == expansion_at(event@, *config, now),
        r@.len() >= 1,
        event.rrule is None ==> events_view(r@) == seq![event@],
        forall|i: int|
            0 <= i < r@.len() ==> {
                let x = (#[trigger] r@[i])@;
                &&& x == event@.with_times(x.start, x.end)
                &&& x.end - x.start == event@.end - event@.start
            },
{
    let now = now_timestamp();
    let r = expand_recurring_event_at(event, config, now);
    assert(events_view(r@) == expansion_at(event@, *config, now));
    r
}

/// The occurrences of an expansion are the event moved.
pub proof fn lemma_expansion_members(ev: EventView, config: RecurrenceConfig, now: Timestamp)
    ensures
        forall|i: int|
            0 <= i < expansion_at(ev, config, now).len() ==> #[trigger] expansion_at(ev, config, now)[i]
                == ev.with_times(expansion_at(ev, config, now)[i].start, expansion_at(ev, config, now)[i].end),
{
    let g = expansion_at(ev, config, now);
    assert(ev.with_times(ev.start, ev.end) =~= ev);
    match ev.rrule {
        None => {},
        Some(rule) => match stamp_for(rule, ev.start as Timestamp) {
            None => {},
            Some(stamp) => match rrule_dates(
                rule_text(stamp, normalize_rule(rule)),
                window_start(now as int, config) as Timestamp,
                window_end(now as int, config) as Timestamp,
                MAX_OCCURRENCES,
            ) {
                None => {},
                Some(occ) => {
                    lemma_window_instances(ev, occ, window_start(now as int, config), window_end(now as int, config));
                },
            },
        },
    }
}

/// Duration preservation: every instance of an expansion lasts exactly as
/// long as the event.
pub proof fn lemma_duration_preserved(ev: EventView, config: RecurrenceConfig, now: Timestamp)
    ensures
        forall|i: int|
            0 <= i < expansion_at(ev, config, now).len() ==> (#[trigger] expansion_at(ev, config, now)[i]).end
                - expansion_at(ev, config, now)[i].start == ev.end - ev.start,
{
    let g = expansion_at(ev, config, now);
    lemma_expansion_members(ev, config, now);
    assert forall|i: int| 0 <= i < g.len() implies (#[trigger] g[i]).end - g[i].start == ev.end - ev.start by {
        match ev.rrule {
            None => {},
            Some(rule) => match stamp_for(rule, ev.start as Timestamp) {
                None => {},
                Some(stamp) => match rrule_dates(
                    rule_text(stamp, normalize_rule(rule)),
                    window_start(now as int, config) as Timestamp,
                    window_end(now as int, config) as Timestamp,
                    MAX_OCCURRENCES,
                ) {
                    None => {},
                    Some(occ) => {
                        let ws = window_start(now as int, config);
                        let we = window_end(now as int, config);
                        lemma_window_instances(ev, occ, ws, we);
                        if window_instances(ev, occ, ws, we).len() > 0 {
                            assert(g[i] == window_instances(ev, occ, ws, we)[i]);
                        }
                    },
                },
            },
        }
    }
}

/// No occurrence in the window: no instance.
proof fn lemma_no_instances(ev: EventView, occ: Seq<Timestamp>, ws: int, we: int)
    requires
        forall|i: int| 0 <= i < occ.len() ==> #[trigger] occ[i] < ws || occ[i] > we,
    ensures
        window_instances(ev, occ, ws, we) == Seq::<EventView>::empty(),
    decreases occ.len(),
{
    if occ.len() > 0 && occ[0] <= we {
        let d = occ.drop_first();
        assert forall|i: int| 0 <= i < d.len() implies #[trigger] d[i] < ws || d[i] > we by {
            assert(d[i] == occ[i + 1]);
        }
        lemma_no_instances(ev, d, ws, we);
    }
}

/// Empty-window fallback: a series none of whose occurrences falls in the
/// window expands to the event itself, unchanged.
pub proof fn lemma_empty_window_fallback(ev: EventView, occ: Seq<Timestamp>, ws: int, we: int)
    requires
        forall|i: int| 0 <= i < occ.len() ==> #[trigger] occ[i] < ws || occ[i] > we,
    ensures
        expansion_of(ev, occ, ws, we) == seq![ev],
{
    lemma_no_instances(ev, occ, ws, we);
}

/// Recurrence windowing: an expansion is either the event itself, or
/// instances that all start within the window, no more of them than the
/// rule listed occurrences.
pub proof fn lemma_windowing(ev: EventView, occ: Seq<Timestamp>, ws: int, we: int)
    ensures
        expansion_of(ev, occ, ws, we) == seq![ev] || (expansion_of(ev, occ, ws, we).len() <= occ.len()
            && forall|i: int|
            0 <= i < expansion_of(ev, occ, ws, we).len() ==> ws <= (#[trigger] expansion_of(
                ev,
                occ,
                ws,
                we,
            )[i]).start <= we),
{
    lemma_window_instances(ev, occ, ws, we);
}

} // verus!
