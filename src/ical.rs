//! Calendar objects read into events and todos.

use vstd::prelude::*;
use crate::datetime::{exdate_instant, fixed_instant, parse_datetime, parse_exdate_value, IcalTime};
use crate::models::{events_view, opt_view, CalendarEvent, EventView, Timestamp, Todo};
use icalendar::{Component, EventLike, Todo as IcalTodo};

verus! {

/// Why a calendar component gave no record.
#[derive(Debug, Clone, PartialEq, Eq)]
pub enum ParseError {
    /// The event has no UID.
    EventMissingUid,
    /// The event has no usable start.
    EventMissingStart,
    /// The todo has no UID.
    TodoMissingUid,
}

/// The sentence for each parse error.
pub open spec fn parse_error_text(e: ParseError) -> Seq<char> {
    match e {
        ParseError::EventMissingUid => "Event missing UID"@,
        ParseError::EventMissingStart => "Event missing start time"@,
        ParseError::TodoMissingUid => "Todo missing UID"@,
    }
}

impl ParseError {
    /// A sentence that says what is missing.
    pub fn message(&self) -> (r: String)
        ensures
            r@ == parse_error_text(*self),
    {
        proof {
            reveal_strlit("Event missing UID");
            reveal_strlit("Event missing start time");
            reveal_strlit("Todo missing UID");
        }
        match self {
            ParseError::EventMissingUid => String::from_str("Event missing UID"),
            ParseError::EventMissingStart => String::from_str("Event missing start time"),
            ParseError::TodoMissingUid => String::from_str("Todo missing UID"),
        }
    }
}

/// What an event component holds, as plain values.
#[derive(Debug, Clone, PartialEq, Eq)]
pub struct EventFields {
    pub uid: Option<String>,
    pub summary: Option<String>,
    pub description: Option<String>,
    pub location: Option<String>,
    pub start: Option<IcalTime>,
    pub end: Option<IcalTime>,
    pub rrule: Option<String>,
    /// The values of the EXDATE properties, each possibly a comma-separated list.
    pub exdates: Vec<String>,
    pub status: Option<String>,
}

/// What a todo component holds, as plain values.
#[derive(Debug, Clone, PartialEq, Eq)]
pub struct TodoFields {
    pub uid: Option<String>,
    pub summary: Option<String>,
    pub description: Option<String>,
    pub due: Option<IcalTime>,
    pub start: Option<IcalTime>,
    pub completed: Option<Timestamp>,
    pub priority: Option<u32>,
    pub percent_complete: Option<u8>,
    pub status: Option<String>,
}

/// A text with leading and trailing white space removed, as `str::trim`
/// does it.
pub uninterp spec fn trimmed(s: Seq<char>) -> Seq<char>;

/// Relies on `str::trim`.
#[verifier::external_body]
fn trim_text(s: &str) -> (r: String)
    ensures
        r@ == trimmed(s@),
{
    s.trim().to_string()
}

/// The instant a value names, as a sequence of at most one.
pub open spec fn opt_seq(o: Option<Timestamp>) -> Seq<Timestamp> {
    match o {
        Some(t) => seq![t],
        None => Seq::empty(),
    }
}

/// The instants of the comma-separated rest `s` of an EXDATE value, `cur`
/// being the piece read so far.
pub open spec fn pieces_instants(s: Seq<char>, cur: Seq<char>) -> Seq<Timestamp>
    decreases s.len(),
{
    if s.len() == 0 {
        opt_seq(exdate_instant(trimmed(cur)))
    } else if s[0] == ',' {
        opt_seq(exdate_instant(trimmed(cur))) + pieces_instants(s.drop_first(), Seq::empty())
    } else {
        pieces_instants(s.drop_first(), cur.push(s[0]))
    }
}

/// The instants of EXDATE values, in order; pieces that name none are left out.
pub open spec fn exdates_of(values: Seq<String>) -> Seq<Timestamp>
    decreases values.len(),
{
    if values.len() == 0 {
        Seq::empty()
    } else {
        exdates_of(values.drop_last()) + pieces_instants(values.last()@, Seq::empty())
    }
}

/// The instant of one trimmed piece, pushed onto `out` when there is one.
fn push_piece(out: &mut Vec<Timestamp>, piece: &str)
    ensures
        final(out)@ == old(out)@ + opt_seq(exdate_instant(trimmed(piece@))),
{
    let t = trim_text(piece);
    match parse_exdate_value(t.as_str()) {
        Some(ts) => {
            out.push(ts);
            assert(final(out)@ =~= old(out)@ + seq![ts]);
        },
        None => {
            assert(out@ =~= out@ + Seq::<Timestamp>::empty());
        },
    }
}

/// The instants of the EXDATE values.
pub fn parse_exdates(values: &Vec<String>) -> (r: Vec<Timestamp>)
    ensures
        r@ == exdates_of(values@),
{
    let mut out: Vec<Timestamp> = Vec::new();
    let mut k: usize = 0;
    assert(values@.subrange(0, 0) =~= Seq::<String>::empty());
    while k < values.len()
        invariant
            k <= values.len(),
            out@ == exdates_of(values@.subrange(0, k as int)),
        decreases values.len() - k,
    {
        let v = values[k].as_str();
        let ghost before = out@;
        let n = v.unicode_len();
        let mut seg: usize = 0;
        let mut i: usize = 0;
        assert(v@.subrange(0, 0) =~= Seq::<char>::empty());
        assert(v@.subrange(0, n as int) =~= v@);
        assert(out@ + pieces_instants(v@, Seq::empty()) == before + pieces_instants(
            v@.subrange(0, n as int),
            v@.subrange(0, 0),
        ));
        while i < n
            invariant
                n == v@.len(),
                seg <= i <= n,
                out@ + pieces_instants(v@.subrange(i as int, n as int), v@.subrange(seg as int, i as int))
                    == before + pieces_instants(v@, Seq::empty()),
            decreases n - i,
        {
            let c = v.get_char(i);
            let ghost rest = v@.subrange(i as int, n as int);
            assert(rest.drop_first() =~= v@.subrange(i + 1, n as int));
            assert(rest[0] == c);
            if c == ',' {
                let ghost o = out@;
                push_piece(&mut out, v.substring_char(seg, i));
                assert(v@.subrange(i + 1, i + 1) =~= Seq::<char>::empty());
                assert(o + opt_seq(exdate_instant(trimmed(v@.subrange(seg as int, i as int))))
                    + pieces_instants(v@.subrange(i + 1, n as int), Seq::empty()) =~= o + (opt_seq(
                    exdate_instant(trimmed(v@.subrange(seg as int, i as int))),
                ) + pieces_instants(v@.subrange(i + 1, n as int), Seq::empty())));
                seg = i + 1;
            } else {
                assert(v@.subrange(seg as int, i as int).push(c) =~= v@.subrange(seg as int, i + 1));
            }
            i = i + 1;
        }
        assert(v@.subrange(n as int, n as int) =~= Seq::<char>::empty());
        push_piece(&mut out, v.substring_char(seg, n));
        proof {
            let sub = values@.subrange(0, k + 1);
            assert(sub.drop_last() =~= values@.subrange(0, k as int));
            assert(sub.last() == values@[k as int]);
        }
        k = k + 1;
    }
    assert(values@.subrange(0, values.len() as int) =~= values@);
    out
}

/// `Untitled Event`
pub open spec fn untitled_event() -> Seq<char> {
    seq!['U', 'n', 't', 'i', 't', 'l', 'e', 'd', ' ', 'E', 'v', 'e', 'n', 't']
}

/// `Untitled Task`
pub open spec fn untitled_task() -> Seq<char> {
    seq!['U', 'n', 't', 'i', 't', 'l', 'e', 'd', ' ', 'T', 'a', 's', 'k']
}

/// `NEEDS-ACTION`
pub open spec fn needs_action() -> Seq<char> {
    seq!['N', 'E', 'E', 'D', 'S', '-', 'A', 'C', 'T', 'I', 'O', 'N']
}

/// An hour after `start`, or the last representable instant.
pub open spec fn hour_after(start: Timestamp) -> Timestamp {
    if start <= i64::MAX - 3600 {
        (start + 3600) as Timestamp
    } else {
        i64::MAX
    }
}

/// The event a component gives once its start and end are resolved to
/// instants: the UID and a start are required; the summary defaults to
/// `Untitled Event`, the end to an hour after the start.
pub open spec fn event_record(
    f: EventFields,
    start: Option<Timestamp>,
    end: Option<Timestamp>,
    calendar_name: Seq<char>,
    calendar_url: Seq<char>,
    calendar_color: Option<Seq<char>>,
    etag: Option<Seq<char>>,
) -> Result<EventView, ParseError> {
    match f.uid {
        None => Err(ParseError::EventMissingUid),
        Some(uid) => match start {
            None => Err(ParseError::EventMissingStart),
            Some(s) => Ok(
                EventView {
                    uid: uid@,
                    summary: match f.summary {
                        Some(t) => t@,
                        None => untitled_event(),
                    },
                    description: opt_view(f.description),
                    location: opt_view(f.location),
                    start: s as int,
                    end: match end {
                        Some(e) => e as int,
                        None => hour_after(s) as int,
                    },
                    calendar_name,
                    calendar_url,
                    calendar_color,
                    all_day: f.start matches Some(IcalTime::Date(_)),
                    rrule: opt_view(f.rrule),
                    exdates: exdates_of(f.exdates@),
                    status: opt_view(f.status),
                    etag,
                },
            ),
        },
    }
}

/// The view of a result that holds an event.
pub open spec fn result_view(r: Result<CalendarEvent, ParseError>) -> Result<EventView, ParseError> {
    match r {
        Ok(e) => Ok(e@),
        Err(x) => Err(x),
    }
}

/// The value is a wall-clock reading with no zone.
pub open spec fn floating(t: Option<IcalTime>) -> bool {
    t matches Some(IcalTime::Floating(_))
}

/// The instant of an optional value that does not depend on the machine's zone.
pub open spec fn fixed_opt(t: Option<IcalTime>) -> Option<Timestamp> {
    match t {
        Some(v) => fixed_instant(v),
        None => None,
    }
}

/// `s` is what a value can resolve to: nothing for no value, the
/// zone-independent instant for a value that has one; a floating reading
/// (machine zone) may resolve to anything.
pub open spec fn resolves(t: Option<IcalTime>, s: Option<Timestamp>) -> bool {
    match t {
        None => s is None,
        Some(v) => v is Floating || s == fixed_instant(v),
    }
}

/// `r` is what `parse_event` gives for a component: its record with the
/// start resolved, the end resolved when there is a start (else an hour
/// after the start), or the error for a missing UID or unusable start.
pub open spec fn event_outcome(
    f: EventFields,
    r: Result<EventView, ParseError>,
    calendar_name: Seq<char>,
    calendar_url: Seq<char>,
    calendar_color: Option<Seq<char>>,
    etag: Option<Seq<char>>,
) -> bool {
    exists|s: Option<Timestamp>, e: Option<Timestamp>|
        resolves(f.start, s) && (if s is Some {
            resolves(f.end, e)
        } else {
            e is None
        }) && r == event_record(f, s, e, calendar_name, calendar_url, calendar_color, etag)
}

/// The event a component gives, its start and end already resolved.
pub fn build_event(
    f: &EventFields,
    start: Option<Timestamp>,
    end: Option<Timestamp>,
    calendar_name: &String,
    calendar_url: &String,
    calendar_color: &Option<String>,
    etag: &Option<String>,
) -> (r: Result<CalendarEvent, ParseError>)
    ensures
        result_view(r) == event_record(
            *f,
            start,
            end,
            calendar_name@,
            calendar_url@,
            opt_view(*calendar_color),
            opt_view(*etag),
        ),
{
    proof {
        reveal_strlit("Untitled Event");
    }
    let uid = match &f.uid {
        None => return Err(ParseError::EventMissingUid),
        Some(u) => u.clone(),
    };
    let s = match start {
        None => return Err(ParseError::EventMissingStart),
        Some(s) => s,
    };
    let summary = match &f.summary {
        Some(t) => t.clone(),
        None => String::from_str("Untitled Event"),
    };
    let e = match end {
        Some(e) => e,
        None => if s <= i64::MAX - 3600 {
            s + 3600
        } else {
            i64::MAX
        },
    };
    let all_day = match &f.start {
        Some(IcalTime::Date(_)) => true,
        _ => false,
    };
    let ev = CalendarEvent {
        uid,
        summary,
        description: f.description.clone(),
        location: f.location.clone(),
        start: s,
        end: e,
        calendar_name: calendar_name.clone(),
        calendar_url: calendar_url.clone(),
        calendar_color: calendar_color.clone(),
        all_day,
        rrule: f.rrule.clone(),
        exdates: parse_exdates(&f.exdates),
        status: f.status.clone(),
        etag: etag.clone(),
    };
    assert(ev@.summary == (match f.summary {
        Some(t) => t@,
        None => untitled_event(),
    }));
    Ok(ev)
}

/// The event a component gives: the UID and a start are required, a
/// floating date-time is read in the machine's zone.
pub fn parse_event(
    f: &EventFields,
    calendar_name: &String,
    calendar_url: &String,
    calendar_color: &Option<String>,
    etag: &Option<String>,
) -> (r: Result<CalendarEvent, ParseError>)
    ensures
        f.uid is None ==> r == Err::<CalendarEvent, ParseError>(ParseError::EventMissingUid),
        f.uid is Some && f.start is None ==> r == Err::<CalendarEvent, ParseError>(ParseError::EventMissingStart),
        r is Ok ==> f.uid is Some && r->Ok_0@.uid == f.uid->0@,
        r is Ok ==> r->Ok_0@.calendar_url == calendar_url@ && r->Ok_0@.calendar_name == calendar_name@,
        r is Ok ==> r->Ok_0@.etag == opt_view(*etag) && r->Ok_0@.calendar_color == opt_view(*calendar_color),
        r is Ok ==> r->Ok_0@.rrule == opt_view(f.rrule),
        event_outcome(*f, result_view(r), calendar_name@, calendar_url@, opt_view(*calendar_color), opt_view(*etag)),
        !floating(f.start) && !floating(f.end) ==> result_view(r) == event_record(
            *f,
            fixed_opt(f.start),
            match (f.end, fixed_opt(f.start)) {
                (Some(t), Some(_)) => fixed_instant(t),
                _ => None,
            },
            calendar_name@,
            calendar_url@,
            opt_view(*calendar_color),
            opt_view(*etag),
        ),
{
    let start = match &f.start {
        Some(t) => parse_datetime(t),
        None => None,
    };
    let end = match (&f.end, start) {
        (Some(t), Some(_)) => parse_datetime(t),
        _ => None,
    };
    let r = build_event(f, start, end, calendar_name, calendar_url, calendar_color, etag);
    assert(resolves(f.start, start));
    assert(if start is Some {
        resolves(f.end, end)
    } else {
        end is None
    });
    r
}

/// A priority from 1 to 9; others count as absent.
pub open spec fn priority_of(p: Option<u32>) -> Option<u8> {
    match p {
        Some(v) => if 1 <= v <= 9 {
            Some(v as u8)
        } else {
            None
        },
        None => None,
    }
}

/// A percentage up to 100; others count as absent.
pub open spec fn percent_of(p: Option<u8>) -> Option<u8> {
    match p {
        Some(v) => if v <= 100 {
            Some(v)
        } else {
            None
        },
        None => None,
    }
}

/// `t` is the todo a component with UID gives once its due and start dates
/// are resolved: the summary defaults to `Untitled Task`, the status to
/// `NEEDS-ACTION`.
pub open spec fn is_todo_record(
    t: Todo,
    f: TodoFields,
    due: Option<Timestamp>,
    start: Option<Timestamp>,
    calendar_name: String,
    calendar_url: String,
    etag: Option<String>,
) -> bool {
    &&& f.uid == Some(t.uid)
    &&& t.summary@ == (match f.summary {
        Some(s) => s@,
        None => untitled_task(),
    })
    &&& t.description == f.description
    &&& t.due == due
    &&& t.start == start
    &&& t.completed == f.completed
    &&& t.priority == priority_of(f.priority)
    &&& t.percent_complete == percent_of(f.percent_complete)
    &&& t.status@ == (match f.status {
        Some(s) => s@,
        None => needs_action(),
    })
    &&& t.calendar_name == calendar_name
    &&& t.calendar_url == calendar_url
    &&& t.etag == etag
}

/// `r` is what `parse_todo` gives for a component: the error for a missing
/// UID, else its record with the due and start dates resolved.
pub open spec fn todo_outcome(
    f: TodoFields,
    r: Result<Todo, ParseError>,
    calendar_name: String,
    calendar_url: String,
    etag: Option<String>,
) -> bool {
    match f.uid {
        None => r == Err::<Todo, ParseError>(ParseError::TodoMissingUid),
        Some(_) => r is Ok && exists|d: Option<Timestamp>, s: Option<Timestamp>|
            resolves(f.due, d) && resolves(f.start, s) && is_todo_record(
                r->Ok_0,
                f,
                d,
                s,
                calendar_name,
                calendar_url,
                etag,
            ),
    }
}

/// The todo a component gives, its due and start dates already resolved.
pub fn build_todo(
    f: &TodoFields,
    due: Option<Timestamp>,
    start: Option<Timestamp>,
    calendar_name: &String,
    calendar_url: &String,
    etag: &Option<String>,
) -> (r: Result<Todo, ParseError>)
    ensures
        f.uid is None ==> r == Err::<Todo, ParseError>(ParseError::TodoMissingUid),
        f.uid is Some ==> r is Ok && is_todo_record(r->Ok_0, *f, due, start, *calendar_name, *calendar_url, *etag),
{
    proof {
        reveal_strlit("Untitled Task");
        reveal_strlit("NEEDS-ACTION");
    }
    assert("Untitled Task"@ =~= untitled_task());
    assert("NEEDS-ACTION"@ =~= needs_action());
    let uid = match &f.uid {
        None => return Err(ParseError::TodoMissingUid),
        Some(u) => u.clone(),
    };
    let priority = match f.priority {
        Some(p) => if 1 <= p && p <= 9 {
            Some(p as u8)
        } else {
            None
        },
        None => None,
    };
    let percent_complete = match f.percent_complete {
        Some(p) => if p <= 100 {
            Some(p)
        } else {
            None
        },
        None => None,
    };
    let t = Todo {
        uid,
        summary: match &f.summary {
            Some(t) => t.clone(),
            None => String::from_str("Untitled Task"),
        },
        description: f.description.clone(),
        due,
        start,
        completed: f.completed,
        priority,
        percent_complete,
        status: match &f.status {
            Some(t) => t.clone(),
            None => String::from_str("NEEDS-ACTION"),
        },
        calendar_name: calendar_name.clone(),
        calendar_url: calendar_url.clone(),
        etag: etag.clone(),
    };
    Ok(t)
}

/// The todo a component gives: the UID is required; floating date-times
/// are read in the machine's zone.
pub fn parse_todo(f: &TodoFields, calendar_name: &String, calendar_url: &String, etag: &Option<String>) -> (r: Result<
    Todo,
    ParseError,
>)
    ensures
        f.uid is None ==> r == Err::<Todo, ParseError>(ParseError::TodoMissingUid),
        f.uid is Some ==> r is Ok && r->Ok_0.calendar_url == *calendar_url && f.uid == Some(r->Ok_0.uid),
        r is Ok ==> r->Ok_0.calendar_name == *calendar_name && r->Ok_0.etag == *etag,
        todo_outcome(*f, r, *calendar_name, *calendar_url, *etag),
        f.uid is Some && !floating(f.due) && !floating(f.start) ==> is_todo_record(
            r->Ok_0,
            *f,
            fixed_opt(f.due),
            fixed_opt(f.start),
            *calendar_name,
            *calendar_url,
            *etag,
        ),
{
    let due = match &f.due {
        Some(t) => parse_datetime(t),
        None => None,
    };
    let start = match &f.start {
        Some(t) => parse_datetime(t),
        None => None,
    };
    let r = build_todo(f, due, start, calendar_name, calendar_url, etag);
    assert(resolves(f.due, due) && resolves(f.start, start));
    r
}


#[verifier::external_type_specification]
#[verifier::external_body]
pub struct ExIcalCalendar(icalendar::Calendar);

#[verifier::external_type_specification]
#[verifier::external_body]
pub struct ExIcalCalendarComponent(icalendar::CalendarComponent);

/// What an iCalendar text holds: the fields of its events and of its todos,
/// in order; `None` for text icalendar refuses.
pub uninterp spec fn ical_fields(text: Seq<char>) -> Option<(Seq<EventFields>, Seq<TodoFields>)>;

/// The fields of the events a parsed calendar holds, in order.
pub uninterp spec fn calendar_event_items(c: icalendar::Calendar) -> Seq<EventFields>;

/// The fields of the todos a parsed calendar holds, in order.
pub uninterp spec fn calendar_todo_items(c: icalendar::Calendar) -> Seq<TodoFields>;

/// Relies on icalendar's `Calendar::from_str`: `None` for text it refuses;
/// what the calendar holds depends on the text alone.
#[verifier::external_body]
fn parse_calendar_text(text: &str) -> (r: Option<icalendar::Calendar>)
    ensures
        match r {
            Some(c) => ical_fields(text@) == Some((calendar_event_items(c), calendar_todo_items(c))),
            None => ical_fields(text@) is None,
        },
{
    match text.parse::<icalendar::Calendar>() {
        Ok(c) => Some(c),
        Err(_) => None,
    }
}

/// Relies on icalendar's `Calendar::events`.
#[verifier::external_body]
fn calendar_event_count(c: &icalendar::Calendar) -> (r: usize)
    ensures
        r == calendar_event_items(*c).len(),
{
    c.events().count()
}

/// Relies on icalendar's `Calendar::todos`.
#[verifier::external_body]
fn calendar_todo_count(c: &icalendar::Calendar) -> (r: usize)
    ensures
        r == calendar_todo_items(*c).len(),
{
    c.todos().count()
}

/// Relies on icalendar's `Component::get_uid` for the event at `i`.
#[verifier::external_body]
fn event_uid(c: &icalendar::Calendar, i: usize) -> (r: Option<String>)
    requires
        i < calendar_event_items(*c).len(),
    ensures
        r == calendar_event_items(*c)[i as int].uid,
{
    match c.events().nth(i) {
        Some(e) => e.get_uid().map(String::from),
        None => Default::default(),
    }
}

/// Relies on icalendar's `Component::get_summary` for the event at `i`.
#[verifier::external_body]
fn event_summary(c: &icalendar::Calendar, i: usize) -> (r: Option<String>)
    requires
        i < calendar_event_items(*c).len(),
    ensures
        r == calendar_event_items(*c)[i as int].summary,
{
    match c.events().nth(i) {
        Some(e) => e.get_summary().map(String::from),
        None => Default::default(),
    }
}

/// Relies on icalendar's `Component::get_description` for the event at `i`.
#[verifier::external_body]
fn event_description(c: &icalendar::Calendar, i: usize) -> (r: Option<String>)
    requires
        i < calendar_event_items(*c).len(),
    ensures
        r == calendar_event_items(*c)[i as int].description,
{
    match c.events().nth(i) {
        Some(e) => e.get_description().map(String::from),
        None => Default::default(),
    }
}

/// Relies on icalendar's `EventLike::get_location` for the event at `i`.
#[verifier::external_body]
fn event_location(c: &icalendar::Calendar, i: usize) -> (r: Option<String>)
    requires
        i < calendar_event_items(*c).len(),
    ensures
        r == calendar_event_items(*c)[i as int].location,
{
    match c.events().nth(i) {
        Some(e) => e.get_location().map(String::from),
        None => Default::default(),
    }
}

/// Relies on icalendar's `Component::property_value` of the RRULE property for the event at `i`.
#[verifier::external_body]
fn event_rrule(c: &icalendar::Calendar, i: usize) -> (r: Option<String>)
    requires
        i < calendar_event_items(*c).len(),
    ensures
        r == calendar_event_items(*c)[i as int].rrule,
{
    match c.events().nth(i) {
        Some(e) => e.property_value("RRULE").map(String::from),
        None => Default::default(),
    }
}

/// Relies on icalendar's `Component::multi_properties` and `Property::value`:
/// the values of every EXDATE property of the event at `i`.
#[verifier::external_body]
fn event_exdates(c: &icalendar::Calendar, i: usize) -> (r: Vec<String>)
    requires
        i < calendar_event_items(*c).len(),
    ensures
        r == calendar_event_items(*c)[i as int].exdates,
{
    let mut out = Vec::new();
    if let Some(e) = c.events().nth(i) {
        if let Some(props) = e.multi_properties().get("EXDATE") {
            for p in props {
                out.push(p.value().to_string());
            }
        }
    }
    out
}

/// Relies on icalendar's `Event::get_status`, written as its variant's name, for the event at `i`.
#[verifier::external_body]
fn event_status(c: &icalendar::Calendar, i: usize) -> (r: Option<String>)
    requires
        i < calendar_event_items(*c).len(),
    ensures
        r == calendar_event_items(*c)[i as int].status,
{
    match c.events().nth(i) {
        Some(e) => e.get_status().map(|s| format!("{s:?}")),
        None => Default::default(),
    }
}

/// Relies on icalendar's `EventLike::get_start` for the event at `i` and on the variants of `DatePerhapsTime`
/// and `CalendarDateTime`; chrono's `and_utc().timestamp()` reads a
/// wall-clock reading as if it were UTC.
#[verifier::external_body]
fn event_start(c: &icalendar::Calendar, i: usize) -> (r: Option<IcalTime>)
    requires
        i < calendar_event_items(*c).len(),
    ensures
        r == calendar_event_items(*c)[i as int].start,
{
    let d = match c.events().nth(i) {
        Some(e) => e.get_start(),
        None => None,
    };
    match d {
        Some(icalendar::DatePerhapsTime::DateTime(icalendar::CalendarDateTime::Utc(t))) => Some(IcalTime::Utc(t.timestamp())),
        Some(icalendar::DatePerhapsTime::DateTime(icalendar::CalendarDateTime::Floating(n))) => Some(IcalTime::Floating(n.and_utc().timestamp())),
        Some(icalendar::DatePerhapsTime::DateTime(icalendar::CalendarDateTime::WithTimezone { date_time, tzid })) => {
            Some(IcalTime::Zoned { local: date_time.and_utc().timestamp(), tzid })
        },
        Some(icalendar::DatePerhapsTime::Date(day)) => Some(IcalTime::Date(day.and_time(chrono::NaiveTime::MIN).and_utc().timestamp())),
        None => None,
    }
}

/// Relies on icalendar's `EventLike::get_end` for the event at `i` and on the variants of `DatePerhapsTime`
/// and `CalendarDateTime`; chrono's `and_utc().timestamp()` reads a
/// wall-clock reading as if it were UTC.
#[verifier::external_body]
fn event_end(c: &icalendar::Calendar, i: usize) -> (r: Option<IcalTime>)
    requires
        i < calendar_event_items(*c).len(),
    ensures
        r == calendar_event_items(*c)[i as int].end,
{
    let d = match c.events().nth(i) {
        Some(e) => e.get_end(),
        None => None,
    };
    match d {
        Some(icalendar::DatePerhapsTime::DateTime(icalendar::CalendarDateTime::Utc(t))) => Some(IcalTime::Utc(t.timestamp())),
        Some(icalendar::DatePerhapsTime::DateTime(icalendar::CalendarDateTime::Floating(n))) => Some(IcalTime::Floating(n.and_utc().timestamp())),
        Some(icalendar::DatePerhapsTime::DateTime(icalendar::CalendarDateTime::WithTimezone { date_time, tzid })) => {
            Some(IcalTime::Zoned { local: date_time.and_utc().timestamp(), tzid })
        },
        Some(icalendar::DatePerhapsTime::Date(day)) => Some(IcalTime::Date(day.and_time(chrono::NaiveTime::MIN).and_utc().timestamp())),
        None => None,
    }
}

/// Relies on icalendar's `Component::get_uid` for the todo at `i`.
#[verifier::external_body]
fn todo_uid(c: &icalendar::Calendar, i: usize) -> (r: Option<String>)
    requires
        i < calendar_todo_items(*c).len(),
    ensures
        r == calendar_todo_items(*c)[i as int].uid,
{
    match c.todos().nth(i) {
        Some(t) => t.get_uid().map(String::from),
        None => Default::default(),
    }
}

/// Relies on icalendar's `Component::get_summary` for the todo at `i`.
#[verifier::external_body]
fn todo_summary(c: &icalendar::Calendar, i: usize) -> (r: Option<String>)
    requires
        i < calendar_todo_items(*c).len(),
    ensures
        r == calendar_todo_items(*c)[i as int].summary,
{
    match c.todos().nth(i) {
        Some(t) => t.get_summary().map(String::from),
        None => Default::default(),
    }
}

/// Relies on icalendar's `Component::get_description` for the todo at `i`.
#[verifier::external_body]
fn todo_description(c: &icalendar::Calendar, i: usize) -> (r: Option<String>)
    requires
        i < calendar_todo_items(*c).len(),
    ensures
        r == calendar_todo_items(*c)[i as int].description,
{
    match c.todos().nth(i) {
        Some(t) => t.get_description().map(String::from),
        None => Default::default(),
    }
}

/// Relies on icalendar's `Todo::get_completed` and chrono's `timestamp` for the todo at `i`.
#[verifier::external_body]
fn todo_completed(c: &icalendar::Calendar, i: usize) -> (r: Option<Timestamp>)
    requires
        i < calendar_todo_items(*c).len(),
    ensures
        r == calendar_todo_items(*c)[i as int].completed,
{
    match c.todos().nth(i) {
        Some(t) => t.get_completed().map(|d| d.timestamp()),
        None => Default::default(),
    }
}

/// Relies on icalendar's `Component::get_priority` for the todo at `i`.
#[verifier::external_body]
fn todo_priority(c: &icalendar::Calendar, i: usize) -> (r: Option<u32>)
    requires
        i < calendar_todo_items(*c).len(),
    ensures
        r == calendar_todo_items(*c)[i as int].priority,
{
    match c.todos().nth(i) {
        Some(t) => t.get_priority(),
        None => Default::default(),
    }
}

/// Relies on icalendar's `Todo::get_percent_complete` for the todo at `i`.
#[verifier::external_body]
fn todo_percent_complete(c: &icalendar::Calendar, i: usize) -> (r: Option<u8>)
    requires
        i < calendar_todo_items(*c).len(),
    ensures
        r == calendar_todo_items(*c)[i as int].percent_complete,
{
    match c.todos().nth(i) {
        Some(t) => t.get_percent_complete(),
        None => Default::default(),
    }
}

/// Relies on icalendar's `Todo::get_status`, written as its variant's name, for the todo at `i`.
#[verifier::external_body]
fn todo_status(c: &icalendar::Calendar, i: usize) -> (r: Option<String>)
    requires
        i < calendar_todo_items(*c).len(),
    ensures
        r == calendar_todo_items(*c)[i as int].status,
{
    match c.todos().nth(i) {
        Some(t) => t.get_status().map(|s| format!("{s:?}")),
        None => Default::default(),
    }
}

/// Relies on icalendar's `Todo::get_due` for the todo at `i` and on the variants of `DatePerhapsTime`
/// and `CalendarDateTime`; chrono's `and_utc().timestamp()` reads a
/// wall-clock reading as if it were UTC.
#[verifier::external_body]
fn todo_due(c: &icalendar::Calendar, i: usize) -> (r: Option<IcalTime>)
    requires
        i < calendar_todo_items(*c).len(),
    ensures
        r == calendar_todo_items(*c)[i as int].due,
{
    let d = match c.todos().nth(i) {
        Some(t) => t.get_due(),
        None => None,
    };
    match d {
        Some(icalendar::DatePerhapsTime::DateTime(icalendar::CalendarDateTime::Utc(t))) => Some(IcalTime::Utc(t.timestamp())),
        Some(icalendar::DatePerhapsTime::DateTime(icalendar::CalendarDateTime::Floating(n))) => Some(IcalTime::Floating(n.and_utc().timestamp())),
        Some(icalendar::DatePerhapsTime::DateTime(icalendar::CalendarDateTime::WithTimezone { date_time, tzid })) => {
            Some(IcalTime::Zoned { local: date_time.and_utc().timestamp(), tzid })
        },
        Some(icalendar::DatePerhapsTime::Date(day)) => Some(IcalTime::Date(day.and_time(chrono::NaiveTime::MIN).and_utc().timestamp())),
        None => None,
    }
}

/// Relies on icalendar's `EventLike::get_start` for the todo at `i` and on the variants of `DatePerhapsTime`
/// and `CalendarDateTime`; chrono's `and_utc().timestamp()` reads a
/// wall-clock reading as if it were UTC.
#[verifier::external_body]
fn todo_start(c: &icalendar::Calendar, i: usize) -> (r: Option<IcalTime>)
    requires
        i < calendar_todo_items(*c).len(),
    ensures
        r == calendar_todo_items(*c)[i as int].start,
{
    let d = match c.todos().nth(i) {
        Some(t) => t.get_start(),
        None => None,
    };
    match d {
        Some(icalendar::DatePerhapsTime::DateTime(icalendar::CalendarDateTime::Utc(t))) => Some(IcalTime::Utc(t.timestamp())),
        Some(icalendar::DatePerhapsTime::DateTime(icalendar::CalendarDateTime::Floating(n))) => Some(IcalTime::Floating(n.and_utc().timestamp())),
        Some(icalendar::DatePerhapsTime::DateTime(icalendar::CalendarDateTime::WithTimezone { date_time, tzid })) => {
            Some(IcalTime::Zoned { local: date_time.and_utc().timestamp(), tzid })
        },
        Some(icalendar::DatePerhapsTime::Date(day)) => Some(IcalTime::Date(day.and_time(chrono::NaiveTime::MIN).and_utc().timestamp())),
        None => None,
    }
}

/// The fields of the event at `i` of a parsed calendar.
pub fn event_fields_at(c: &icalendar::Calendar, i: usize) -> (r: EventFields)
    requires
        i < calendar_event_items(*c).len(),
    ensures
        r == calendar_event_items(*c)[i as int],
{
    EventFields {
        uid: event_uid(c, i),
        summary: event_summary(c, i),
        description: event_description(c, i),
        location: event_location(c, i),
        start: event_start(c, i),
        end: event_end(c, i),
        rrule: event_rrule(c, i),
        exdates: event_exdates(c, i),
        status: event_status(c, i),
    }
}

/// The fields of the todo at `i` of a parsed calendar.
pub fn todo_fields_at(c: &icalendar::Calendar, i: usize) -> (r: TodoFields)
    requires
        i < calendar_todo_items(*c).len(),
    ensures
        r == calendar_todo_items(*c)[i as int],
{
    TodoFields {
        uid: todo_uid(c, i),
        summary: todo_summary(c, i),
        description: todo_description(c, i),
        due: todo_due(c, i),
        start: todo_start(c, i),
        completed: todo_completed(c, i),
        priority: todo_priority(c, i),
        percent_complete: todo_percent_complete(c, i),
        status: todo_status(c, i),
    }
}

/// `rs` holds, in order, the records `parse_event` gives for the components
/// `fs`, the components it refuses left out.
pub open spec fn events_from(
    fs: Seq<EventFields>,
    rs: Seq<EventView>,
    calendar_name: Seq<char>,
    calendar_url: Seq<char>,
    calendar_color: Option<Seq<char>>,
    etag: Option<Seq<char>>,
) -> bool
    decreases fs.len(),
{
    if fs.len() == 0 {
        rs.len() == 0
    } else {
        ||| (exists|v: EventView|
            event_outcome(fs.last(), Ok(v), calendar_name, calendar_url, calendar_color, etag) && rs.len() > 0
                && rs.last() == v && events_from(fs.drop_last(), rs.drop_last(), calendar_name, calendar_url, calendar_color, etag))
        ||| (exists|x: ParseError|
            event_outcome(fs.last(), Err(x), calendar_name, calendar_url, calendar_color, etag) && events_from(
                fs.drop_last(),
                rs,
                calendar_name,
                calendar_url,
                calendar_color,
                etag,
            ))
    }
}

/// `rs` holds, in order, the records `parse_todo` gives for the components
/// `fs`, the components without a UID left out.
pub open spec fn todos_from(
    fs: Seq<TodoFields>,
    rs: Seq<Todo>,
    calendar_name: String,
    calendar_url: String,
    etag: Option<String>,
) -> bool
    decreases fs.len(),
{
    if fs.len() == 0 {
        rs.len() == 0
    } else if fs.last().uid is None {
        todos_from(fs.drop_last(), rs, calendar_name, calendar_url, etag)
    } else {
        rs.len() > 0 && todo_outcome(fs.last(), Ok(rs.last()), calendar_name, calendar_url, etag) && todos_from(
            fs.drop_last(),
            rs.drop_last(),
            calendar_name,
            calendar_url,
            etag,
        )
    }
}

/// The records that components give, in order; components that give none
/// (no UID, or an event without a usable start) are left out and the rest
/// kept.
pub fn records_from_fields(
    events: &Vec<EventFields>,
    todos: &Vec<TodoFields>,
    calendar_name: &String,
    calendar_url: &String,
    calendar_color: &Option<String>,
    etag: &Option<String>,
) -> (r: (Vec<CalendarEvent>, Vec<Todo>))
    ensures
        events_from(events@, events_view(r.0@), calendar_name@, calendar_url@, opt_view(*calendar_color), opt_view(*etag)),
        todos_from(todos@, r.1@, *calendar_name, *calendar_url, *etag),
        forall|i: int| 0 <= i < r.0@.len() ==> {
            let e = (#[trigger] r.0@[i])@;
            &&& e.calendar_url == calendar_url@
            &&& e.calendar_name == calendar_name@
            &&& e.calendar_color == opt_view(*calendar_color)
            &&& e.etag == opt_view(*etag)
        },
        forall|i: int| 0 <= i < r.1@.len() ==> {
            let t = #[trigger] r.1@[i];
            &&& t.calendar_url == *calendar_url
            &&& t.calendar_name == *calendar_name
            &&& t.etag == *etag
        },
{
    let ghost name = calendar_name@;
    let ghost url = calendar_url@;
    let ghost color = opt_view(*calendar_color);
    let ghost tag = opt_view(*etag);
    let mut out: Vec<CalendarEvent> = Vec::new();
    let mut i: usize = 0;
    assert(events@.subrange(0, 0) =~= Seq::<EventFields>::empty());
    while i < events.len()
        invariant
            i <= events.len(),
            name == calendar_name@ && url == calendar_url@ && color == opt_view(*calendar_color) && tag == opt_view(*etag),
            events_from(events@.subrange(0, i as int), events_view(out@), name, url, color, tag),
            forall|k: int| 0 <= k < out@.len() ==> {
                let e = (#[trigger] out@[k])@;
                &&& e.calendar_url == url
                &&& e.calendar_name == name
                &&& e.calendar_color == color
                &&& e.etag == tag
            },
        decreases events.len() - i,
    {
        let r = parse_event(&events[i], calendar_name, calendar_url, calendar_color, etag);
        let ghost before = events_view(out@);
        let ghost sub = events@.subrange(0, i + 1);
        assert(sub.drop_last() =~= events@.subrange(0, i as int));
        assert(sub.last() == events@[i as int]);
        match r {
            Ok(e) => {
                let ghost v = e@;
                out.push(e);
                assert(events_view(out@) =~= before.push(v));
                assert(events_view(out@).drop_last() =~= before);
                assert(event_outcome(sub.last(), Ok(v), name, url, color, tag));
            },
            Err(x) => {
                assert(event_outcome(sub.last(), Err(x), name, url, color, tag));
            },
        }
        i = i + 1;
    }
    assert(events@.subrange(0, events.len() as int) =~= events@);
    let mut tout: Vec<Todo> = Vec::new();
    let mut k: usize = 0;
    assert(todos@.subrange(0, 0) =~= Seq::<TodoFields>::empty());
    while k < todos.len()
        invariant
            k <= todos.len(),
            todos_from(todos@.subrange(0, k as int), tout@, *calendar_name, *calendar_url, *etag),
            forall|j: int| 0 <= j < tout@.len() ==> {
                let t = #[trigger] tout@[j];
                &&& t.calendar_url == *calendar_url
                &&& t.calendar_name == *calendar_name
                &&& t.etag == *etag
            },
        decreases todos.len() - k,
    {
        let r = parse_todo(&todos[k], calendar_name, calendar_url, etag);
        let ghost before = tout@;
        let ghost sub = todos@.subrange(0, k + 1);
        assert(sub.drop_last() =~= todos@.subrange(0, k as int));
        assert(sub.last() == todos@[k as int]);
        match r {
            Ok(t) => {
                tout.push(t);
                assert(tout@.drop_last() =~= before);
            },
            Err(_) => {},
        }
        k = k + 1;
    }
    assert(todos@.subrange(0, todos.len() as int) =~= todos@);
    (out, tout)
}

/// The events and todos of one calendar object's text, in order, each of
/// the collection `calendar_url` with the given name, colour and etag. Text
/// that does not parse gives nothing; components that give no record are
/// left out and their siblings kept.
pub fn parse_calendar_object(
    text: &str,
    calendar_name: &String,
    calendar_url: &String,
    calendar_color: &Option<String>,
    etag: &Option<String>,
) -> (r: (Vec<CalendarEvent>, Vec<Todo>))
    ensures
        match ical_fields(text@) {
            None => r.0@.len() == 0 && r.1@.len() == 0,
            Some(f) => events_from(f.0, events_view(r.0@), calendar_name@, calendar_url@, opt_view(*calendar_color), opt_view(*etag))
                && todos_from(f.1, r.1@, *calendar_name, *calendar_url, *etag),
        },
        forall|i: int| 0 <= i < r.0@.len() ==> {
            let e = (#[trigger] r.0@[i])@;
            &&& e.calendar_url == calendar_url@
            &&& e.calendar_name == calendar_name@
            &&& e.calendar_color == opt_view(*calendar_color)
            &&& e.etag == opt_view(*etag)
        },
        forall|i: int| 0 <= i < r.1@.len() ==> {
            let t = #[trigger] r.1@[i];
            &&& t.calendar_url == *calendar_url
            &&& t.calendar_name == *calendar_name
            &&& t.etag == *etag
        },
{
    let cal = match parse_calendar_text(text) {
        Some(c) => c,
        None => return (Vec::new(), Vec::new()),
    };
    let n = calendar_event_count(&cal);
    let mut efs: Vec<EventFields> = Vec::new();
    let mut i: usize = 0;
    while i < n
        invariant
            n == calendar_event_items(cal).len(),
            i <= n,
            efs@ == calendar_event_items(cal).subrange(0, i as int),
        decreases n - i,
    {
        efs.push(event_fields_at(&cal, i));
        i = i + 1;
        assert(efs@ =~= calendar_event_items(cal).subrange(0, i as int));
    }
    assert(efs@ =~= calendar_event_items(cal));
    let m = calendar_todo_count(&cal);
    let mut tfs: Vec<TodoFields> = Vec::new();
    let mut k: usize = 0;
    while k < m
        invariant
            m == calendar_todo_items(cal).len(),
            k <= m,
            tfs@ == calendar_todo_items(cal).subrange(0, k as int),
        decreases m - k,
    {
        tfs.push(todo_fields_at(&cal, k));
        k = k + 1;
        assert(tfs@ =~= calendar_todo_items(cal).subrange(0, k as int));
    }
    assert(tfs@ =~= calendar_todo_items(cal));
    records_from_fields(&efs, &tfs, calendar_name, calendar_url, calendar_color, etag)
}

} // verus!
