use chrono::{TimeZone, Utc};
use fred_cal::datetime::{parse_datetime, parse_exdate_value, parse_gmt_offset, IcalTime};
use fred_cal::ical::{
    build_event, build_todo, event_fields_at, parse_calendar_object, parse_event, parse_exdates, parse_todo,
    todo_fields_at, EventFields, ParseError, TodoFields,
};
use icalendar::{Component, Event, EventLike, Todo as IcalTodo};

fn at(y: i32, mo: u32, d: u32, h: u32, mi: u32, s: u32) -> i64 {
    Utc.with_ymd_and_hms(y, mo, d, h, mi, s).unwrap().timestamp()
}

fn s(t: &str) -> String {
    t.to_string()
}

fn event_fields(e: &Event) -> EventFields {
    event_fields_at(&icalendar::Calendar::from([e.clone()]), 0)
}

fn todo_fields(t: &IcalTodo) -> TodoFields {
    todo_fields_at(&icalendar::Calendar::from([t.clone()]), 0)
}

fn ev(e: &Event, name: &str, url: &str) -> Result<fred_cal::models::CalendarEvent, ParseError> {
    parse_event(&event_fields(e), &s(name), &s(url), &None, &None)
}

fn td(t: &IcalTodo, name: &str, url: &str) -> Result<fred_cal::models::Todo, ParseError> {
    parse_todo(&todo_fields(t), &s(name), &s(url), &None)
}

#[test]
fn test_parse_datetime_with_date() {
    let r = parse_datetime(&IcalTime::Date(at(2026, 1, 15, 0, 0, 0)));
    assert_eq!(r, Some(at(2026, 1, 15, 0, 0, 0)));
}

#[test]
fn test_parse_datetime_with_utc() {
    assert_eq!(parse_datetime(&IcalTime::Utc(at(2026, 1, 15, 14, 30, 0))), Some(at(2026, 1, 15, 14, 30, 0)));
}

#[test]
fn test_parse_datetime_with_floating() {
    let r = parse_datetime(&IcalTime::Floating(at(2026, 1, 15, 10, 0, 0))).unwrap();
    assert!(r >= at(2026, 1, 14, 0, 0, 0) && r < at(2026, 1, 17, 0, 0, 0));
    assert_eq!((r % 3600) % 60, 0);
}

#[test]
fn test_parse_datetime_with_timezone() {
    let t = IcalTime::Zoned { local: at(2026, 7, 4, 18, 0, 0), tzid: s("America/New_York") };
    assert_eq!(parse_datetime(&t), Some(at(2026, 7, 4, 22, 0, 0)));
}

#[test]
fn test_parse_datetime_with_invalid_timezone() {
    let t = IcalTime::Zoned { local: at(2026, 7, 4, 18, 0, 0), tzid: s("Invalid/Timezone") };
    assert_eq!(parse_datetime(&t), Some(at(2026, 7, 4, 18, 0, 0)));
}

#[test]
fn test_parse_datetime_with_gmt_offset_timezone() {
    let t = IcalTime::Zoned { local: at(2026, 7, 4, 18, 0, 0), tzid: s("GMT-0700") };
    assert_eq!(parse_datetime(&t), Some(at(2026, 7, 5, 1, 0, 0)));
}

#[test]
fn test_parse_datetime_date_becomes_midnight_utc() {
    let r = parse_datetime(&IcalTime::Date(at(2026, 8, 20, 0, 0, 0))).unwrap();
    assert_eq!(r % 86400, 0);
}

#[test]
fn test_parse_gmt_offset() {
    assert_eq!(parse_gmt_offset("GMT-0700"), Some(-7 * 3600));
    assert_eq!(parse_gmt_offset("GMT+0530"), Some(5 * 3600 + 30 * 60));
    assert_eq!(parse_gmt_offset("GMT"), Some(0));
    assert_eq!(parse_gmt_offset("America/Denver"), None);
    assert_eq!(parse_gmt_offset("GMT-07"), None);
}

#[test]
fn test_parse_gmt_offset_edge_cases() {
    assert_eq!(parse_gmt_offset("GMT+1400"), Some(14 * 3600));
    assert_eq!(parse_gmt_offset("GMT-1200"), Some(-12 * 3600));
    assert_eq!(parse_gmt_offset("GMT+05"), None);
    assert_eq!(parse_gmt_offset("GMT+05300"), None);
    assert_eq!(parse_gmt_offset("+0530"), None);
}

#[test]
fn test_parse_gmt_offset_positive() {
    assert_eq!(parse_gmt_offset("GMT+0100"), Some(3600));
}

#[test]
fn test_parse_gmt_offset_negative() {
    assert_eq!(parse_gmt_offset("GMT-0500"), Some(-5 * 3600));
}

#[test]
fn test_parse_gmt_offset_invalid() {
    assert_eq!(parse_gmt_offset("UTC+0100"), None);
    assert_eq!(parse_gmt_offset("GMT*0100"), None);
}

#[test]
fn gmt_offset_of_a_day_or_more_is_refused() {
    assert_eq!(parse_gmt_offset("GMT+2400"), None);
    assert_eq!(parse_gmt_offset("GMT+2359"), Some(23 * 3600 + 59 * 60));
}

#[test]
fn exdate_values_in_each_form() {
    assert_eq!(parse_exdate_value("20260108T100000Z"), Some(at(2026, 1, 8, 10, 0, 0)));
    assert_eq!(parse_exdate_value("20260108"), Some(at(2026, 1, 8, 0, 0, 0)));
    assert_eq!(parse_exdate_value("20260108T100000"), Some(at(2026, 1, 8, 10, 0, 0)));
    assert_eq!(parse_exdate_value("TZID=America/New_York:20260108T100000"), Some(at(2026, 1, 8, 10, 0, 0)));
    assert_eq!(parse_exdate_value("20261308"), None);
    assert_eq!(parse_exdate_value("garbage"), None);
}

#[test]
fn exdate_lists_split_and_trim() {
    let r = parse_exdates(&vec![s("20260108T100000Z, 20260115T100000Z"), s("bad,20260122")]);
    assert_eq!(r, vec![at(2026, 1, 8, 10, 0, 0), at(2026, 1, 15, 10, 0, 0), at(2026, 1, 22, 0, 0, 0)]);
}

#[test]
fn test_parse_event_basic() {
    let e = Event::new()
        .uid("event-123")
        .summary("Test Event")
        .description("This is a test")
        .location("Test Location")
        .starts(Utc.with_ymd_and_hms(2026, 3, 15, 10, 0, 0).unwrap())
        .ends(Utc.with_ymd_and_hms(2026, 3, 15, 11, 0, 0).unwrap())
        .done();
    let p = ev(&e, "Test Calendar", "/calendar/test").unwrap();
    assert_eq!(p.uid, "event-123");
    assert_eq!(p.summary, "Test Event");
    assert_eq!(p.description, Some(s("This is a test")));
    assert_eq!(p.location, Some(s("Test Location")));
    assert_eq!(p.calendar_name, "Test Calendar");
    assert_eq!(p.calendar_url, "/calendar/test");
    assert!(!p.all_day);
    assert_eq!(p.etag, None);
}

#[test]
fn test_parse_event_with_etag() {
    let e = Event::new()
        .uid("event-456")
        .summary("Event with ETag")
        .starts(Utc.with_ymd_and_hms(2026, 4, 1, 9, 0, 0).unwrap())
        .ends(Utc.with_ymd_and_hms(2026, 4, 1, 10, 0, 0).unwrap())
        .done();
    let p = parse_event(&event_fields(&e), &s("Calendar"), &s("/cal"), &None, &Some(s("\"etag-abc\""))).unwrap();
    assert_eq!(p.etag, Some(s("\"etag-abc\"")));
}

#[test]
fn test_parse_event_minimal() {
    let e = Event::new().uid("minimal").starts(Utc.with_ymd_and_hms(2026, 3, 15, 10, 0, 0).unwrap()).done();
    let p = ev(&e, "Calendar", "/cal").unwrap();
    assert_eq!(p.summary, "Untitled Event");
}

#[test]
fn test_parse_event_with_rrule() {
    let e = Event::new()
        .uid("recurring-event")
        .summary("Weekly Meeting")
        .starts(Utc.with_ymd_and_hms(2026, 3, 15, 10, 0, 0).unwrap())
        .ends(Utc.with_ymd_and_hms(2026, 3, 15, 11, 0, 0).unwrap())
        .add_property("RRULE", "FREQ=WEEKLY;BYDAY=MO")
        .done();
    assert_eq!(ev(&e, "Calendar", "/cal").unwrap().rrule, Some(s("FREQ=WEEKLY;BYDAY=MO")));
}

#[test]
fn test_parse_event_with_status() {
    let e = Event::new()
        .uid("confirmed-event")
        .summary("Confirmed Meeting")
        .starts(Utc.with_ymd_and_hms(2026, 3, 15, 10, 0, 0).unwrap())
        .ends(Utc.with_ymd_and_hms(2026, 3, 15, 11, 0, 0).unwrap())
        .status(icalendar::EventStatus::Confirmed)
        .done();
    assert_eq!(ev(&e, "Calendar", "/cal").unwrap().status, Some(s("Confirmed")));
}

#[test]
fn test_parse_event_without_end_time() {
    let e = Event::new()
        .uid("no-end-event")
        .summary("Event without end")
        .starts(Utc.with_ymd_and_hms(2026, 3, 15, 10, 0, 0).unwrap())
        .done();
    let p = ev(&e, "Calendar", "/cal").unwrap();
    assert_eq!(p.start, at(2026, 3, 15, 10, 0, 0));
    assert_eq!(p.end, at(2026, 3, 15, 11, 0, 0));
}

#[test]
fn test_parse_event_all_day_with_date_only() {
    let e = Event::new().uid("all-day").all_day(chrono::NaiveDate::from_ymd_opt(2026, 3, 15).unwrap()).done();
    let p = ev(&e, "Calendar", "/cal").unwrap();
    assert!(p.all_day);
    assert_eq!(p.start, at(2026, 3, 15, 0, 0, 0));
}

#[test]
fn test_parse_event_no_summary() {
    let e = Event::new().uid("no-summary").starts(Utc.with_ymd_and_hms(2026, 3, 15, 10, 0, 0).unwrap()).done();
    assert_eq!(ev(&e, "Calendar", "/cal").unwrap().summary, "Untitled Event");
}

#[test]
fn test_parse_event_with_exdate() {
    let ical_str = "BEGIN:VCALENDAR\r\nVERSION:2.0\r\nBEGIN:VEVENT\r\nUID:test-exdate\r\nDTSTART:20260101T100000Z\r\nDTEND:20260101T110000Z\r\nSUMMARY:Event with EXDATE\r\nRRULE:FREQ=WEEKLY;COUNT=4\r\nEXDATE:20260108T100000Z\r\nEND:VEVENT\r\nEND:VCALENDAR\r\n";
    let (events, todos) = parse_calendar_object(ical_str, &s("Test"), &s("/test"), &None, &None);
    assert_eq!(events.len(), 1);
    assert!(todos.is_empty());
    let e = &events[0];
    assert_eq!(e.uid, "test-exdate");
    assert_eq!(e.rrule, Some(s("FREQ=WEEKLY;COUNT=4")));
    assert_eq!(e.exdates, vec![at(2026, 1, 8, 10, 0, 0)]);
}

#[test]
fn event_without_uid_or_start_is_refused() {
    let e = Event::new().summary("x").done();
    assert_eq!(ev(&e, "C", "/c"), Err(ParseError::EventMissingUid));
    let e = Event::new().uid("u").done();
    assert_eq!(ev(&e, "C", "/c"), Err(ParseError::EventMissingStart));
    assert_eq!(ParseError::EventMissingUid.message(), "Event missing UID");
}

#[test]
fn build_event_defaults_end_to_an_hour() {
    let f = EventFields {
        uid: Some(s("u")),
        summary: None,
        description: None,
        location: None,
        start: Some(IcalTime::Utc(100)),
        end: None,
        rrule: None,
        exdates: vec![],
        status: None,
    };
    let r = build_event(&f, Some(100), None, &s("C"), &s("/c"), &Some(s("#fff")), &None).unwrap();
    assert_eq!((r.start, r.end), (100, 3700));
    assert_eq!(r.summary, "Untitled Event");
    assert_eq!(r.calendar_color, Some(s("#fff")));
    assert_eq!(build_event(&f, None, None, &s("C"), &s("/c"), &None, &None), Err(ParseError::EventMissingStart));
}

#[test]
fn test_parse_todo_basic() {
    let t = IcalTodo::new()
        .uid("todo-123")
        .summary("Test Todo")
        .description("Do something")
        .due(Utc.with_ymd_and_hms(2026, 3, 20, 17, 0, 0).unwrap())
        .priority(5)
        .done();
    let p = td(&t, "Tasks", "/tasks").unwrap();
    assert_eq!(p.uid, "todo-123");
    assert_eq!(p.summary, "Test Todo");
    assert_eq!(p.description, Some(s("Do something")));
    assert_eq!(p.due, Some(at(2026, 3, 20, 17, 0, 0)));
    assert_eq!(p.priority, Some(5));
    assert_eq!(p.status, "NEEDS-ACTION");
    assert_eq!(p.calendar_url, "/tasks");
}

#[test]
fn test_parse_todo_minimal() {
    let t = IcalTodo::new().uid("minimal-todo").done();
    let p = td(&t, "Tasks", "/tasks").unwrap();
    assert_eq!(p.summary, "Untitled Task");
    assert_eq!(p.status, "NEEDS-ACTION");
    assert_eq!(p.due, None);
}

#[test]
fn test_parse_todo_priority_bounds() {
    assert_eq!(td(&IcalTodo::new().uid("p1").priority(1).done(), "T", "/t").unwrap().priority, Some(1));
    assert_eq!(td(&IcalTodo::new().uid("p9").priority(9).done(), "T", "/t").unwrap().priority, Some(9));
}

#[test]
fn test_parse_todo_percent_complete_bounds() {
    assert_eq!(td(&IcalTodo::new().uid("pc0").percent_complete(0).done(), "T", "/t").unwrap().percent_complete, Some(0));
    assert_eq!(td(&IcalTodo::new().uid("pc100").percent_complete(100).done(), "T", "/t").unwrap().percent_complete, Some(100));
    assert_eq!(td(&IcalTodo::new().uid("pc50").percent_complete(50).done(), "T", "/t").unwrap().percent_complete, Some(50));
}

#[test]
fn test_parse_todo_priority_zero() {
    let t = IcalTodo::new().uid("priority-zero").summary("Undefined Priority").priority(0).done();
    assert_eq!(td(&t, "Tasks", "/tasks").unwrap().priority, None);
}

#[test]
fn test_parse_todo_percent_zero() {
    let t = IcalTodo::new().uid("percent-zero").summary("Not Started").percent_complete(0).done();
    assert_eq!(td(&t, "Tasks", "/tasks").unwrap().percent_complete, Some(0));
}

#[test]
fn test_parse_todo_with_status_completed() {
    let t = IcalTodo::new().uid("completed-todo").summary("Done Task").status(icalendar::TodoStatus::Completed).done();
    assert_eq!(td(&t, "Tasks", "/tasks").unwrap().status, "Completed");
}

#[test]
fn test_parse_todo_no_dates() {
    let t = IcalTodo::new().uid("no-dates").summary("Someday").done();
    let p = td(&t, "Tasks", "/tasks").unwrap();
    assert_eq!(p.due, None);
    assert_eq!(p.start, None);
}

#[test]
fn todo_out_of_range_values_count_as_absent() {
    let f = TodoFields {
        uid: Some(s("t")),
        summary: None,
        description: None,
        due: None,
        start: None,
        completed: None,
        priority: Some(10),
        percent_complete: Some(101),
        status: None,
    };
    let r = build_todo(&f, None, None, &s("T"), &s("/t"), &None).unwrap();
    assert_eq!(r.priority, None);
    assert_eq!(r.percent_complete, None);
    let f = TodoFields { uid: None, ..f };
    assert_eq!(build_todo(&f, None, None, &s("T"), &s("/t"), &None), Err(ParseError::TodoMissingUid));
}

#[test]
fn unparseable_object_gives_nothing() {
    let (events, todos) = parse_calendar_object("not a calendar", &s("C"), &s("/c"), &None, &None);
    assert!(events.is_empty() && todos.is_empty());
}

#[test]
fn test_parse_event_all_day() {
    let e = Event::new()
        .uid("all-day-1")
        .summary("All Day Event")
        .all_day(chrono::NaiveDate::from_ymd_opt(2026, 5, 1).unwrap())
        .done();
    let p = ev(&e, "Calendar", "/cal").unwrap();
    assert_eq!(p.summary, "All Day Event");
    assert!(p.all_day);
}

#[test]
fn test_parse_todo_completed() {
    let completed = Utc.with_ymd_and_hms(2026, 3, 1, 15, 30, 0).unwrap();
    let t = IcalTodo::new().uid("todo-done").summary("Completed Task").completed(completed).percent_complete(100).done();
    let p = parse_todo(&todo_fields(&t), &s("Tasks"), &s("/tasks"), &Some(s("etag-456"))).unwrap();
    assert_eq!(p.summary, "Completed Task");
    assert_eq!(p.completed, Some(completed.timestamp()));
    assert_eq!(p.percent_complete, Some(100));
    assert_eq!(p.etag, Some(s("etag-456")));
}

#[test]
fn test_parse_event_with_calendar_color() {
    let e = Event::new()
        .uid("event-color")
        .summary("Colored Event")
        .starts(Utc.with_ymd_and_hms(2026, 3, 15, 10, 0, 0).unwrap())
        .ends(Utc.with_ymd_and_hms(2026, 3, 15, 11, 0, 0).unwrap())
        .done();
    let p = parse_event(&event_fields(&e), &s("Calendar"), &s("/cal"), &Some(s("#FF5733")), &None).unwrap();
    assert_eq!(p.calendar_color, Some(s("#FF5733")));
}

#[test]
fn test_parse_event_with_multiple_properties() {
    let e = Event::new()
        .uid("complex-event")
        .summary("Complex Event")
        .description("Detailed description")
        .location("Conference Room")
        .starts(Utc.with_ymd_and_hms(2026, 5, 1, 14, 0, 0).unwrap())
        .ends(Utc.with_ymd_and_hms(2026, 5, 1, 16, 0, 0).unwrap())
        .status(icalendar::EventStatus::Confirmed)
        .add_property("RRULE", "FREQ=MONTHLY")
        .done();
    let p = parse_event(
        &event_fields(&e),
        &s("Work Calendar"),
        &s("/calendars/work/"),
        &Some(s("#0000FF")),
        &Some(s("etag-xyz")),
    )
    .unwrap();
    assert_eq!(p.uid, "complex-event");
    assert_eq!(p.summary, "Complex Event");
    assert_eq!(p.description, Some(s("Detailed description")));
    assert_eq!(p.location, Some(s("Conference Room")));
    assert_eq!(p.calendar_name, "Work Calendar");
    assert_eq!(p.calendar_url, "/calendars/work/");
    assert_eq!(p.calendar_color, Some(s("#0000FF")));
    assert_eq!(p.rrule, Some(s("FREQ=MONTHLY")));
    assert_eq!(p.status, Some(s("Confirmed")));
    assert_eq!(p.etag, Some(s("etag-xyz")));
    assert!(!p.all_day);
}

#[test]
fn test_parse_todo_with_all_fields() {
    let start = Utc.with_ymd_and_hms(2026, 4, 1, 9, 0, 0).unwrap();
    let due = Utc.with_ymd_and_hms(2026, 4, 5, 17, 0, 0).unwrap();
    let completed = Utc.with_ymd_and_hms(2026, 4, 4, 15, 30, 0).unwrap();
    let t = IcalTodo::new()
        .uid("full-todo")
        .summary("Complete Task")
        .description("Task with all fields")
        .starts(start)
        .due(due)
        .completed(completed)
        .priority(3)
        .percent_complete(100)
        .status(icalendar::TodoStatus::Completed)
        .done();
    let p = parse_todo(&todo_fields(&t), &s("My Tasks"), &s("/calendars/tasks/"), &Some(s("etag-abc"))).unwrap();
    assert_eq!(p.uid, "full-todo");
    assert_eq!(p.summary, "Complete Task");
    assert_eq!(p.description, Some(s("Task with all fields")));
    assert_eq!(p.start, Some(start.timestamp()));
    assert_eq!(p.due, Some(due.timestamp()));
    assert_eq!(p.completed, Some(completed.timestamp()));
    assert_eq!(p.priority, Some(3));
    assert_eq!(p.percent_complete, Some(100));
    assert_eq!(p.status, "Completed");
    assert_eq!(p.calendar_name, "My Tasks");
    assert_eq!(p.calendar_url, "/calendars/tasks/");
    assert_eq!(p.etag, Some(s("etag-abc")));
}

#[test]
fn test_parse_datetime_with_timezone_tz() {
    let t = IcalTime::Zoned { local: at(2026, 1, 15, 14, 30, 0), tzid: s("America/New_York") };
    assert_eq!(parse_datetime(&t), Some(at(2026, 1, 15, 19, 30, 0)));
}

#[test]
fn test_parse_todo_no_summary() {
    let t = IcalTodo::new().uid("no-summary-todo").done();
    assert_eq!(td(&t, "Tasks", "/tasks").unwrap().summary, "Untitled Task");
}

#[test]
fn test_parse_event_with_description() {
    let e = Event::new()
        .uid("desc-event")
        .description("A detailed description")
        .starts(Utc.with_ymd_and_hms(2026, 3, 15, 10, 0, 0).unwrap())
        .done();
    assert_eq!(ev(&e, "Calendar", "/cal").unwrap().description, Some(s("A detailed description")));
}

#[test]
fn test_parse_event_with_location() {
    let e = Event::new()
        .uid("loc-event")
        .location("Room 101")
        .starts(Utc.with_ymd_and_hms(2026, 3, 15, 10, 0, 0).unwrap())
        .done();
    assert_eq!(ev(&e, "Calendar", "/cal").unwrap().location, Some(s("Room 101")));
}

#[test]
fn test_parse_todo_with_description() {
    let t = IcalTodo::new().uid("desc-todo").description("Todo details").done();
    assert_eq!(td(&t, "Tasks", "/tasks").unwrap().description, Some(s("Todo details")));
}

#[test]
fn test_parse_todo_cancelled_status() {
    let t = IcalTodo::new().uid("c").status(icalendar::TodoStatus::Cancelled).done();
    assert_eq!(td(&t, "Tasks", "/tasks").unwrap().status, "Cancelled");
}

#[test]
fn test_parse_todo_in_process_status() {
    let t = IcalTodo::new().uid("ip").status(icalendar::TodoStatus::InProcess).done();
    assert_eq!(td(&t, "Tasks", "/tasks").unwrap().status, "InProcess");
}

#[test]
fn test_parse_todo_needs_action_status() {
    let t = IcalTodo::new().uid("na").status(icalendar::TodoStatus::NeedsAction).done();
    assert_eq!(td(&t, "Tasks", "/tasks").unwrap().status, "NeedsAction");
}

#[test]
fn test_parse_event_tentative_status() {
    let e = Event::new()
        .uid("tentative")
        .starts(Utc.with_ymd_and_hms(2026, 5, 1, 10, 0, 0).unwrap())
        .status(icalendar::EventStatus::Tentative)
        .done();
    assert_eq!(ev(&e, "Calendar", "/cal").unwrap().status, Some(s("Tentative")));
}

#[test]
fn test_parse_event_cancelled_status() {
    let e = Event::new()
        .uid("cancelled")
        .starts(Utc.with_ymd_and_hms(2026, 5, 1, 10, 0, 0).unwrap())
        .status(icalendar::EventStatus::Cancelled)
        .done();
    assert_eq!(ev(&e, "Calendar", "/cal").unwrap().status, Some(s("Cancelled")));
}

#[test]
fn test_parse_event_no_etag() {
    let e = Event::new().uid("no-etag").starts(Utc.with_ymd_and_hms(2026, 5, 1, 10, 0, 0).unwrap()).done();
    assert_eq!(ev(&e, "Calendar", "/cal").unwrap().etag, None);
}

#[test]
fn test_parse_todo_with_start_date() {
    let start = Utc.with_ymd_and_hms(2026, 4, 1, 9, 0, 0).unwrap();
    let t = IcalTodo::new().uid("start-todo").starts(start).done();
    assert_eq!(td(&t, "Tasks", "/tasks").unwrap().start, Some(start.timestamp()));
}

#[test]
fn object_keeps_good_components_in_order() {
    let text = "BEGIN:VCALENDAR\r\nVERSION:2.0\r\nBEGIN:VEVENT\r\nUID:a\r\nDTSTART:20260101T100000Z\r\nEND:VEVENT\r\nBEGIN:VEVENT\r\nSUMMARY:no uid\r\nDTSTART:20260101T100000Z\r\nEND:VEVENT\r\nBEGIN:VEVENT\r\nUID:b\r\nDTSTART:20260102T100000Z\r\nEND:VEVENT\r\nBEGIN:VTODO\r\nUID:t\r\nEND:VTODO\r\nEND:VCALENDAR\r\n";
    let (events, todos) = parse_calendar_object(text, &s("Cal"), &s("/c"), &Some(s("#123")), &Some(s("e1")));
    let uids: Vec<&str> = events.iter().map(|e| e.uid.as_str()).collect();
    assert_eq!(uids, vec!["a", "b"]);
    assert!(events.iter().all(|e| e.calendar_name == "Cal" && e.calendar_color == Some(s("#123")) && e.etag == Some(s("e1"))));
    assert_eq!(todos.len(), 1);
    assert_eq!(todos[0].calendar_name, "Cal");
    assert_eq!(todos[0].etag, Some(s("e1")));
}
