use chrono::{TimeZone, Utc};
use fred_cal::models::{CalendarEvent, SyncState, Todo};
use fred_cal::recurrence::RecurrenceConfig;
use fred_cal::store::CalendarData;
use fred_cal::sync::{
    apply_deletions, apply_fetched_item, apply_full_fetch, choose_strategy, dedup_todos, expand_all, fetch_batches,
    finish_pass, hrefs_to_fetch, next_after_fetch, record_cursor, DiffItem, SyncStrategy, BATCH_SIZE,
};

const HOUR: i64 = 3600;
const DAY: i64 = 86400;

fn at(y: i32, mo: u32, d: u32, h: u32, mi: u32, s: u32) -> i64 {
    Utc.with_ymd_and_hms(y, mo, d, h, mi, s).unwrap().timestamp()
}

fn event(uid: &str, url: &str, start: i64, end: i64, rrule: Option<&str>) -> CalendarEvent {
    CalendarEvent {
        uid: uid.to_string(),
        summary: format!("Event {uid}"),
        description: None,
        location: None,
        start,
        end,
        calendar_name: "C".to_string(),
        calendar_url: url.to_string(),
        calendar_color: None,
        all_day: false,
        rrule: rrule.map(String::from),
        exdates: Vec::new(),
        status: None,
        etag: None,
    }
}

fn todo(uid: &str, url: &str) -> Todo {
    Todo {
        uid: uid.to_string(),
        summary: format!("Todo {uid}"),
        description: None,
        due: None,
        start: None,
        completed: None,
        priority: None,
        percent_complete: None,
        status: "NEEDS-ACTION".to_string(),
        calendar_name: "C".to_string(),
        calendar_url: url.to_string(),
        etag: None,
    }
}

fn s(t: &str) -> String {
    t.to_string()
}

#[test]
fn test_batch_size_constant() {
    assert_eq!(BATCH_SIZE, 500);
}

#[test]
fn new_collection_gets_full_fetch() {
    let store = CalendarData::empty_at(0);
    assert_eq!(choose_strategy(&store, &s("/c"), true), SyncStrategy::Full);
}

#[test]
fn synced_collection_goes_incremental_when_supported() {
    let mut store = CalendarData::empty_at(0);
    let url = s("/c");
    store.set_token_state(&url, SyncState::SyncedNoToken);
    assert_eq!(choose_strategy(&store, &url, true), SyncStrategy::Incremental(None));
    assert_eq!(choose_strategy(&store, &url, false), SyncStrategy::Full);
    store.set_token_state(&url, SyncState::HasToken(s("t1")));
    assert_eq!(choose_strategy(&store, &url, true), SyncStrategy::Incremental(Some(s("t1"))));
    store.set_token_state(&url, SyncState::IncrementalUnsupported);
    assert_eq!(choose_strategy(&store, &url, true), SyncStrategy::Full);
}

#[test]
fn items_without_token_go_incremental_from_start() {
    let mut store = CalendarData::empty_at(0);
    store.replace_todo(todo("t", "/c"));
    assert_eq!(choose_strategy(&store, &s("/c"), true), SyncStrategy::Incremental(None));
}

#[test]
fn full_fetch_twice_is_idempotent() {
    let url = s("/c");
    let config = RecurrenceConfig::default();
    let now = at(2030, 1, 1, 0, 0, 0);
    let mut store = CalendarData::empty_at(0);
    store.replace_by_uid(vec![event("old", "/c", 0, 1, None)]);
    store.replace_by_uid(vec![event("other", "/d", 0, 1, None)]);
    let events = vec![
        event("a", "/c", now, now + HOUR, None),
        event("b", "/c", now, now + HOUR, Some("FREQ=DAILY;COUNT=3")),
    ];
    let todos = vec![todo("t", "/c")];
    apply_full_fetch(&mut store, &url, &events, &todos, true, &config, now);
    let once = store.clone();
    apply_full_fetch(&mut store, &url, &events, &todos, true, &config, now);
    assert_eq!(store.events, once.events);
    assert_eq!(store.todos, once.todos);
    assert_eq!(store.sync_tokens, once.sync_tokens);
    assert_eq!(store.events.len(), 1 + 1 + 3);
    assert!(store.events.iter().all(|e| e.uid != "old"));
    assert_eq!(store.token_state(&url), SyncState::SyncedNoToken);
}

#[test]
fn full_fetch_keeps_unsupported_marker() {
    let url = s("/c");
    let mut store = CalendarData::empty_at(0);
    store.set_token_state(&url, SyncState::IncrementalUnsupported);
    apply_full_fetch(&mut store, &url, &vec![], &vec![], true, &RecurrenceConfig::default(), 0);
    assert_eq!(store.token_state(&url), SyncState::IncrementalUnsupported);
}

#[test]
fn incremental_deletes_updates_and_records_cursor() {
    let url = s("/c");
    let now = at(2030, 1, 1, 0, 0, 0);
    let config = RecurrenceConfig::default();
    let mut store = CalendarData::empty_at(0);
    store.replace_by_uid(vec![event("X", "/c", now, now + HOUR, None)]);
    store.replace_by_uid(vec![event("Y", "/c", now, now + HOUR, None)]);
    store.replace_todo(todo("X", "/c"));
    let items = vec![
        DiffItem { href: s("/cal/c/X.ics"), is_deleted: true },
        DiffItem { href: s("/cal/c/Y.ics"), is_deleted: false },
        DiffItem { href: s("/cal/c/"), is_deleted: false },
    ];
    apply_deletions(&mut store, &items);
    assert_eq!(store.events.len(), 1);
    assert!(store.todos.is_empty());
    assert_eq!(hrefs_to_fetch(&items), vec![s("/cal/c/Y.ics")]);
    let mut updated = event("Y", "/c", now + DAY, now + DAY + HOUR, None);
    updated.summary = s("moved");
    assert_eq!(apply_fetched_item(&mut store, &vec![updated], &vec![], &config, now), (1, 0));
    assert_eq!(store.events.len(), 1);
    assert_eq!(store.events[0].summary, "moved");
    record_cursor(&mut store, &url, Some(s("cursor-2")));
    assert_eq!(store.token_state(&url), SyncState::HasToken(s("cursor-2")));
    record_cursor(&mut store, &url, None);
    assert_eq!(store.token_state(&url), SyncState::IncrementalUnsupported);
}

#[test]
fn batches_of_five_hundred() {
    let hrefs: Vec<String> = (0..1201).map(|i| format!("/c/{i}.ics")).collect();
    let batches = fetch_batches(&hrefs);
    assert_eq!(batches.len(), 3);
    assert_eq!(batches[0].len(), 500);
    assert_eq!(batches[1].len(), 500);
    assert_eq!(batches[2].len(), 201);
    assert_eq!(batches.concat(), hrefs);
    assert!(fetch_batches(&vec![]).is_empty());
}

#[test]
fn stale_cleanup_at_pass_end() {
    let mut store = CalendarData::empty_at(10);
    store.replace_by_uid(vec![event("a", "/A", 0, 1, None)]);
    store.replace_by_uid(vec![event("b", "/B", 0, 1, None)]);
    store.replace_todo(todo("tb", "/B"));
    store.set_token_state(&s("/B"), SyncState::HasToken(s("x")));
    finish_pass(&mut store, &vec![s("/A")], 20);
    assert_eq!(store.events.len(), 1);
    assert_eq!(store.events[0].uid, "a");
    assert!(store.todos.is_empty());
    assert!(store.sync_tokens.is_empty());
    assert_eq!(store.last_sync, 20);
}

#[test]
fn duplicate_uids_in_a_fetch_keep_the_last() {
    let now = at(2030, 1, 1, 0, 0, 0);
    let evs = vec![event("a", "/c", now, now + HOUR, None), event("a", "/c", now + 5, now + HOUR, None)];
    let r = expand_all(&evs, &RecurrenceConfig::default(), now);
    assert_eq!(r.len(), 1);
    assert_eq!(r[0].start, now + 5);
    let mut second = todo("t", "/c");
    second.summary = s("second");
    let t = dedup_todos(&vec![todo("t", "/c"), second]);
    assert_eq!(t.len(), 1);
    assert_eq!(t[0].summary, "second");
}

// One collection with no token; a full fetch returns one event from 10:00
// to 11:00 on a day; after the pass the store holds it alone and a query of
// that day returns it.
#[test]
fn end_to_end_single_event() {
    let mut store = CalendarData::empty_at(0);
    let url = s("/cal/C/");
    let day = at(2030, 3, 10, 0, 0, 0);
    let e1 = event("e1", "/cal/C/", day + 10 * HOUR, day + 11 * HOUR, None);
    assert_eq!(choose_strategy(&store, &url, false), SyncStrategy::Full);
    apply_full_fetch(&mut store, &url, &vec![e1.clone()], &vec![], false, &RecurrenceConfig::default(), day);
    let now = at(2030, 3, 10, 12, 0, 0);
    finish_pass(&mut store, &vec![url.clone()], now);
    assert_eq!(store.events.len(), 1);
    assert_eq!(store.events[0].uid, "e1");
    assert_eq!(store.last_sync, now);
    assert_eq!(store.events_in_range(day, day + DAY), vec![e1]);
}

// The same with a daily rule of five occurrences starting now.
#[test]
fn end_to_end_recurring_event() {
    let mut store = CalendarData::empty_at(0);
    let url = s("/cal/C/");
    let now = at(2030, 3, 10, 9, 0, 0);
    let e1 = event("e1", "/cal/C/", now, now + HOUR, Some("FREQ=DAILY;COUNT=5"));
    apply_full_fetch(&mut store, &url, &vec![e1], &vec![], true, &RecurrenceConfig::default(), now);
    finish_pass(&mut store, &vec![url.clone()], now);
    assert_eq!(store.events.len(), 5);
    assert!(store.events.iter().all(|e| e.uid == "e1" && e.end - e.start == HOUR));
    for w in store.events.windows(2) {
        assert_eq!(w[1].start - w[0].start, DAY);
    }
}

#[test]
fn empty_cursor_counts_as_none() {
    let mut store = CalendarData::empty_at(0);
    let url = s("/c");
    record_cursor(&mut store, &url, Some(String::new()));
    assert_eq!(store.token_state(&url), SyncState::SyncedNoToken);
    assert_eq!(choose_strategy(&store, &url, true), SyncStrategy::Incremental(None));
    store.set_token_state(&url, SyncState::HasToken(String::new()));
    assert_eq!(choose_strategy(&store, &url, true), SyncStrategy::Incremental(None));
}

#[test]
fn failed_incremental_falls_back_to_full() {
    assert_eq!(next_after_fetch(&SyncStrategy::Incremental(None), false), Some(SyncStrategy::Full));
    assert_eq!(next_after_fetch(&SyncStrategy::Incremental(None), true), None);
    assert_eq!(next_after_fetch(&SyncStrategy::Full, false), None);
}
