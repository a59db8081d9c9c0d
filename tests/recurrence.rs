use chrono::{TimeZone, Utc};
use fred_cal::models::CalendarEvent;
use fred_cal::recurrence::{
    expand_recurring_event, expand_recurring_event_at, instances_from_occurrences, normalize_until_to_utc,
    rrule_text, RecurrenceConfig,
};

const HOUR: i64 = 3600;
const DAY: i64 = 86400;

fn at(y: i32, mo: u32, d: u32, h: u32, mi: u32, s: u32) -> i64 {
    Utc.with_ymd_and_hms(y, mo, d, h, mi, s).unwrap().timestamp()
}

fn now() -> i64 {
    Utc::now().timestamp()
}

fn today_at(h: u32, mi: u32) -> i64 {
    let d = Utc::now().date_naive().and_hms_opt(h, mi, 0).unwrap();
    Utc.from_utc_datetime(&d).timestamp()
}

fn create_test_event(summary: &str, start: i64, end: i64, rrule: Option<String>) -> CalendarEvent {
    CalendarEvent {
        uid: "test-uid".to_string(),
        summary: summary.to_string(),
        description: None,
        location: None,
        start,
        end,
        calendar_name: "Test".to_string(),
        calendar_url: "/test".to_string(),
        calendar_color: None,
        all_day: false,
        rrule,
        exdates: Vec::new(),
        status: None,
        etag: None,
    }
}

#[test]
fn test_expand_no_rrule() {
    let start = at(2026, 1, 1, 10, 0, 0);
    let end = at(2026, 1, 1, 11, 0, 0);
    let event = create_test_event("Test", start, end, None);
    let instances = expand_recurring_event(&event, &RecurrenceConfig::default());
    assert_eq!(instances.len(), 1);
    assert_eq!(instances[0].start, start);
}

#[test]
fn test_expand_daily_rrule() {
    let start = today_at(10, 0);
    let event = create_test_event("Daily", start, start + HOUR, Some("FREQ=DAILY;COUNT=5".to_string()));
    let config = RecurrenceConfig { expand_forward_days: 30, expand_backward_days: 1 };
    let instances = expand_recurring_event(&event, &config);
    assert_eq!(instances.len(), 5);
    for (i, instance) in instances.iter().enumerate() {
        assert_eq!(instance.start, start + DAY * i as i64);
    }
}

#[test]
fn test_expand_weekly_rrule() {
    let start = today_at(10, 0);
    let event = create_test_event("Weekly", start, start + HOUR, Some("FREQ=WEEKLY;COUNT=4".to_string()));
    let config = RecurrenceConfig { expand_forward_days: 60, expand_backward_days: 1 };
    let instances = expand_recurring_event(&event, &config);
    assert_eq!(instances.len(), 4);
    for w in instances.windows(2) {
        assert_eq!((w[1].start - w[0].start) / DAY, 7);
    }
}

#[test]
fn test_expand_with_interval() {
    let start = today_at(10, 0);
    let event = create_test_event(
        "Bi-weekly",
        start,
        start + HOUR,
        Some("FREQ=WEEKLY;INTERVAL=2;COUNT=3".to_string()),
    );
    let config = RecurrenceConfig { expand_forward_days: 60, expand_backward_days: 1 };
    let instances = expand_recurring_event(&event, &config);
    assert_eq!(instances.len(), 3);
    for w in instances.windows(2) {
        assert_eq!((w[1].start - w[0].start) / DAY, 14);
    }
}

#[test]
fn test_expand_invalid_rrule() {
    let start = at(2026, 1, 1, 10, 0, 0);
    let end = at(2026, 1, 1, 11, 0, 0);
    let event = create_test_event("Invalid", start, end, Some("INVALID_RRULE".to_string()));
    let instances = expand_recurring_event(&event, &RecurrenceConfig::default());
    assert_eq!(instances.len(), 1);
    assert_eq!(instances[0].start, start);
}

#[test]
fn test_expansion_window() {
    let start = today_at(10, 0);
    let event = create_test_event("Daily", start, start + HOUR, Some("FREQ=DAILY;COUNT=100".to_string()));
    let config = RecurrenceConfig { expand_forward_days: 30, expand_backward_days: 30 };
    let instances = expand_recurring_event(&event, &config);
    for instance in &instances {
        let diff = ((instance.start - now()) / DAY).abs();
        assert!(diff <= 30, "instance {} is {} days from now", instance.start, diff);
    }
    assert!(!instances.is_empty());
    assert!(instances.len() < 100);
}

#[test]
fn test_event_duration_preserved() {
    let start = today_at(10, 0);
    let event = create_test_event("Long Event", start, start + 2 * HOUR, Some("FREQ=DAILY;COUNT=3".to_string()));
    let config = RecurrenceConfig { expand_forward_days: 30, expand_backward_days: 1 };
    let instances = expand_recurring_event(&event, &config);
    for instance in &instances {
        assert_eq!((instance.end - instance.start) / HOUR, 2);
    }
}

#[test]
fn test_pay_period_rrule() {
    let start = at(2014, 1, 12, 0, 0, 0);
    let end = at(2014, 1, 26, 0, 0, 0);
    let event = create_test_event("Pay Period 3", start, end, Some("FREQ=WEEKLY;INTERVAL=52".to_string()));
    let config = RecurrenceConfig { expand_forward_days: 730, expand_backward_days: 365 };
    let instances = expand_recurring_event(&event, &config);
    assert!(!instances.is_empty(), "Expected some instances");
    let n = now();
    let window_start = n - 365 * DAY;
    let window_end = n + 730 * DAY;
    for instance in &instances {
        assert!(instance.start >= window_start);
        assert!(instance.start <= window_end);
    }
    if instances.len() > 1 {
        for w in instances.windows(2) {
            assert_eq!((w[1].start - w[0].start) / DAY, 364);
        }
    }
}

#[test]
fn test_normalize_until_to_utc() {
    assert_eq!(
        normalize_until_to_utc("FREQ=WEEKLY;UNTIL=20140315;INTERVAL=52"),
        "FREQ=WEEKLY;UNTIL=20140315T000000Z;INTERVAL=52"
    );
    assert_eq!(
        normalize_until_to_utc("FREQ=DAILY;UNTIL=20140315T120000;COUNT=10"),
        "FREQ=DAILY;UNTIL=20140315T120000Z;COUNT=10"
    );
    assert_eq!(normalize_until_to_utc("FREQ=DAILY;UNTIL=20140315T120000Z"), "FREQ=DAILY;UNTIL=20140315T120000Z");
    assert_eq!(normalize_until_to_utc("FREQ=WEEKLY;INTERVAL=2"), "FREQ=WEEKLY;INTERVAL=2");
}

#[test]
fn test_rrule_with_until() {
    let start = at(2014, 1, 1, 10, 0, 0);
    let event = create_test_event("Event with UNTIL", start, start + HOUR, Some("FREQ=DAILY;UNTIL=20140110".to_string()));
    let instances = expand_recurring_event(&event, &RecurrenceConfig::default());
    assert_eq!(instances.len(), 1);
}

#[test]
fn test_recurrence_config_default() {
    let config = RecurrenceConfig::default();
    assert_eq!(config.expand_forward_days, 730);
    assert_eq!(config.expand_backward_days, 365);
}

#[test]
fn test_recurrence_config_clone() {
    let config = RecurrenceConfig { expand_forward_days: 100, expand_backward_days: 50 };
    #[allow(clippy::redundant_clone)]
    let cloned = config.clone();
    assert_eq!(cloned.expand_forward_days, 100);
    assert_eq!(cloned.expand_backward_days, 50);
}

#[test]
fn test_recurrence_config_debug() {
    let config = RecurrenceConfig::default();
    let debug_str = format!("{config:?}");
    assert!(debug_str.contains("RecurrenceConfig"));
    assert!(debug_str.contains("730"));
    assert!(debug_str.contains("365"));
}

#[test]
fn test_normalize_until_invalid_format() {
    assert_eq!(normalize_until_to_utc("FREQ=DAILY;UNTIL=invalid;COUNT=5"), "FREQ=DAILY;UNTIL=invalid;COUNT=5");
}

#[test]
fn test_normalize_until_with_multiple_params() {
    assert_eq!(
        normalize_until_to_utc("FREQ=WEEKLY;BYDAY=MO,WE,FR;UNTIL=20260315;INTERVAL=1"),
        "FREQ=WEEKLY;BYDAY=MO,WE,FR;UNTIL=20260315T000000Z;INTERVAL=1"
    );
}

#[test]
fn test_expand_with_custom_config() {
    let start = today_at(14, 30);
    let event = create_test_event("Custom window", start, start + 45 * 60, Some("FREQ=DAILY;COUNT=20".to_string()));
    let config = RecurrenceConfig { expand_forward_days: 5, expand_backward_days: 2 };
    assert!(expand_recurring_event(&event, &config).len() <= 7);
}

#[test]
fn test_expand_event_past_window() {
    let start = at(2000, 1, 1, 10, 0, 0);
    let end = at(2000, 1, 1, 11, 0, 0);
    let event = create_test_event("Past event", start, end, Some("FREQ=DAILY;UNTIL=20000105".to_string()));
    let config = RecurrenceConfig { expand_forward_days: 30, expand_backward_days: 30 };
    let instances = expand_recurring_event(&event, &config);
    assert_eq!(instances.len(), 1);
    assert_eq!(instances[0].start, start);
}

#[test]
fn test_expand_monthly_rrule() {
    let start = today_at(9, 0);
    let event = create_test_event("Monthly", start, start + HOUR, Some("FREQ=MONTHLY;COUNT=3".to_string()));
    let config = RecurrenceConfig { expand_forward_days: 120, expand_backward_days: 1 };
    assert_eq!(expand_recurring_event(&event, &config).len(), 3);
}

#[test]
fn test_expand_with_byday() {
    let start = today_at(15, 0);
    let event = create_test_event("MW Meeting", start, start + HOUR, Some("FREQ=WEEKLY;BYDAY=MO,WE;COUNT=6".to_string()));
    let config = RecurrenceConfig { expand_forward_days: 60, expand_backward_days: 1 };
    let instances = expand_recurring_event(&event, &config);
    assert!(instances.len() <= 6);
    assert!(!instances.is_empty());
}

#[test]
fn test_event_with_all_fields() {
    let start = today_at(10, 0);
    let event = CalendarEvent {
        uid: "full-event".to_string(),
        summary: "Complete Event".to_string(),
        description: Some("Description".to_string()),
        location: Some("Office".to_string()),
        start,
        end: start + HOUR,
        calendar_name: "Work".to_string(),
        calendar_url: "/work".to_string(),
        calendar_color: Some("#0000FF".to_string()),
        all_day: false,
        rrule: Some("FREQ=DAILY;COUNT=2".to_string()),
        exdates: Vec::new(),
        status: Some("CONFIRMED".to_string()),
        etag: Some("etag123".to_string()),
    };
    let instances = expand_recurring_event(&event, &RecurrenceConfig::default());
    assert_eq!(instances.len(), 2);
    for instance in &instances {
        assert_eq!(instance.summary, "Complete Event");
        assert_eq!(instance.description, Some("Description".to_string()));
        assert_eq!(instance.location, Some("Office".to_string()));
        assert_eq!(instance.calendar_color, Some("#0000FF".to_string()));
        assert_eq!(instance.status, Some("CONFIRMED".to_string()));
        assert_eq!(instance.etag, Some("etag123".to_string()));
    }
}

#[test]
fn test_expand_stops_at_window_end() {
    let start = today_at(12, 0);
    let event = create_test_event("Many occurrences", start, start + HOUR, Some("FREQ=DAILY;COUNT=1000".to_string()));
    let config = RecurrenceConfig { expand_forward_days: 10, expand_backward_days: 1 };
    let instances = expand_recurring_event(&event, &config);
    assert!(instances.len() < 1000);
    assert!(instances.len() <= 11);
}

#[test]
fn test_normalize_until_already_normalized() {
    let rrule = "FREQ=WEEKLY;UNTIL=20260315T120000Z;INTERVAL=2";
    assert_eq!(normalize_until_to_utc(rrule), rrule);
}

#[test]
fn test_expand_before_window_start() {
    let past = Utc::now() - chrono::Duration::days(100);
    let start = Utc.from_utc_datetime(&past.date_naive().and_hms_opt(10, 0, 0).unwrap()).timestamp();
    let event = create_test_event("Old recurring", start, start + HOUR, Some("FREQ=DAILY;COUNT=200".to_string()));
    let config = RecurrenceConfig { expand_forward_days: 30, expand_backward_days: 30 };
    let instances = expand_recurring_event(&event, &config);
    for instance in &instances {
        assert!(instance.start >= now() - 30 * DAY, "Instance should be after window start");
    }
}

// A daily rule with COUNT=1000, a window of ten days forward and one back:
// at most 11 instances, all in the window.
#[test]
fn windowing_daily_thousand() {
    let n = at(2030, 6, 1, 12, 0, 30);
    let start = n - 5 * DAY + 7;
    let event = create_test_event("Daily", start, start + HOUR, Some("FREQ=DAILY;COUNT=1000".to_string()));
    let config = RecurrenceConfig { expand_forward_days: 10, expand_backward_days: 1 };
    let instances = expand_recurring_event_at(&event, &config, n);
    assert!(instances.len() <= 11);
    assert!(instances.len() < 1000);
    for i in &instances {
        assert!(i.start >= n - DAY && i.start <= n + 10 * DAY);
        assert_eq!(i.end - i.start, HOUR);
    }
}

#[test]
fn empty_window_fallback_returns_original() {
    let start = at(2000, 1, 1, 10, 0, 0);
    let mut event = create_test_event("Past", start, start + HOUR, Some("FREQ=DAILY;COUNT=3".to_string()));
    event.exdates = vec![start + DAY];
    let config = RecurrenceConfig { expand_forward_days: 10, expand_backward_days: 1 };
    let instances = expand_recurring_event_at(&event, &config, at(2030, 1, 1, 0, 0, 0));
    assert_eq!(instances, vec![event]);
}

#[test]
fn no_rule_passthrough_is_identical() {
    let event = create_test_event("One-off", 1000, 5000, None);
    assert_eq!(expand_recurring_event_at(&event, &RecurrenceConfig::default(), 0), vec![event]);
}

#[test]
fn instances_from_occurrences_keeps_window_and_duration() {
    let event = create_test_event("Series", 100, 160, Some("FREQ=DAILY".to_string()));
    let occurrences = vec![50, 100, 200, 300, 400, 500];
    let r = instances_from_occurrences(&event, &occurrences, 100, 300);
    let starts: Vec<i64> = r.iter().map(|e| e.start).collect();
    let ends: Vec<i64> = r.iter().map(|e| e.end).collect();
    assert_eq!(starts, vec![100, 200, 300]);
    assert_eq!(ends, vec![160, 260, 360]);
    assert!(r.iter().all(|e| e.summary == "Series" && e.rrule.is_some()));
}

#[test]
fn instances_from_occurrences_falls_back_when_none_in_window() {
    let event = create_test_event("Series", 100, 160, Some("FREQ=DAILY".to_string()));
    let r = instances_from_occurrences(&event, &vec![10, 20, 900], 100, 300);
    assert_eq!(r, vec![event]);
}

#[test]
fn rule_text_anchors_start_and_normalizes_until() {
    let text = rrule_text("FREQ=DAILY;UNTIL=20140110", at(2014, 1, 1, 10, 0, 0)).unwrap();
    assert_eq!(text, "DTSTART:20140101T100000Z\nRRULE:FREQ=DAILY;UNTIL=20140110T000000Z");
}

#[test]
fn exdates_are_not_applied_to_expansion() {
    let n = at(2030, 6, 1, 12, 0, 0);
    let start = n;
    let mut event = create_test_event("Daily", start, start + HOUR, Some("FREQ=DAILY;COUNT=3".to_string()));
    event.exdates = vec![start + DAY];
    let instances = expand_recurring_event_at(&event, &RecurrenceConfig::default(), n);
    assert_eq!(instances.len(), 3);
}

#[test]
fn multi_line_rule_is_not_handed_to_rrule() {
    assert_eq!(rrule_text("FREQ=DAILY;COUNT=2\nRDATE:20300101T090000", at(2030, 1, 1, 0, 0, 0)), None);
    assert_eq!(rrule_text("FREQ=DAILY;COUNT=2\r", at(2030, 1, 1, 0, 0, 0)), None);
    let start = at(2030, 1, 1, 9, 0, 0);
    let event = create_test_event("Two lines", start, start + HOUR, Some("FREQ=DAILY;COUNT=2\nRDATE:20300105T090000".to_string()));
    assert_eq!(expand_recurring_event_at(&event, &RecurrenceConfig::default(), start), vec![event]);
}
