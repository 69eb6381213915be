use std::time::{Duration, SystemTime};

use rustpress::cron::{lock_expired, parse_doing_wp_cron, should_run_cron, CronEvent, CronScheduler};

#[test]
fn allows_run_when_unlocked() {
    assert!(should_run_cron(None, Duration::from_secs(60)));
}

#[test]
fn scheduler_returns_due_events_in_order() {
    let mut scheduler = CronScheduler::default();
    scheduler.schedule_event(CronEvent {
        hook: "future_hook".to_string(),
        timestamp: 200,
        schedule: Some("hourly".to_string()),
        args: vec![],
    });
    scheduler.schedule_event(CronEvent {
        hook: "due_hook".to_string(),
        timestamp: 100,
        schedule: None,
        args: vec!["1".to_string()],
    });

    let due = scheduler.due_events(150);
    assert_eq!(due.len(), 1);
    assert_eq!(due[0].hook, "due_hook");
    assert_eq!(scheduler.next_event_timestamp(), Some(200));
}

#[test]
fn scheduler_lock_respects_timeout() {
    let mut scheduler = CronScheduler::default();
    assert!(scheduler.acquire_lock(Duration::from_secs(60)));
    assert!(!scheduler.acquire_lock(Duration::from_secs(60)));
    scheduler.release_lock();
    assert!(scheduler.acquire_lock(Duration::from_secs(60)));
}

#[test]
fn parses_doing_wp_cron_token() {
    let token = parse_doing_wp_cron("foo=1&doing_wp_cron=173847");
    assert_eq!(token, Some("173847".to_string()));
}

#[test]
fn parse_doing_wp_cron_ignores_empty_value() {
    let token = parse_doing_wp_cron("foo=1&doing_wp_cron=&bar=2");
    assert_eq!(token, None);
}

#[test]
fn should_run_cron_allows_when_lock_in_future() {
    let future_lock = SystemTime::now() + Duration::from_secs(30);
    assert!(should_run_cron(Some(future_lock), Duration::from_secs(60)));
}

// ---- further cases ----

fn event(hook: &str, timestamp: u64) -> CronEvent {
    CronEvent { hook: hook.to_string(), timestamp, schedule: None, args: vec![] }
}

#[test]
fn equal_timestamps_keep_scheduling_order() {
    let mut scheduler = CronScheduler::default();
    scheduler.schedule_event(event("b", 50));
    scheduler.schedule_event(event("first", 10));
    scheduler.schedule_event(event("second", 10));
    let due = scheduler.due_events(50);
    let hooks: Vec<&str> = due.iter().map(|e| e.hook.as_str()).collect();
    assert_eq!(hooks, vec!["first", "second", "b"]);
    assert_eq!(scheduler.next_event_timestamp(), None);
}

#[test]
fn nothing_due_before_first_event() {
    let mut scheduler = CronScheduler::default();
    scheduler.schedule_event(event("later", 100));
    assert!(scheduler.due_events(99).is_empty());
    assert_eq!(scheduler.due_events(100).len(), 1);
}

#[test]
fn old_lock_expires_and_lock_time_is_reported() {
    let mut scheduler = CronScheduler::default();
    assert!(scheduler.lock_acquired_at().is_none());
    assert!(scheduler.acquire_lock(Duration::from_secs(0)));
    assert!(scheduler.lock_acquired_at().is_some());
    // A zero timeout never holds anyone back.
    assert!(scheduler.acquire_lock(Duration::from_secs(0)));
    let past = SystemTime::now() - Duration::from_secs(120);
    assert!(should_run_cron(Some(past), Duration::from_secs(60)));
}

#[test]
fn lock_expiry_rule() {
    assert!(lock_expired(None, 5));
    assert!(lock_expired(Some(5), 5));
    assert!(!lock_expired(Some(4), 5));
}

#[test]
fn cron_token_is_trimmed_and_first_wins() {
    assert_eq!(parse_doing_wp_cron(" doing_wp_cron = 42 "), Some("42".to_string()));
    assert_eq!(parse_doing_wp_cron("doing_wp_cron=1&doing_wp_cron=2"), Some("1".to_string()));
    assert_eq!(parse_doing_wp_cron("doing_wp_cron"), None);
}

#[test]
fn due_events_over_several_calls_keep_time_and_scheduling_order() {
    let mut scheduler = CronScheduler::default();
    scheduler.schedule_event(event("c", 30));
    scheduler.schedule_event(event("a1", 10));
    scheduler.schedule_event(event("b", 20));
    scheduler.schedule_event(event("a2", 10));
    let first: Vec<String> = scheduler.due_events(10).into_iter().map(|e| e.hook).collect();
    assert_eq!(first, vec!["a1", "a2"]);
    scheduler.schedule_event(event("b2", 20));
    scheduler.schedule_event(event("a3", 5));
    assert_eq!(scheduler.next_event_timestamp(), Some(5));
    let second: Vec<String> = scheduler.due_events(25).into_iter().map(|e| e.hook).collect();
    assert_eq!(second, vec!["a3", "b", "b2"]);
    assert_eq!(scheduler.next_event_timestamp(), Some(30));
    let rest: Vec<String> = scheduler.due_events(u64::MAX).into_iter().map(|e| e.hook).collect();
    assert_eq!(rest, vec!["c"]);
    assert_eq!(scheduler.next_event_timestamp(), None);
}
