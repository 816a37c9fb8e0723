use freedomwall::heartbeat::Heartbeat;
use freedomwall::heartbeat::TimerStep;
use freedomwall::manager::is_api_request;
use freedomwall::snapshot::LiveWindow;
use freedomwall::snapshot::Rect;
use freedomwall::snapshot::collapse_snapshot;
use freedomwall::snapshot::rect_from_bounds;

fn entry(title: &str, w: i64, h: i64) -> LiveWindow {
    LiveWindow {
        title: title.to_string(),
        rect: Rect { x: 0, y: 0, width: w, height: h },
        is_foreground: false,
        stack_predecessor: None,
    }
}

#[test]
fn collapse_keeps_largest_of_consecutive_duplicates() {
    // A window and its shadow layer share one title; only the larger
    // entry stays.
    let raw = vec![entry("Notes", 100, 100), entry("Notes", 800, 600), entry("Mail", 50, 50)];
    let out = collapse_snapshot(raw);
    assert_eq!(out.len(), 2);
    assert_eq!(out[0].title, "Notes");
    assert_eq!(out[0].rect.width, 800);
    assert_eq!(out[1].title, "Mail");
}

#[test]
fn collapse_keeps_first_when_not_larger() {
    let raw = vec![entry("Notes", 800, 600), entry("Notes", 100, 100)];
    let out = collapse_snapshot(raw);
    assert_eq!(out.len(), 1);
    assert_eq!(out[0].rect.width, 800);
}

#[test]
fn collapse_leaves_distinct_and_nonadjacent_titles() {
    let raw = vec![entry("A", 10, 10), entry("B", 10, 10), entry("A", 90, 90)];
    let out = collapse_snapshot(raw);
    assert_eq!(out.len(), 3);
    assert_eq!(out[2].rect.width, 90);

    let empty: Vec<LiveWindow> = Vec::new();
    assert!(collapse_snapshot(empty).is_empty());
}

#[test]
fn rect_from_window_bounds() {
    let r = rect_from_bounds(10, 20, 810, 620);
    assert_eq!((r.x, r.y, r.width, r.height), (10, 20, 800, 600));
    // Inverted bounds still give a non-negative extent.
    let r2 = rect_from_bounds(810, 620, 10, 20);
    assert_eq!((r2.x, r2.y, r2.width, r2.height), (810, 620, 800, 600));
}

#[test]
fn heartbeat_state_machine() {
    let mut hb = Heartbeat::new(50);
    assert!(hb.running);

    // Timeout: tick, state unchanged.
    assert_eq!(hb.on_wait_end(None), TimerStep::Tick);
    assert_eq!(hb.interval_ms, 50);

    // New interval: adopted non-preemptively, then sleep and tick.
    assert_eq!(hb.on_wait_end(Some(200)), TimerStep::SleepThenTick);
    assert_eq!(hb.interval_ms, 200);
    assert!(hb.running);

    // Stop sentinel: exit, no tick.
    assert_eq!(hb.on_wait_end(Some(0)), TimerStep::Exit);
    assert!(!hb.running);
}

#[test]
fn api_requests_are_told_apart() {
    assert!(is_api_request("wry://api/0/1/setting/language/get"));
    assert!(!is_api_request("wry://pages/_home.html"));
    assert!(!is_api_request("wry://api"));
    assert!(!is_api_request(""));
}
