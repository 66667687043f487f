use diskspace::history::ActionKind;
use diskspace::model::{Candidate, Category, Consequences};
use diskspace::watch::{
    agent_is_loaded, autoreclaim_picks, autoreclaim_receipt, decide_notify, free_share,
    is_autoreclaim_safe, launch_agent_plist, launch_agent_plist_path, level_of, notification,
    notification_script, should_autoreclaim, state_dir, state_file, to_percentage, watch_tick,
    AutoReclaim, Level, ReclaimAction, ReclaimEvent, WatchState, AUTORECLAIM_MIN_INTERVAL_SECS,
    RENOTIFY_DROP, SOFT_RENOTIFY_SECS, URGENT_RENOTIFY_SECS,
};

const SECOND: i64 = 1_000_000_000;
const NOW: i64 = 1_700_000_000 * SECOND;
const GIB: u64 = 1024 * 1024 * 1024;

/// A percentage in billionths of the volume.
fn pct(x: f64) -> u64 {
    (x * 10_000_000.0).round() as u64
}

fn conf(x: f64) -> u32 {
    (x * 1_000_000.0).round() as u32
}

fn last(level: Level) -> WatchState {
    WatchState { last_level: Some(level), ..Default::default() }
}

#[test]
fn notify_on_entering_urgent() {
    assert!(decide_notify(&last(Level::Soft), Level::Urgent, pct(4.0), NOW));
}

#[test]
fn notify_renags_while_urgent_after_timer() {
    let prior = WatchState {
        last_notified_ts: Some(NOW - (URGENT_RENOTIFY_SECS + 1) * SECOND),
        last_notified_share: Some(pct(4.0)),
        ..last(Level::Urgent)
    };
    assert!(
        decide_notify(&prior, Level::Urgent, pct(3.9), NOW),
        "urgent must re-nag once the timer elapses, not go silent"
    );
}

#[test]
fn notify_quiet_while_urgent_within_timer_no_drop() {
    let prior = WatchState {
        last_notified_ts: Some(NOW - 60 * SECOND),
        last_notified_share: Some(pct(4.0)),
        ..last(Level::Urgent)
    };
    assert!(!decide_notify(&prior, Level::Urgent, pct(3.9), NOW));
}

#[test]
fn notify_on_fast_drop_within_timer() {
    let prior = WatchState {
        last_notified_ts: Some(NOW - 60 * SECOND),
        last_notified_share: Some(pct(4.0)),
        ..last(Level::Urgent)
    };
    assert_eq!(RENOTIFY_DROP, pct(0.5));
    assert!(decide_notify(&prior, Level::Urgent, pct(4.0) - RENOTIFY_DROP, NOW));
    assert!(!decide_notify(&prior, Level::Urgent, pct(4.0) - RENOTIFY_DROP + 1, NOW));
}

#[test]
fn notify_recovery_once_then_silent() {
    assert!(decide_notify(&last(Level::Urgent), Level::Healthy, pct(20.0), NOW));
    assert!(!decide_notify(&last(Level::Healthy), Level::Healthy, pct(20.0), NOW));
    assert!(!decide_notify(&WatchState::default(), Level::Healthy, pct(20.0), NOW));
}

#[test]
fn notify_soft_renags_on_timer() {
    let fresh = WatchState {
        last_notified_ts: Some(NOW - 60 * SECOND),
        last_notified_share: Some(pct(8.0)),
        ..last(Level::Soft)
    };
    assert!(!decide_notify(&fresh, Level::Soft, pct(8.0), NOW));
    let stale = WatchState {
        last_notified_ts: Some(NOW - (SOFT_RENOTIFY_SECS + 1) * SECOND),
        last_notified_share: Some(pct(8.0)),
        ..last(Level::Soft)
    };
    assert!(decide_notify(&stale, Level::Soft, pct(8.0), NOW));
}

#[test]
fn autoreclaim_off_by_default() {
    assert!(!should_autoreclaim(false, Level::Urgent, None, NOW));
}

#[test]
fn autoreclaim_only_when_urgent() {
    assert!(!should_autoreclaim(true, Level::Healthy, None, NOW));
    assert!(!should_autoreclaim(true, Level::Soft, None, NOW));
    assert!(should_autoreclaim(true, Level::Urgent, None, NOW));
}

#[test]
fn autoreclaim_rate_limited() {
    assert!(!should_autoreclaim(true, Level::Urgent, Some(NOW - 60 * SECOND), NOW));
    assert!(should_autoreclaim(
        true,
        Level::Urgent,
        Some(NOW - (AUTORECLAIM_MIN_INTERVAL_SECS + 1) * SECOND),
        NOW
    ));
}

#[test]
fn autoreclaim_safe_recovery_classes() {
    assert!(is_autoreclaim_safe(conf(0.90), Some("auto")));
    assert!(is_autoreclaim_safe(conf(0.85), Some("redownload")));
    assert!(is_autoreclaim_safe(conf(0.88), Some("rebuild")));
}

#[test]
fn autoreclaim_excludes_project_envs_and_low_confidence() {
    assert!(!is_autoreclaim_safe(conf(0.99), Some("recreate")));
    assert!(!is_autoreclaim_safe(conf(0.99), Some("manual")));
    assert!(!is_autoreclaim_safe(conf(0.99), Some("irreversible")));
    assert!(!is_autoreclaim_safe(conf(0.50), Some("auto")));
    assert!(!is_autoreclaim_safe(conf(0.99), None));
}

#[test]
fn levels_at_their_limits() {
    let level = |free: u64| level_of(free_share(free, 100_000));
    assert_eq!(level(4_999), Level::Urgent);
    assert_eq!(level(5_000), Level::Soft);
    assert_eq!(level(9_999), Level::Soft);
    assert_eq!(level(10_000), Level::Healthy);
    assert_eq!(level_of(free_share(0, 0)), Level::Healthy);
    assert_eq!(free_share(1, 3), 333_333_333);
    assert_eq!(free_share(u64::MAX, 1), u64::MAX);
}

#[test]
fn a_slide_keeps_alerting_and_a_steady_level_does_not() {
    let total = 100 * GIB;
    let mut state = WatchState::default();
    let mut told = Vec::new();
    for (i, free) in [20, 8, 8, 4, 4, 3, 3, 3, 3, 30, 30].iter().enumerate() {
        let now = NOW + i as i64 * 300 * SECOND;
        let tick = watch_tick(&state, free * GIB, total, true, now);
        state = tick.state;
        told.push(tick.notify);
    }
    assert_eq!(
        told,
        [false, true, false, true, false, true, false, false, true, true, false]
    );
    assert_eq!(state.last_level, Some(Level::Healthy));
    assert_eq!(state.last_free_bytes, Some(30 * GIB));
    assert_eq!(state.last_autoreclaim_ts, Some(NOW + 3 * 300 * SECOND));
}

fn candidate(id: &str, confidence: f64, recovery: Option<&str>, size: u64) -> Candidate {
    Candidate {
        id: id.into(),
        rule_id: "r".into(),
        path: format!("/x/{id}"),
        size_bytes: size,
        category: Category::AppCache,
        confidence: conf(confidence),
        reason: "x".into(),
        domain: None,
        modified: None,
        accessed: None,
        consequences: recovery.map(|r| Consequences {
            recovery: r.into(),
            rebuild_seconds: None,
            impact: "x".into(),
            recovery_cmd: None,
        }),
        consequence_contract: None,
        metrics: None,
        reference_url: None,
    }
}

#[test]
fn only_checked_and_harmless_candidates_go_unasked() {
    let all = vec![
        candidate("a", 0.9, Some("auto"), 10),
        candidate("b", 0.9, Some("recreate"), 20),
        candidate("c", 0.9, Some("rebuild"), 40),
        candidate("d", 0.9, None, 80),
        candidate("e", 0.9, Some("redownload"), 160),
        candidate("f", 0.9, Some("auto"), 320),
    ];
    assert_eq!(autoreclaim_picks(&all), [0, 2, 4, 5]);
    let mut run = AutoReclaim::begin(&all);
    loop {
        let event = match run.next_action() {
            ReclaimAction::Check(i) => ReclaimEvent::Checked(i != 2),
            ReclaimAction::Delete(i) => ReclaimEvent::Deleted(i != 4),
            ReclaimAction::Done => break,
        };
        run.step(event, &all);
    }
    assert_eq!(run.deleted, [0, 5]);
    assert_eq!(run.bytes_freed, 330);
    let receipt = autoreclaim_receipt(&all[0], NOW);
    assert_eq!(receipt.command, ActionKind::Reclaim);
    assert!(!receipt.reversible);
    assert_eq!(
        receipt.context,
        [
            ("auto".to_string(), "true".to_string()),
            ("trigger".to_string(), "watch-urgent".to_string())
        ]
    );
}

#[test]
fn a_deletion_without_a_check_does_not_count() {
    let all = vec![candidate("a", 0.9, Some("auto"), 10)];
    let mut run = AutoReclaim::begin(&all);
    run.step(ReclaimEvent::Deleted(true), &all);
    assert!(run.deleted.is_empty());
    assert_eq!(run.next_action(), ReclaimAction::Check(0));
}

#[test]
fn notifications_get_sharper() {
    let (title, body) = notification(Level::Urgent, pct(1.94), "2.1 GB");
    assert_eq!(title, "diskspace — disk CRITICALLY full");
    assert_eq!(body, "Only 1.9% free (2.1 GB). Run `diskspace doctor` to free space safely.");
    assert_eq!(notification(Level::Urgent, pct(2.0), "x").0, "diskspace — disk is full");
    let (title, body) = notification(Level::Soft, pct(7.25), "x");
    assert_eq!(title, "diskspace — disk getting low");
    assert_eq!(body, "7.2% free (x). Run `diskspace detect` to see what's cleanable.");
    let (title, body) = notification(Level::Healthy, pct(20.0), "x");
    assert_eq!(title, "diskspace — disk recovered");
    assert_eq!(body, "Back above the 10% target (20.0% free, x). Nothing to do.");
    assert_eq!(to_percentage(pct(9.96)), "10.0");
    assert_eq!(to_percentage(0), "0.0");
    assert_eq!(
        notification_script("a \"t\"", "b \"c\""),
        "display notification \"b 'c'\" with title \"a 't'\""
    );
}

#[test]
fn files_of_the_agent() {
    assert_eq!(
        launch_agent_plist_path("/Users/x"),
        "/Users/x/Library/LaunchAgents/com.tymrtn.diskspace.watch.plist"
    );
    assert_eq!(state_dir("/Users/x"), "/Users/x/.diskspace");
    assert_eq!(state_file("/Users/x"), "/Users/x/.diskspace/watch_state.json");
    let plist = launch_agent_plist("/bin/d", "/o.log", "/e.log");
    assert!(plist.starts_with("<?xml version=\"1.0\" encoding=\"UTF-8\"?>\n<!DOCTYPE plist"));
    assert!(plist.contains("<string>/bin/d</string>\n        <string>watch</string>\n        <string>run</string>"));
    assert!(plist.contains("<integer>300</integer>"));
    assert!(plist.contains("<key>StandardErrorPath</key>\n    <string>/e.log</string>"));
    assert!(plist.ends_with("</dict>\n</plist>\n"));
    assert!(agent_is_loaded("1\t0\tcom.apple.x\n-\t0\tcom.tymrtn.diskspace.watch\n"));
    assert!(!agent_is_loaded("1\t0\tcom.apple.x\n"));
}
