use homeai::health::TaskStatus;
use homeai::restart::{RestartTracker, TaskExit, ALERT_WINDOW_MS};

#[test]
fn backoff_doubles_to_the_cap() {
    let mut t = RestartTracker::new();
    let mut delays = Vec::new();
    for i in 0..8u64 {
        let plan = t.on_exit(TaskExit::Panicked, i * 100_000).unwrap();
        delays.push(plan.delay_ms);
        assert_eq!(plan.restarts as u64, i + 1);
        assert!(!plan.alerting);
        assert_eq!(plan.status, TaskStatus::Restarting);
    }
    assert_eq!(delays, vec![100, 200, 400, 800, 1600, 2000, 2000, 2000]);
}

#[test]
fn crash_burst_raises_alert() {
    let mut t = RestartTracker::new();
    for i in 0..4u64 {
        let plan = t.on_exit(TaskExit::Failed, i).unwrap();
        assert!(!plan.alerting);
        assert_eq!(plan.in_window as u64, i + 1);
    }
    let plan = t.on_exit(TaskExit::Clean, ALERT_WINDOW_MS).unwrap();
    assert!(plan.alerting);
    assert_eq!(plan.status, TaskStatus::CrashLoop);
    assert_eq!(plan.in_window, 5);
    let back = RestartTracker::resumed(&plan);
    assert_eq!(back.status, TaskStatus::Running);
    assert!(back.alerting);
    assert_eq!(back.restarts, 5);
}

#[test]
fn cancellation_stops_without_counting() {
    let mut t = RestartTracker::new();
    assert!(t.on_exit(TaskExit::Cancelled, 5).is_none());
    assert_eq!(t.total_restarts(), 0);
    let start = RestartTracker::started();
    assert_eq!(start.status, TaskStatus::Running);
    assert_eq!(start.restarts, 0);
}

#[test]
fn old_crashes_leave_the_window() {
    let mut t = RestartTracker::new();
    for i in 0..4u64 {
        t.on_exit(TaskExit::Panicked, i).unwrap();
    }
    let plan = t.on_exit(TaskExit::Panicked, 3 + ALERT_WINDOW_MS + 1).unwrap();
    assert_eq!(plan.in_window, 1);
    assert!(!plan.alerting);
}
