use homeai::health::{HealthState, TaskSnapshot, TaskStatus};

fn snap(status: TaskStatus, restarts: u32, alerting: bool) -> TaskSnapshot {
    TaskSnapshot { status, restarts, alerting }
}

#[test]
fn empty_health_is_ok() {
    let h = HealthState::new();
    let s = h.snapshot();
    assert_eq!(s.status, "ok");
    assert_eq!(s.tasks.len(), 0);
}

#[test]
fn crash_loop_makes_health_degraded() {
    let mut h = HealthState::new();
    h.set_task("api", snap(TaskStatus::Running, 0, false));
    assert_eq!(h.snapshot().status, "ok");
    h.set_task("loop", snap(TaskStatus::CrashLoop, 5, true));
    let s = h.snapshot();
    assert_eq!(s.status, "degraded");
    assert_eq!(s.tasks.len(), 2);
    let (name, t) = s.tasks.entry(1);
    assert_eq!(name, "loop");
    assert_eq!(t.restarts, 5);
    assert_eq!(s.tasks.get("api").unwrap().status, TaskStatus::Running);
}

#[test]
fn alerting_running_task_is_degraded_and_replaced_state_counts() {
    let mut h = HealthState::new();
    h.set_task("b", snap(TaskStatus::Running, 6, true));
    assert_eq!(h.snapshot().status, "degraded");
    h.set_task("b", snap(TaskStatus::Running, 6, false));
    let s = h.snapshot();
    assert_eq!(s.status, "ok");
    assert_eq!(s.tasks.len(), 1);
}

#[test]
fn uptime_counts_whole_seconds() {
    let mut h = HealthState::new();
    h.set_task("api", snap(TaskStatus::Running, 0, false));
    let s = h.snapshot_at(2_999_999_999);
    assert_eq!(s.uptime_s, 2);
    assert_eq!(s.status, "ok");
    assert_eq!(h.snapshot_at(0).uptime_s, 0);
}
