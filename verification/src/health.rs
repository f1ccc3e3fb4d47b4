//! Health of the supervised tasks and of the core as a whole.

use std::time::Instant;

use vstd::prelude::*;

use crate::clock::{elapsed_nanos, instant_now};
use crate::sorted_map::SortedMap;

verus! {

#[derive(Debug, Clone, Copy, PartialEq, Eq, Structural)]
pub enum TaskStatus {
    Running,
    Restarting,
    CrashLoop,
}

/// The last reported state of one task.
#[derive(Debug, Clone, Copy, PartialEq, Eq, Structural)]
pub struct TaskSnapshot {
    pub status: TaskStatus,
    pub restarts: u32,
    pub alerting: bool,
}

impl View for TaskSnapshot {
    type V = TaskSnapshot;

    open spec fn view(&self) -> TaskSnapshot {
        *self
    }
}

/// A task that needs attention.
pub open spec fn troubled(t: TaskSnapshot) -> bool {
    t.alerting || t.status == TaskStatus::CrashLoop
}

/// Some task needs attention.
pub open spec fn degraded(tasks: Map<Seq<char>, TaskSnapshot>) -> bool {
    exists|k: Seq<char>| #[trigger] tasks.contains_key(k) && troubled(tasks[k])
}

pub open spec fn status_text(tasks: Map<Seq<char>, TaskSnapshot>) -> Seq<char> {
    if degraded(tasks) {
        "degraded"@
    } else {
        "ok"@
    }
}

/// Health at one moment.
pub struct HealthSnapshot {
    /// `"ok"`, or `"degraded"` when some task needs attention.
    pub status: &'static str,
    pub uptime_s: u64,
    /// Every task by name, in name order.
    pub tasks: SortedMap<TaskSnapshot>,
}

/// Health of the running core: when it started and each task's last state.
pub struct HealthState {
    started: Instant,
    tasks: SortedMap<TaskSnapshot>,
}

impl HealthState {
    #[verifier::type_invariant]
    closed spec fn inv(&self) -> bool {
        self.tasks.wf()
    }

    /// Each task's last reported state, by name.
    pub closed spec fn tasks(&self) -> Map<Seq<char>, TaskSnapshot> {
        self.tasks.map()
    }

    pub fn new() -> (r: Self)
        ensures
            r.tasks() == Map::<Seq<char>, TaskSnapshot>::empty(),
    {
        HealthState { started: instant_now(), tasks: SortedMap::new() }
    }

    /// Records the state of task `name`.
    pub fn set_task(&mut self, name: &str, snap: TaskSnapshot)
        ensures
            final(self).tasks() == old(self).tasks().insert(name@, snap),
    {
        proof {
            use_type_invariant(&*self);
        }
        let mut tasks = SortedMap::new();
        std::mem::swap(&mut tasks, &mut self.tasks);
        tasks.insert(String::from_str(name), snap);
        self.tasks = tasks;
    }

    /// The current health: every task's state, `"degraded"` exactly when
    /// some task is alerting or in a crash loop, and the whole seconds the
    /// monotonic clock has run since the state was made.
    pub fn snapshot(&self) -> (r: HealthSnapshot)
        ensures
            r.tasks.wf(),
            r.tasks.map() == self.tasks(),
            r.status@ == status_text(self.tasks()),
    {
        let elapsed = elapsed_nanos(&self.started);
        self.snapshot_at(elapsed)
    }

    /// The health once `elapsed_ns` nanoseconds have passed since the state
    /// was made: every task's state, `"degraded"` exactly when some task is
    /// alerting or in a crash loop, and the uptime in whole seconds.
    pub fn snapshot_at(&self, elapsed_ns: u64) -> (r: HealthSnapshot)
        ensures
            r.tasks.wf(),
            r.tasks.map() == self.tasks(),
            r.status@ == status_text(self.tasks()),
            r.uptime_s == elapsed_ns / 1_000_000_000,
    {
        proof {
            use_type_invariant(self);
        }
        let tasks = self.tasks.copied();
        let n = tasks.len();
        let mut bad = false;
        let mut i: usize = 0;
        proof {
            tasks.lemma_keys();
        }
        while i < n
            invariant
                n == tasks.size(),
                i <= n,
                tasks.wf(),
                bad == exists|j: int| 0 <= j < i && troubled(#[trigger] tasks.val_at(j)),
            decreases n - i,
        {
            let (_name, t) = tasks.entry(i);
            if t.alerting || t.status == TaskStatus::CrashLoop {
                bad = true;
            }
            i = i + 1;
        }
        proof {
            tasks.lemma_keys();
            if bad {
                let j = choose|j: int| 0 <= j < n && troubled(#[trigger] tasks.val_at(j));
                assert(tasks.map().contains_key(tasks.key_at(j)));
            }
            if degraded(tasks.map()) {
                let k = choose|k: Seq<char>| #[trigger] tasks.map().contains_key(k) && troubled(tasks.map()[k]);
                let j = choose|j: int| 0 <= j < tasks.size() && #[trigger] tasks.key_at(j) == k;
                assert(troubled(tasks.val_at(j)));
            }
        }
        let status = if bad {
            "degraded"
        } else {
            "ok"
        };
        HealthSnapshot { status, uptime_s: elapsed_ns / 1_000_000_000, tasks }
    }
}

/// A task reported in a crash loop makes the whole core report degraded,
/// whatever the other tasks report.
pub proof fn law_crash_loop_degrades_health(
    tasks: Map<Seq<char>, TaskSnapshot>,
    name: Seq<char>,
    snap: TaskSnapshot,
)
    requires
        troubled(snap),
    ensures
        status_text(tasks.insert(name, snap)) == "degraded"@,
{
    assert(tasks.insert(name, snap).contains_key(name));
}

/// With every task running normally and not alerting, the core reports ok.
pub proof fn law_calm_tasks_report_ok(tasks: Map<Seq<char>, TaskSnapshot>)
    requires
        forall|k: Seq<char>| #[trigger] tasks.contains_key(k) ==> !troubled(tasks[k]),
    ensures
        status_text(tasks) == "ok"@,
{
}

} // verus!
