//! The supervisor's restart policy: every exit of a supervised task except
//! a cancellation is a crash; crashes restart the task after an
//! exponentially growing delay, and a burst of crashes within the alert
//! window raises a health alert.

use vstd::prelude::*;

use crate::health::{TaskSnapshot, TaskStatus};

verus! {

/// Delay before the first restart (ms).
pub const INITIAL_BACKOFF_MS: u64 = 100;

/// Longest delay between restarts (ms).
pub const MAX_BACKOFF_MS: u64 = 2_000;

/// Crashes this recent (ms) count toward an alert.
pub const ALERT_WINDOW_MS: u64 = 60_000;

/// Crashes within the window that raise an alert.
pub const ALERT_BURST: u32 = 5;

/// How a supervised task ended.
#[derive(Debug, Clone, Copy, PartialEq, Eq, Structural)]
pub enum TaskExit {
    /// Returned `Ok(())`: a long-running task must not stop, so this is a crash.
    Clean,
    /// Returned an error.
    Failed,
    /// Panicked.
    Panicked,
    /// Was cancelled from outside.
    Cancelled,
}

/// What to do after a crash.
#[derive(Debug, Clone, Copy, PartialEq, Eq, Structural)]
pub struct RestartPlan {
    /// State to report while waiting to restart.
    pub status: TaskStatus,
    /// Restarts so far, this one included.
    pub restarts: u32,
    /// A crash loop is under way.
    pub alerting: bool,
    /// Crashes inside the alert window, this one included.
    pub in_window: u32,
    /// Wait this long (ms) before starting the task again.
    pub delay_ms: u64,
}

/// `now - t`, or 0 when `t` is later.
pub open spec fn age(now: u64, t: u64) -> int {
    if now >= t {
        now - t
    } else {
        0
    }
}

/// The crash times of `s` within the alert window at `now`, in order.
pub open spec fn recent_crashes(s: Seq<u64>, now: u64) -> Seq<u64>
    decreases s.len(),
{
    if s.len() == 0 {
        Seq::empty()
    } else if age(now, s.last()) <= ALERT_WINDOW_MS {
        recent_crashes(s.drop_last(), now).push(s.last())
    } else {
        recent_crashes(s.drop_last(), now)
    }
}

/// The delay after the current one.
pub open spec fn next_backoff(b: u64) -> u64 {
    if 2 * b <= MAX_BACKOFF_MS {
        (2 * b) as u64
    } else {
        MAX_BACKOFF_MS
    }
}

/// The delay before the `k+1`-th restart.
pub open spec fn backoff_after(k: nat) -> u64
    decreases k,
{
    if k == 0 {
        INITIAL_BACKOFF_MS
    } else {
        next_backoff(backoff_after((k - 1) as nat))
    }
}

/// Restart bookkeeping for one supervised task.
pub struct RestartTracker {
    backoff_ms: u64,
    crashes: Vec<u64>,
    total_restarts: u32,
}

/// The state a task reports when (re)started.
pub open spec fn running(restarts: u32, alerting: bool) -> TaskSnapshot {
    TaskSnapshot { status: TaskStatus::Running, restarts, alerting }
}

impl RestartTracker {
    #[verifier::type_invariant]
    closed spec fn inv(&self) -> bool {
        INITIAL_BACKOFF_MS <= self.backoff_ms <= MAX_BACKOFF_MS
    }

    /// Delay (ms) before the next restart.
    pub closed spec fn backoff(&self) -> u64 {
        self.backoff_ms
    }

    /// Recorded crash times (ms), oldest first.
    pub closed spec fn crashes(&self) -> Seq<u64> {
        self.crashes@
    }

    /// Restarts so far.
    pub closed spec fn restarts(&self) -> u32 {
        self.total_restarts
    }

    pub fn new() -> (r: Self)
        ensures
            r.backoff() == INITIAL_BACKOFF_MS,
            r.crashes() == Seq::<u64>::empty(),
            r.restarts() == 0,
    {
        RestartTracker { backoff_ms: INITIAL_BACKOFF_MS, crashes: Vec::new(), total_restarts: 0 }
    }

    /// The state to report before the first start.
    pub fn started() -> (r: TaskSnapshot)
        ensures
            r == running(0, false),
    {
        TaskSnapshot { status: TaskStatus::Running, restarts: 0, alerting: false }
    }

    /// Restarts so far.
    pub fn total_restarts(&self) -> (r: u32)
        ensures
            r == self.restarts(),
    {
        self.total_restarts
    }

    /// Decides what follows the task ending with `exit` at `now` (ms on a
    /// monotonic clock). A cancellation stops supervision (`None`); any
    /// other exit is a crash: it is counted, crashes older than the alert
    /// window are forgotten, and the task is restarted after the current
    /// delay, which then doubles up to the cap.
    pub fn on_exit(&mut self, exit: TaskExit, now: u64) -> (r: Option<RestartPlan>)
        requires
            exit != TaskExit::Cancelled ==> old(self).restarts() < u32::MAX,
        ensures
            exit == TaskExit::Cancelled ==> r is None && final(self).backoff() == old(self).backoff()
                && final(self).crashes() == old(self).crashes() && final(self).restarts() == old(
                self,
            ).restarts(),
            exit != TaskExit::Cancelled ==> ({
                let kept = recent_crashes(old(self).crashes().push(now), now);
                let alerting = (kept.len() as u32) >= ALERT_BURST;
                &&& r == Some(RestartPlan {
                    status: if alerting {
                        TaskStatus::CrashLoop
                    } else {
                        TaskStatus::Restarting
                    },
                    restarts: (old(self).restarts() + 1) as u32,
                    alerting,
                    in_window: kept.len() as u32,
                    delay_ms: old(self).backoff(),
                })
                &&& final(self).crashes() == kept
                &&& final(self).restarts() == old(self).restarts() + 1
                &&& final(self).backoff() == next_backoff(old(self).backoff())
            }),
            r matches Some(plan) ==> crash_step(*old(self), *final(self), plan, now),
    {
        proof {
            use_type_invariant(&*self);
        }
        if exit == TaskExit::Cancelled {
            return None;
        }
        let total = self.total_restarts + 1;
        let mut all: Vec<u64> = Vec::new();
        std::mem::swap(&mut all, &mut self.crashes);
        all.push(now);
        let ghost s = all@;
        let n = all.len();
        let mut kept: Vec<u64> = Vec::new();
        let mut i: usize = 0;
        while i < n
            invariant
                n == s.len(),
                all@ == s,
                i <= n,
                kept@ == recent_crashes(s.take(i as int), now),
            decreases n - i,
        {
            let t = all[i];
            let a: u64 = if now >= t {
                now - t
            } else {
                0
            };
            assert(s.take(i + 1).drop_last() =~= s.take(i as int));
            if a <= ALERT_WINDOW_MS {
                kept.push(t);
            }
            i = i + 1;
        }
        assert(s.take(n as int) =~= s);
        let in_window = #[verifier::truncate] (kept.len() as u32);
        let alerting = in_window >= ALERT_BURST;
        let status = if alerting {
            TaskStatus::CrashLoop
        } else {
            TaskStatus::Restarting
        };
        let delay = self.backoff_ms;
        let next = if 2 * self.backoff_ms <= MAX_BACKOFF_MS {
            2 * self.backoff_ms
        } else {
            MAX_BACKOFF_MS
        };
        self.crashes = kept;
        self.total_restarts = total;
        self.backoff_ms = next;
        Some(RestartPlan { status, restarts: total, alerting, in_window, delay_ms: delay })
    }

    /// The state to report once the task runs again after `plan`.
    pub fn resumed(plan: &RestartPlan) -> (r: TaskSnapshot)
        ensures
            r == running(plan.restarts, plan.alerting),
    {
        TaskSnapshot { status: TaskStatus::Running, restarts: plan.restarts, alerting: plan.alerting }
    }
}

/// Restart delays are 100, 200, 400, 800 and 1600 ms, then 2 s for every
/// later restart: the first restart comes well within 2 s and repeats back
/// off without exceeding the cap.
pub proof fn law_backoff_schedule(k: nat)
    ensures
        k == 0 ==> backoff_after(k) == 100,
        k == 1 ==> backoff_after(k) == 200,
        k == 2 ==> backoff_after(k) == 400,
        k == 3 ==> backoff_after(k) == 800,
        k == 4 ==> backoff_after(k) == 1600,
        k >= 5 ==> backoff_after(k) == MAX_BACKOFF_MS,
        INITIAL_BACKOFF_MS <= backoff_after(k) <= MAX_BACKOFF_MS,
    decreases k,
{
    reveal_with_fuel(backoff_after, 6);
    if k > 5 {
        law_backoff_schedule((k - 1) as nat);
    }
}

/// Crash times all inside the window are all kept.
pub proof fn lemma_recent_crashes_keep_window(s: Seq<u64>, now: u64)
    requires
        forall|i: int| 0 <= i < s.len() ==> age(now, #[trigger] s[i]) <= ALERT_WINDOW_MS,
    ensures
        recent_crashes(s, now) == s,
    decreases s.len(),
{
    if s.len() > 0 {
        lemma_recent_crashes_keep_window(s.drop_last(), now);
        assert(s.drop_last().push(s.last()) =~= s);
    }
}

/// Five crashes of a fresh task spanning no more than the alert window:
/// the first four only restart it, the fifth puts it in a crash loop and
/// raises the alert.
pub proof fn law_burst_raises_alert(t0: u64, t1: u64, t2: u64, t3: u64, t4: u64)
    requires
        t0 <= t1 <= t2 <= t3 <= t4,
        t4 - t0 <= ALERT_WINDOW_MS,
    ensures
        ({
            let c1 = recent_crashes(seq![t0], t0);
            let c2 = recent_crashes(c1.push(t1), t1);
            let c3 = recent_crashes(c2.push(t2), t2);
            let c4 = recent_crashes(c3.push(t3), t3);
            let c5 = recent_crashes(c4.push(t4), t4);
            &&& (c1.len() as u32) < ALERT_BURST
            &&& (c2.len() as u32) < ALERT_BURST
            &&& (c3.len() as u32) < ALERT_BURST
            &&& (c4.len() as u32) < ALERT_BURST
            &&& (c5.len() as u32) >= ALERT_BURST
        }),
{
    lemma_recent_crashes_keep_window(seq![t0], t0);
    lemma_recent_crashes_keep_window(seq![t0, t1], t1);
    assert(seq![t0].push(t1) =~= seq![t0, t1]);
    lemma_recent_crashes_keep_window(seq![t0, t1, t2], t2);
    assert(seq![t0, t1].push(t2) =~= seq![t0, t1, t2]);
    lemma_recent_crashes_keep_window(seq![t0, t1, t2, t3], t3);
    assert(seq![t0, t1, t2].push(t3) =~= seq![t0, t1, t2, t3]);
    lemma_recent_crashes_keep_window(seq![t0, t1, t2, t3, t4], t4);
    assert(seq![t0, t1, t2, t3].push(t4) =~= seq![t0, t1, t2, t3, t4]);
}

/// A crash more than the alert window after every earlier crash never
/// raises an alert: the window then holds that crash alone.
pub proof fn law_isolated_crash_does_not_alert(earlier: Seq<u64>, now: u64)
    requires
        forall|i: int| 0 <= i < earlier.len() ==> age(now, #[trigger] earlier[i]) > ALERT_WINDOW_MS,
    ensures
        recent_crashes(earlier.push(now), now) == seq![now],
    decreases earlier.len(),
{
    let s = earlier.push(now);
    assert(s.drop_last() =~= earlier);
    lemma_none_recent(earlier, now);
    assert(Seq::<u64>::empty().push(now) =~= seq![now]);
}

proof fn lemma_none_recent(s: Seq<u64>, now: u64)
    requires
        forall|i: int| 0 <= i < s.len() ==> age(now, #[trigger] s[i]) > ALERT_WINDOW_MS,
    ensures
        recent_crashes(s, now) == Seq::<u64>::empty(),
    decreases s.len(),
{
    if s.len() > 0 {
        lemma_none_recent(s.drop_last(), now);
    }
}

/// Forgetting old crashes at an earlier moment and again at a later one
/// forgets what forgetting once at the later moment does.
pub proof fn lemma_recent_crashes_twice(s: Seq<u64>, t1: u64, t2: u64)
    requires
        t1 <= t2,
    ensures
        recent_crashes(recent_crashes(s, t1), t2) == recent_crashes(s, t2),
    decreases s.len(),
{
    if s.len() > 0 {
        let x = s.last();
        let rest = s.drop_last();
        lemma_recent_crashes_twice(rest, t1, t2);
        if age(t1, x) <= ALERT_WINDOW_MS {
            assert(recent_crashes(rest, t1).push(x).drop_last() =~= recent_crashes(rest, t1));
        }
    }
}

/// `after` and `plan` are what `on_exit` gives for a crash of the task
/// tracked by `before` at `now`.
pub open spec fn crash_step(before: RestartTracker, after: RestartTracker, plan: RestartPlan, now: u64) -> bool {
    let kept = recent_crashes(before.crashes().push(now), now);
    let alerting = (kept.len() as u32) >= ALERT_BURST;
    &&& plan == RestartPlan {
        status: if alerting {
            TaskStatus::CrashLoop
        } else {
            TaskStatus::Restarting
        },
        restarts: (before.restarts() + 1) as u32,
        alerting,
        in_window: kept.len() as u32,
        delay_ms: before.backoff(),
    }
    &&& after.crashes() == kept
    &&& after.restarts() == before.restarts() + 1
    &&& after.backoff() == next_backoff(before.backoff())
}

/// What a fresh tracker reports over successive crashes at non-decreasing
/// times `ts`: `rs[i + 1]` is the tracker after the crash at `ts[i]` and
/// `plans[i]` what `on_exit` answered for it. After the `k`-th crash the
/// restart count is `k`, the crashes held are exactly those inside the
/// alert window ending then, the task is in a crash loop and alerting
/// exactly when they number at least the burst, and the restart waits
/// `backoff_after(k - 1)`: 100 ms doubling up to the 2 s cap.
pub proof fn law_crash_sequence(ts: Seq<u64>, rs: Seq<RestartTracker>, plans: Seq<RestartPlan>)
    requires
        rs.len() == ts.len() + 1,
        plans.len() == ts.len(),
        rs[0].crashes() == Seq::<u64>::empty(),
        rs[0].restarts() == 0,
        rs[0].backoff() == INITIAL_BACKOFF_MS,
        forall|i: int, j: int| 0 <= i <= j < ts.len() ==> ts[i] <= ts[j],
        forall|i: int| 0 <= i < ts.len() ==> #[trigger] crash_step(rs[i], rs[i + 1], plans[i], ts[i]),
    ensures
        forall|i: int| 0 <= i < ts.len() ==> (#[trigger] rs[i + 1]).crashes() == recent_crashes(ts.take(i + 1), ts[i]),
        forall|i: int| 0 <= i < ts.len() ==> (#[trigger] plans[i]).restarts == i + 1 && plans[i].delay_ms == backoff_after(
            i as nat,
        ) && plans[i].in_window == (recent_crashes(ts.take(i + 1), ts[i]).len() as u32) && plans[i].alerting == (
        plans[i].in_window >= ALERT_BURST) && plans[i].status == if plans[i].alerting {
            TaskStatus::CrashLoop
        } else {
            TaskStatus::Restarting
        },
    decreases ts.len(),
{
    if ts.len() > 0 {
        let k = ts.len() - 1;
        let ts0 = ts.drop_last();
        let rs0 = rs.drop_last();
        let ps0 = plans.drop_last();
        assert forall|i: int| 0 <= i < ts0.len() implies #[trigger] crash_step(rs0[i], rs0[i + 1], ps0[i], ts0[i]) by {
            assert(crash_step(rs[i], rs[i + 1], plans[i], ts[i]));
        }
        law_crash_sequence(ts0, rs0, ps0);
        assert forall|i: int| 0 <= i < ts.len() implies #[trigger] rs[i + 1].restarts() == rs[i].restarts() + 1
            && rs[i + 1].backoff() == next_backoff(rs[i].backoff()) by {
            assert(crash_step(rs[i], rs[i + 1], plans[i], ts[i]));
        }
        lemma_tracker_counts(ts, rs);
        assert forall|i: int| 0 <= i < ts.len() implies (#[trigger] rs[i + 1]).crashes() == recent_crashes(ts.take(i + 1), ts[i]) by {
            assert(crash_step(rs[i], rs[i + 1], plans[i], ts[i]));
            assert(age(ts[i], ts[i]) == 0);
            if i < k {
                assert(ts0.take(i + 1) =~= ts.take(i + 1));
                assert(rs0[i + 1] == rs[i + 1]);
            } else if i == 0 {
                assert(rs[0].crashes().push(ts[0]) =~= ts.take(1));
            } else {
                let j = i - 1;
                assert(rs0[j + 1] == rs[i]);
                assert(ts0.take(j + 1) =~= ts.take(i));
                assert(rs[i].crashes() == recent_crashes(ts.take(i), ts[j]));
                lemma_recent_crashes_twice(ts.take(i), ts[j], ts[i]);
                assert(ts.take(i + 1).drop_last() =~= ts.take(i));
                assert(rs[i].crashes().push(ts[i]).drop_last() =~= rs[i].crashes());
            }
        }
        assert forall|i: int| 0 <= i < ts.len() implies (#[trigger] plans[i]).restarts == i + 1 && plans[i].delay_ms
            == backoff_after(i as nat) && plans[i].in_window == (recent_crashes(ts.take(i + 1), ts[i]).len() as u32)
            && plans[i].alerting == (plans[i].in_window >= ALERT_BURST) && plans[i].status == if plans[i].alerting {
            TaskStatus::CrashLoop
        } else {
            TaskStatus::Restarting
        } by {
            assert(crash_step(rs[i], rs[i + 1], plans[i], ts[i]));
            assert(rs[i + 1].crashes() == recent_crashes(ts.take(i + 1), ts[i]));
        }
    }
}

/// Restart counts and delays of a fresh tracker after `i` crashes.
proof fn lemma_tracker_counts(ts: Seq<u64>, rs: Seq<RestartTracker>)
    requires
        rs.len() == ts.len() + 1,
        rs[0].restarts() == 0,
        rs[0].backoff() == INITIAL_BACKOFF_MS,
        forall|i: int| 0 <= i < ts.len() ==> #[trigger] rs[i + 1].restarts() == rs[i].restarts() + 1
            && rs[i + 1].backoff() == next_backoff(rs[i].backoff()),
    ensures
        forall|i: int| 0 <= i < rs.len() ==> #[trigger] rs[i].restarts() == i && rs[i].backoff() == backoff_after(i as nat),
    decreases ts.len(),
{
    if ts.len() > 0 {
        let k = ts.len() - 1;
        assert forall|i: int| 0 <= i < ts.len() - 1 implies #[trigger] rs.drop_last()[i + 1].restarts() == rs.drop_last()[i].restarts() + 1
            && rs.drop_last()[i + 1].backoff() == next_backoff(rs.drop_last()[i].backoff()) by {
            assert(rs[i + 1].restarts() == rs[i].restarts() + 1);
        }
        lemma_tracker_counts(ts.drop_last(), rs.drop_last());
        assert forall|i: int| 0 <= i < rs.len() implies #[trigger] rs[i].restarts() == i && rs[i].backoff() == backoff_after(i as nat) by {
            if i < rs.len() - 1 {
                assert(rs.drop_last()[i] == rs[i]);
            } else {
                assert(rs.drop_last()[k] == rs[k]);
                assert(rs[k + 1].restarts() == rs[k].restarts() + 1);
            }
        }
    }
}

} // verus!
