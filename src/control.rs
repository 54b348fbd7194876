//! The control loop's decisions: when the tuner and the balancer run, how
//! long to wait for a statistics query, how a query is answered, and how a
//! run of the scheduler ends.
use vstd::prelude::*;
use crate::load_balance::NodeStats;
use crate::stats::cluster_stats;
use crate::stats::delta_view;
use crate::stats::derived_from;
use crate::stats::ClusterStats;
use crate::stats::StatsCtx;
use crate::stats::NR_STATS;
use crate::tuner::Tuner;

verus! {

/// `a + b`, capped at `u64::MAX`.
pub open spec fn sat_add(a: int, b: int) -> int {
    if a + b <= u64::MAX { a + b } else { u64::MAX as int }
}

/// The deadline after `next` once it has passed at `now`: one interval on,
/// or one interval after `now` where the schedule has fallen behind.
pub open spec fn advance(next: int, interval: int, now: int) -> int {
    if sat_add(next, interval) < now {
        sat_add(now, interval)
    } else {
        sat_add(next, interval)
    }
}

/// The two deadlines of the loop, in nanoseconds of a monotonic clock.
#[derive(Clone, Copy, Debug, PartialEq, Eq)]
pub struct Schedule {
    pub tune_interval: u64,
    pub sched_interval: u64,
    pub next_tune_at: u64,
    pub next_sched_at: u64,
}

/// What one pass of the loop does: the phases to run, in the order tune then
/// balance, and the deadline for waiting on a query afterwards.
#[derive(Clone, Copy, Debug, PartialEq, Eq)]
pub struct Tick {
    pub run_tune: bool,
    pub run_balance: bool,
    pub wait_until: u64,
}

pub open spec fn tick_spec(s: Schedule, now: int) -> (Schedule, Tick) {
    let run_tune = now >= s.next_tune_at;
    let run_balance = now >= s.next_sched_at;
    let nt = if run_tune { advance(s.next_tune_at as int, s.tune_interval as int, now) } else { s.next_tune_at as int };
    let ns = if run_balance { advance(s.next_sched_at as int, s.sched_interval as int, now) } else { s.next_sched_at as int };
    (
        Schedule { next_tune_at: nt as u64, next_sched_at: ns as u64, ..s },
        Tick { run_tune, run_balance, wait_until: if nt <= ns { nt as u64 } else { ns as u64 } },
    )
}

fn sat_add_exec(a: u64, b: u64) -> (r: u64)
    ensures
        r == sat_add(a as int, b as int),
{
    if a > u64::MAX - b { u64::MAX } else { a + b }
}

fn advance_exec(next: u64, interval: u64, now: u64) -> (r: u64)
    ensures
        r == advance(next as int, interval as int, now as int),
{
    let n = sat_add_exec(next, interval);
    if n < now { sat_add_exec(now, interval) } else { n }
}

impl Schedule {
    /// Both deadlines one interval after `now`.
    pub fn new(now: u64, tune_interval: u64, sched_interval: u64) -> (r: Schedule)
        ensures
            r.tune_interval == tune_interval,
            r.sched_interval == sched_interval,
            r.next_tune_at == sat_add(now as int, tune_interval as int),
            r.next_sched_at == sat_add(now as int, sched_interval as int),
    {
        Schedule {
            tune_interval,
            sched_interval,
            next_tune_at: sat_add_exec(now, tune_interval),
            next_sched_at: sat_add_exec(now, sched_interval),
        }
    }

    /// One pass at time `now`: which phases are due, and the deadlines after
    /// them.
    pub fn tick(&mut self, now: u64) -> (r: Tick)
        ensures
            (*final(self), r) == tick_spec(*old(self), now as int),
    {
        let run_tune = now >= self.next_tune_at;
        let run_balance = now >= self.next_sched_at;
        if run_tune {
            self.next_tune_at = advance_exec(self.next_tune_at, self.tune_interval, now);
        }
        if run_balance {
            self.next_sched_at = advance_exec(self.next_sched_at, self.sched_interval, now);
        }
        let wait_until = if self.next_tune_at <= self.next_sched_at {
            self.next_tune_at
        } else {
            self.next_sched_at
        };
        Tick { run_tune, run_balance, wait_until }
    }
}

/// At exactly the tune deadline the pass runs the tune phase, and only then
/// waits for a query, until a deadline no earlier than now: a query that
/// arrives at that moment is answered after tuning.
pub proof fn lemma_tune_before_query(s: Schedule, now: int)
    requires
        s.next_tune_at == now,
        s.tune_interval > 0,
        s.sched_interval > 0,
        now + s.tune_interval <= u64::MAX,
    ensures
        tick_spec(s, now).1.run_tune,
        tick_spec(s, now).1.wait_until >= now,
        tick_spec(s, now).0.next_tune_at == now + s.tune_interval,
{
}

/// A deadline that has passed moves forward, never behind `now`.
pub proof fn lemma_deadline_advances(next: int, interval: int, now: int)
    requires
        0 <= next <= now <= u64::MAX,
        0 <= interval,
    ensures
        advance(next, interval, now) >= now,
        advance(next, interval, now) <= sat_add(now, interval),
{
}

/// Answers a statistics query: the current sample `cur` is handed back with
/// the snapshot of what happened since the caller's sample `prev`.
pub fn serve_query(
    cur: StatsCtx,
    prev: &StatsCtx,
    tuner: &Tuner,
    nodes: Vec<NodeStats>,
    at_us: u64,
    lb_at_us: u64,
) -> (r: (StatsCtx, ClusterStats))
    requires
        cur.bpf_stats@.len() == NR_STATS,
        prev.bpf_stats@.len() == NR_STATS,
    ensures
        r.0@ == cur@,
        derived_from(
            r.1,
            delta_view(cur@, prev@),
            at_us,
            lb_at_us,
            tuner.slice_ns,
            tuner.direct_greedy_mask.words@,
            tuner.kick_greedy_mask.words@,
            nodes@,
        ),
{
    let d = cur.delta(prev);
    assert(d.bpf_stats@.len() == d@.stats.len());
    let c = cluster_stats(
        &d,
        at_us,
        lb_at_us,
        tuner.slice_ns,
        tuner.direct_greedy_mask.words.clone(),
        tuner.kick_greedy_mask.words.clone(),
        nodes,
    );
    (cur, c)
}

/// The phases of one run of the scheduler.
#[derive(Clone, Copy, Debug, PartialEq, Eq)]
pub enum LoopState {
    Initializing,
    Running,
    Draining,
    Stopped,
    RestartRequested,
}

/// What the loop observes.
#[derive(Clone, Copy, Debug, PartialEq, Eq)]
pub enum LoopEvent {
    /// Startup finished and the policy is attached.
    Attached,
    /// Startup failed; nothing was attached.
    InitFailed,
    /// The shutdown flag was raised.
    Shutdown,
    /// The policy exited, asking for a restart or not.
    PolicyExited { restart: bool },
    /// The attachment was released.
    Released { restart: bool },
}

pub open spec fn next_state_spec(s: LoopState, e: LoopEvent) -> LoopState {
    match (s, e) {
        (LoopState::Initializing, LoopEvent::Attached) => LoopState::Running,
        (LoopState::Initializing, LoopEvent::InitFailed) => LoopState::Stopped,
        (LoopState::Running, LoopEvent::Shutdown) => LoopState::Draining,
        (LoopState::Running, LoopEvent::PolicyExited { .. }) => LoopState::Draining,
        (LoopState::Draining, LoopEvent::Released { restart }) => if restart {
            LoopState::RestartRequested
        } else {
            LoopState::Stopped
        },
        (LoopState::RestartRequested, _) => LoopState::Initializing,
        _ => s,
    }
}

/// The next phase after event `e` in phase `s`; events that do not apply to
/// a phase leave it as it is.
pub fn next_state(s: LoopState, e: LoopEvent) -> (r: LoopState)
    ensures
        r == next_state_spec(s, e),
{
    match (s, e) {
        (LoopState::Initializing, LoopEvent::Attached) => LoopState::Running,
        (LoopState::Initializing, LoopEvent::InitFailed) => LoopState::Stopped,
        (LoopState::Running, LoopEvent::Shutdown) => LoopState::Draining,
        (LoopState::Running, LoopEvent::PolicyExited { .. }) => LoopState::Draining,
        (LoopState::Draining, LoopEvent::Released { restart }) => if restart {
            LoopState::RestartRequested
        } else {
            LoopState::Stopped
        },
        (LoopState::RestartRequested, _) => LoopState::Initializing,
        _ => s,
    }
}

} // verus!
