//! Counter samples, their deltas and the derived cluster snapshot.
use vstd::prelude::*;
use crate::load_balance::NodeStats;

verus! {

/// Number of per-event counters kept by the policy.
pub const NR_STATS: usize = 17;

// Placement-path counters: together with kick-greedy, repatriate and the
// two deadline counters they make up the placement total.
pub const STAT_WAKE_SYNC: usize = 0;
pub const STAT_SYNC_PREV_IDLE: usize = 1;
pub const STAT_PREV_IDLE: usize = 2;
pub const STAT_GREEDY_IDLE: usize = 3;
pub const STAT_PINNED: usize = 4;
pub const STAT_DIRECT_DISPATCH: usize = 5;
pub const STAT_DIRECT_GREEDY: usize = 6;
pub const STAT_DIRECT_GREEDY_FAR: usize = 7;
pub const STAT_DSQ_DISPATCH: usize = 8;
pub const STAT_GREEDY_LOCAL: usize = 9;
pub const STAT_GREEDY_XNUMA: usize = 10;
pub const STAT_REPATRIATE: usize = 11;
pub const STAT_KICK_GREEDY: usize = 12;
// Counters outside the placement total: migrations and lookup errors.
pub const STAT_LOAD_BALANCE: usize = 13;
pub const STAT_TASK_GET_ERR: usize = 14;
// Deadline counters, part of the placement total.
pub const STAT_DL_CLAMP: usize = 15;
pub const STAT_DL_PRESET: usize = 16;

/// `a - b`, or zero where `b` is larger.
pub open spec fn sat_sub(a: int, b: int) -> int {
    if a >= b { a - b } else { 0 }
}

/// Difference of two cumulative counters, clamped at zero.
pub fn sub_or_zero(curr: &u64, prev: &u64) -> (r: u64)
    ensures
        r == sat_sub(*curr as int, *prev as int),
{
    if *curr >= *prev {
        *curr - *prev
    } else {
        0
    }
}

/// Host CPU time accounting as read from the system, field by field.
#[derive(Clone, Copy, Debug, PartialEq, Eq)]
pub struct CpuTimes {
    pub user_usec: Option<u64>,
    pub nice_usec: Option<u64>,
    pub system_usec: Option<u64>,
    pub idle_usec: Option<u64>,
    pub iowait_usec: Option<u64>,
    pub irq_usec: Option<u64>,
    pub softirq_usec: Option<u64>,
    pub stolen_usec: Option<u64>,
}

/// Failure to derive busy and total CPU time.
#[derive(Clone, Copy, Debug, PartialEq, Eq)]
pub enum AccountingError {
    /// The system reported no aggregate CPU line.
    MissingTotal,
    /// One of the required time fields is absent.
    MissingField,
    /// The busy or total time does not fit in 64 bits.
    Overflow,
}

pub open spec fn all_fields_present(t: CpuTimes) -> bool {
    &&& t.user_usec.is_some()
    &&& t.nice_usec.is_some()
    &&& t.system_usec.is_some()
    &&& t.idle_usec.is_some()
    &&& t.iowait_usec.is_some()
    &&& t.irq_usec.is_some()
    &&& t.softirq_usec.is_some()
    &&& t.stolen_usec.is_some()
}

/// Busy time: user, nice, system, irq, softirq and stolen time.
pub open spec fn busy_of(t: CpuTimes) -> int {
    t.user_usec.unwrap() + t.nice_usec.unwrap() + t.system_usec.unwrap() + t.irq_usec.unwrap()
        + t.softirq_usec.unwrap() + t.stolen_usec.unwrap()
}

/// Total time: busy time plus idle and iowait time.
pub open spec fn total_of(t: CpuTimes) -> int {
    busy_of(t) + t.idle_usec.unwrap() + t.iowait_usec.unwrap()
}

fn checked_add(a: u64, b: u64) -> (r: Result<u64, AccountingError>)
    ensures
        a + b <= u64::MAX ==> r == Ok::<u64, AccountingError>((a + b) as u64),
        a + b > u64::MAX ==> r == Err::<u64, AccountingError>(AccountingError::Overflow),
{
    if a <= u64::MAX - b {
        Ok(a + b)
    } else {
        Err(AccountingError::Overflow)
    }
}

/// Busy and total CPU time from the system's aggregate CPU line.
pub fn cpu_busy_and_total(stat: Option<CpuTimes>) -> (r: Result<(u64, u64), AccountingError>)
    ensures
        stat.is_none() ==> r == Err::<(u64, u64), AccountingError>(AccountingError::MissingTotal),
        stat.is_some() && !all_fields_present(stat.unwrap()) ==> r == Err::<
            (u64, u64),
            AccountingError,
        >(AccountingError::MissingField),
        stat.is_some() && all_fields_present(stat.unwrap()) ==> {
            let t = stat.unwrap();
            if total_of(t) <= u64::MAX {
                r == Ok::<(u64, u64), AccountingError>((busy_of(t) as u64, total_of(t) as u64))
            } else {
                r == Err::<(u64, u64), AccountingError>(AccountingError::Overflow)
            }
        },
{
    let t = match stat {
        None => return Err(AccountingError::MissingTotal),
        Some(t) => t,
    };
    match (
        t.user_usec,
        t.nice_usec,
        t.system_usec,
        t.idle_usec,
        t.iowait_usec,
        t.irq_usec,
        t.softirq_usec,
        t.stolen_usec,
    ) {
        (
            Some(user),
            Some(nice),
            Some(system),
            Some(idle),
            Some(iowait),
            Some(irq),
            Some(softirq),
            Some(stolen),
        ) => {
            let mut busy = checked_add(user, system)?;
            busy = checked_add(busy, nice)?;
            busy = checked_add(busy, irq)?;
            busy = checked_add(busy, softirq)?;
            busy = checked_add(busy, stolen)?;
            let mut total = checked_add(busy, idle)?;
            total = checked_add(total, iowait)?;
            Ok((busy, total))
        },
        _ => Err(AccountingError::MissingField),
    }
}


/// Sum of the first `n` values.
pub open spec fn sum_prefix(v: Seq<u64>, n: int) -> int
    decreases n,
{
    if n <= 0 {
        0
    } else {
        sum_prefix(v, n - 1) + v[n - 1]
    }
}

pub open spec fn seq_sum(v: Seq<u64>) -> int {
    sum_prefix(v, v.len() as int)
}

proof fn lemma_sum_prefix_mono(v: Seq<u64>, i: int, j: int)
    requires
        0 <= i <= j <= v.len(),
    ensures
        sum_prefix(v, i) <= sum_prefix(v, j),
    decreases j - i,
{
    if i < j {
        lemma_sum_prefix_mono(v, i, j - 1);
    }
}

/// Sum of one counter over all CPUs; `None` where it does not fit in 64 bits.
pub fn sum_percpu(vals: &Vec<u64>) -> (r: Option<u64>)
    ensures
        seq_sum(vals@) <= u64::MAX ==> r == Some(seq_sum(vals@) as u64),
        seq_sum(vals@) > u64::MAX ==> r.is_none(),
{
    let mut sum: u64 = 0;
    let mut i: usize = 0;
    while i < vals.len()
        invariant
            i <= vals.len(),
            sum == sum_prefix(vals@, i as int),
        decreases vals.len() - i,
    {
        if sum > u64::MAX - vals[i] {
            proof {
                lemma_sum_prefix_mono(vals@, i + 1, vals@.len() as int);
            }
            return None;
        }
        sum = sum + vals[i];
        i = i + 1;
    }
    Some(sum)
}

/// A sample of cumulative counters: host busy and total CPU time, the
/// policy's counters summed over CPUs, and the control plane's own time.
#[derive(Clone, Debug)]
pub struct StatsCtx {
    pub cpu_busy: u64,
    pub cpu_total: u64,
    pub bpf_stats: Vec<u64>,
    pub time_used_ns: u64,
}

/// The mathematical content of a sample.
pub struct SampleView {
    pub cpu_busy: int,
    pub cpu_total: int,
    pub stats: Seq<int>,
    pub time_used: int,
}

impl View for StatsCtx {
    type V = SampleView;

    open spec fn view(&self) -> SampleView {
        SampleView {
            cpu_busy: self.cpu_busy as int,
            cpu_total: self.cpu_total as int,
            stats: self.bpf_stats@.map_values(|x: u64| x as int),
            time_used: self.time_used_ns as int,
        }
    }
}

/// Component-wise difference of two samples, each clamped at zero; the
/// counter vectors are paired up to the shorter one.
pub open spec fn delta_view(a: SampleView, b: SampleView) -> SampleView {
    SampleView {
        cpu_busy: sat_sub(a.cpu_busy, b.cpu_busy),
        cpu_total: sat_sub(a.cpu_total, b.cpu_total),
        stats: Seq::new(
            if a.stats.len() <= b.stats.len() { a.stats.len() } else { b.stats.len() },
            |i: int| sat_sub(a.stats[i], b.stats[i]),
        ),
        time_used: sat_sub(a.time_used, b.time_used),
    }
}

/// Every component of `a` is at least the matching one of `b`.
pub open spec fn dominates(a: SampleView, b: SampleView) -> bool {
    &&& a.stats.len() == b.stats.len()
    &&& a.cpu_busy >= b.cpu_busy
    &&& a.cpu_total >= b.cpu_total
    &&& a.time_used >= b.time_used
    &&& forall|i: int| 0 <= i < a.stats.len() ==> a.stats[i] >= b.stats[i]
}

impl StatsCtx {
    /// The all-zero sample against which the first query is answered.
    pub fn blank() -> (r: Self)
        ensures
            r@.cpu_busy == 0,
            r@.cpu_total == 0,
            r@.time_used == 0,
            r@.stats =~= Seq::new(NR_STATS as nat, |i: int| 0int),
    {
        StatsCtx { cpu_busy: 0, cpu_total: 0, bpf_stats: vec![0u64; NR_STATS], time_used_ns: 0 }
    }

    /// A sample of the given readings.
    pub fn new(cpu_busy: u64, cpu_total: u64, bpf_stats: Vec<u64>, time_used_ns: u64) -> (r: Self)
        ensures
            r.cpu_busy == cpu_busy,
            r.cpu_total == cpu_total,
            r.bpf_stats@ == bpf_stats@,
            r.time_used_ns == time_used_ns,
    {
        StatsCtx { cpu_busy, cpu_total, bpf_stats, time_used_ns }
    }

    /// What happened between `rhs` and `self`, never negative.
    pub fn delta(&self, rhs: &Self) -> (r: Self)
        ensures
            r@ == delta_view(self@, rhs@),
    {
        let n: usize = if self.bpf_stats.len() <= rhs.bpf_stats.len() {
            self.bpf_stats.len()
        } else {
            rhs.bpf_stats.len()
        };
        let mut stats: Vec<u64> = Vec::new();
        let mut i: usize = 0;
        while i < n
            invariant
                n <= self.bpf_stats.len(),
                n <= rhs.bpf_stats.len(),
                i <= n,
                stats@.len() == i,
                forall|j: int|
                    0 <= j < i ==> stats@[j] == sat_sub(
                        self.bpf_stats@[j] as int,
                        rhs.bpf_stats@[j] as int,
                    ),
            decreases n - i,
        {
            stats.push(sub_or_zero(&self.bpf_stats[i], &rhs.bpf_stats[i]));
            i = i + 1;
        }
        let r = StatsCtx {
            cpu_busy: sub_or_zero(&self.cpu_busy, &rhs.cpu_busy),
            cpu_total: sub_or_zero(&self.cpu_total, &rhs.cpu_total),
            bpf_stats: stats,
            time_used_ns: sub_or_zero(&self.time_used_ns, &rhs.time_used_ns),
        };
        assert(r@.stats =~= delta_view(self@, rhs@).stats);
        r
    }
}

/// Between samples whose counters never went backwards, the delta is plain
/// subtraction; a counter that went backwards (a reset) contributes zero.
pub proof fn lemma_delta_subtracts(a: SampleView, b: SampleView)
    requires
        a.stats.len() == b.stats.len(),
    ensures
        dominates(a, b) ==> delta_view(a, b) == (SampleView {
            cpu_busy: a.cpu_busy - b.cpu_busy,
            cpu_total: a.cpu_total - b.cpu_total,
            stats: Seq::new(a.stats.len(), |i: int| a.stats[i] - b.stats[i]),
            time_used: a.time_used - b.time_used,
        }),
        forall|i: int|
            0 <= i < a.stats.len() && a.stats[i] < b.stats[i] ==> delta_view(a, b).stats[i] == 0,
        forall|i: int| 0 <= i < a.stats.len() ==> delta_view(a, b).stats[i] >= 0,
        a.cpu_busy < b.cpu_busy ==> delta_view(a, b).cpu_busy == 0,
        a.cpu_total < b.cpu_total ==> delta_view(a, b).cpu_total == 0,
        a.time_used < b.time_used ==> delta_view(a, b).time_used == 0,
{
    if dominates(a, b) {
        assert(delta_view(a, b).stats =~= Seq::new(a.stats.len(), |i: int| a.stats[i] - b.stats[i]));
    }
}


/// Basis points (hundredths of a percent) of `x` in `total`; zero when
/// `total` is zero.
pub open spec fn pct_bp(x: int, total: int) -> int {
    if total == 0 {
        0
    } else {
        x * 10000 / total
    }
}

fn pct_of(x: u64, total: u128) -> (r: u128)
    ensures
        r == pct_bp(x as int, total as int),
{
    if total == 0 {
        0
    } else {
        (x as u128) * 10000 / total
    }
}

/// Sum of the counters that make up all task placements.
pub open spec fn placement_total(s: Seq<int>) -> int {
    s[STAT_WAKE_SYNC as int] + s[STAT_SYNC_PREV_IDLE as int] + s[STAT_PREV_IDLE as int]
        + s[STAT_GREEDY_IDLE as int] + s[STAT_PINNED as int] + s[STAT_DIRECT_DISPATCH as int]
        + s[STAT_DIRECT_GREEDY as int] + s[STAT_DIRECT_GREEDY_FAR as int]
        + s[STAT_DSQ_DISPATCH as int] + s[STAT_GREEDY_LOCAL as int] + s[STAT_GREEDY_XNUMA as int]
        + s[STAT_KICK_GREEDY as int] + s[STAT_REPATRIATE as int] + s[STAT_DL_CLAMP as int]
        + s[STAT_DL_PRESET as int]
}

/// A snapshot for one statistics query. Percentages are in basis points.
#[derive(Clone, Debug)]
pub struct ClusterStats {
    pub at_us: u64,
    pub lb_at_us: u64,
    pub total: u128,
    pub slice_us: u64,
    pub cpu_busy: u128,
    pub load: u128,
    pub nr_migrations: u64,
    pub task_get_err: u64,
    pub time_used_ns: u64,
    pub sync_prev_idle: u128,
    pub wake_sync: u128,
    pub prev_idle: u128,
    pub greedy_idle: u128,
    pub pinned: u128,
    pub direct: u128,
    pub greedy: u128,
    pub greedy_far: u128,
    pub dsq_dispatch: u128,
    pub greedy_local: u128,
    pub greedy_xnuma: u128,
    pub kick_greedy: u128,
    pub repatriate: u128,
    pub dl_clamp: u128,
    pub dl_preset: u128,
    pub direct_greedy_cpus: Vec<u64>,
    pub kick_greedy_cpus: Vec<u64>,
    pub nodes: Vec<NodeStats>,
}

/// Every percentage field of the snapshot.
pub open spec fn pct_fields(c: ClusterStats) -> Seq<u128> {
    seq![
        c.sync_prev_idle,
        c.wake_sync,
        c.prev_idle,
        c.greedy_idle,
        c.pinned,
        c.direct,
        c.greedy,
        c.greedy_far,
        c.dsq_dispatch,
        c.greedy_local,
        c.greedy_xnuma,
        c.kick_greedy,
        c.repatriate,
        c.dl_clamp,
        c.dl_preset,
    ]
}

/// The counter behind each entry of `pct_fields`.
pub open spec fn pct_sources() -> Seq<int> {
    seq![
        STAT_SYNC_PREV_IDLE as int,
        STAT_WAKE_SYNC as int,
        STAT_PREV_IDLE as int,
        STAT_GREEDY_IDLE as int,
        STAT_PINNED as int,
        STAT_DIRECT_DISPATCH as int,
        STAT_DIRECT_GREEDY as int,
        STAT_DIRECT_GREEDY_FAR as int,
        STAT_DSQ_DISPATCH as int,
        STAT_GREEDY_LOCAL as int,
        STAT_GREEDY_XNUMA as int,
        STAT_KICK_GREEDY as int,
        STAT_REPATRIATE as int,
        STAT_DL_CLAMP as int,
        STAT_DL_PRESET as int,
    ]
}

/// The snapshot that `cluster_stats` derives from a delta `d` and the
/// tuning and balancing state handed to it.
pub open spec fn derived_from(
    c: ClusterStats,
    d: SampleView,
    at_us: u64,
    lb_at_us: u64,
    slice_ns: u64,
    direct_greedy_cpus: Seq<u64>,
    kick_greedy_cpus: Seq<u64>,
    nodes: Seq<NodeStats>,
) -> bool {
    &&& c.at_us == at_us
    &&& c.lb_at_us == lb_at_us
    &&& c.total == placement_total(d.stats)
    &&& c.slice_us == slice_ns / 1000
    &&& c.cpu_busy == pct_bp(d.cpu_busy, d.cpu_total)
    &&& c.load == seq_sum(node_load_seq(nodes))
    &&& c.nr_migrations == d.stats[STAT_LOAD_BALANCE as int]
    &&& c.task_get_err == d.stats[STAT_TASK_GET_ERR as int]
    &&& c.time_used_ns == d.time_used
    &&& forall|k: int|
        0 <= k < 15 ==> pct_fields(c)[k] == pct_bp(
            d.stats[#[trigger] pct_sources()[k]],
            placement_total(d.stats),
        )
    &&& c.direct_greedy_cpus@ == direct_greedy_cpus
    &&& c.kick_greedy_cpus@ == kick_greedy_cpus
    &&& c.nodes@ == nodes
}

/// The load of each node.
pub open spec fn node_load_seq(v: Seq<NodeStats>) -> Seq<u64> {
    v.map_values(|n: NodeStats| n.load)
}

fn sum_loads(v: &Vec<NodeStats>) -> (r: u128)
    ensures
        r == seq_sum(node_load_seq(v@)),
{
    let ghost w = node_load_seq(v@);
    let mut sum: u128 = 0;
    let mut i: usize = 0;
    while i < v.len()
        invariant
            i <= v.len(),
            w == node_load_seq(v@),
            sum == sum_prefix(w, i as int),
            sum <= i * u64::MAX,
        decreases v.len() - i,
    {
        assert(sum + w[i as int] <= (i + 1) * u64::MAX) by (nonlinear_arith)
            requires
                sum <= i * u64::MAX,
                w[i as int] <= u64::MAX,
        ;
        assert((i + 1) * u64::MAX <= usize::MAX * u64::MAX) by (nonlinear_arith)
            requires
                i + 1 <= usize::MAX,
        ;
        sum = sum + v[i].load as u128;
        i = i + 1;
    }
    sum
}

/// Derives the snapshot answered to a statistics query from a delta of two
/// samples, the tuner's slice length and masks, and the per-node results of
/// the last balancing cycle.
pub fn cluster_stats(
    sc: &StatsCtx,
    at_us: u64,
    lb_at_us: u64,
    slice_ns: u64,
    direct_greedy_cpus: Vec<u64>,
    kick_greedy_cpus: Vec<u64>,
    nodes: Vec<NodeStats>,
) -> (r: ClusterStats)
    requires
        sc.bpf_stats.len() == NR_STATS,
    ensures
        derived_from(
            r,
            sc@,
            at_us,
            lb_at_us,
            slice_ns,
            direct_greedy_cpus@,
            kick_greedy_cpus@,
            nodes@,
        ),
{
    let s = &sc.bpf_stats;
    let total: u128 = s[STAT_WAKE_SYNC] as u128 + s[STAT_SYNC_PREV_IDLE] as u128
        + s[STAT_PREV_IDLE] as u128 + s[STAT_GREEDY_IDLE] as u128 + s[STAT_PINNED] as u128
        + s[STAT_DIRECT_DISPATCH] as u128 + s[STAT_DIRECT_GREEDY] as u128
        + s[STAT_DIRECT_GREEDY_FAR] as u128 + s[STAT_DSQ_DISPATCH] as u128
        + s[STAT_GREEDY_LOCAL] as u128 + s[STAT_GREEDY_XNUMA] as u128
        + s[STAT_KICK_GREEDY] as u128 + s[STAT_REPATRIATE] as u128 + s[STAT_DL_CLAMP] as u128
        + s[STAT_DL_PRESET] as u128;
    let cpu_busy: u128 = if sc.cpu_total != 0 {
        (sc.cpu_busy as u128) * 10000 / (sc.cpu_total as u128)
    } else {
        0
    };
    let load = sum_loads(&nodes);
    let r = ClusterStats {
        at_us,
        lb_at_us,
        total,
        slice_us: slice_ns / 1000,
        cpu_busy,
        load,
        nr_migrations: s[STAT_LOAD_BALANCE],
        task_get_err: s[STAT_TASK_GET_ERR],
        time_used_ns: sc.time_used_ns,
        sync_prev_idle: pct_of(s[STAT_SYNC_PREV_IDLE], total),
        wake_sync: pct_of(s[STAT_WAKE_SYNC], total),
        prev_idle: pct_of(s[STAT_PREV_IDLE], total),
        greedy_idle: pct_of(s[STAT_GREEDY_IDLE], total),
        pinned: pct_of(s[STAT_PINNED], total),
        direct: pct_of(s[STAT_DIRECT_DISPATCH], total),
        greedy: pct_of(s[STAT_DIRECT_GREEDY], total),
        greedy_far: pct_of(s[STAT_DIRECT_GREEDY_FAR], total),
        dsq_dispatch: pct_of(s[STAT_DSQ_DISPATCH], total),
        greedy_local: pct_of(s[STAT_GREEDY_LOCAL], total),
        greedy_xnuma: pct_of(s[STAT_GREEDY_XNUMA], total),
        kick_greedy: pct_of(s[STAT_KICK_GREEDY], total),
        repatriate: pct_of(s[STAT_REPATRIATE], total),
        dl_clamp: pct_of(s[STAT_DL_CLAMP], total),
        dl_preset: pct_of(s[STAT_DL_PRESET], total),
        direct_greedy_cpus,
        kick_greedy_cpus,
        nodes,
    };
    assert(pct_fields(r) =~= pct_sources().map_values(
        |i: int| pct_bp(sc@.stats[i], placement_total(sc@.stats)) as u128,
    ));
    r
}

/// With no placements in the interval every percentage is zero.
pub proof fn lemma_zero_placements_zero_pct(
    c: ClusterStats,
    d: SampleView,
    at_us: u64,
    lb_at_us: u64,
    slice_ns: u64,
    direct_greedy_cpus: Seq<u64>,
    kick_greedy_cpus: Seq<u64>,
    nodes: Seq<NodeStats>,
)
    requires
        d.stats.len() == NR_STATS,
        derived_from(
            c,
            d,
            at_us,
            lb_at_us,
            slice_ns,
            direct_greedy_cpus,
            kick_greedy_cpus,
            nodes,
        ),
        placement_total(d.stats) == 0,
    ensures
        forall|k: int| 0 <= k < 15 ==> pct_fields(c)[k] == 0,
        c.total == 0,
{
    assert forall|k: int| 0 <= k < 15 implies pct_fields(c)[k] == 0 by {
        assert(pct_fields(c)[k] == pct_bp(d.stats[pct_sources()[k]], 0));
    }
}


proof fn lemma_pct_at_most_whole(x: int, total: int)
    requires
        0 <= x <= total,
        0 < total,
    ensures
        0 <= pct_bp(x, total) <= 10000,
{
    assert(x * 10000 <= total * 10000) by (nonlinear_arith)
        requires
            x <= total,
    ;
    assert(0 <= x * 10000 / total <= 10000) by (nonlinear_arith)
        requires
            0 <= x * 10000 <= total * 10000,
            0 < total,
    ;
}

/// Each percentage is a share of the placement total: between 0 and 100%.
pub proof fn lemma_placement_pct_bounded(
    c: ClusterStats,
    d: SampleView,
    at_us: u64,
    lb_at_us: u64,
    slice_ns: u64,
    direct_greedy_cpus: Seq<u64>,
    kick_greedy_cpus: Seq<u64>,
    nodes: Seq<NodeStats>,
)
    requires
        d.stats.len() == NR_STATS,
        forall|i: int| 0 <= i < d.stats.len() ==> d.stats[i] >= 0,
        derived_from(c, d, at_us, lb_at_us, slice_ns, direct_greedy_cpus, kick_greedy_cpus, nodes),
    ensures
        forall|k: int| 0 <= k < 15 ==> pct_fields(c)[k] <= 10000,
{
    let s = d.stats;
    assert forall|k: int| 0 <= k < 15 implies pct_fields(c)[k] <= 10000 by {
        let i = pct_sources()[k];
        assert(0 <= i < NR_STATS);
        assert(s[i] <= placement_total(s));
        if placement_total(s) > 0 {
            lemma_pct_at_most_whole(s[i], placement_total(s));
        }
    }
}

} // verus!
