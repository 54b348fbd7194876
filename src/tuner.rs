//! The tuner: from per-CPU time accounting, which domains may take tasks
//! pushed directly or by kicking, and which slice length is in force.
use vstd::prelude::*;
use crate::arena::ConfigError;
use crate::cpumask::Cpumask;
use crate::domain::DomainGroup;
use crate::stats::sat_sub;
use crate::topology::MAX_CPUS;

verus! {

/// Cumulative busy and total time of one CPU.
#[derive(Clone, Copy, Debug, PartialEq, Eq)]
pub struct CpuUsage {
    pub busy: u64,
    pub total: u64,
}

/// Utilization `busy / total` is strictly below `pct` percent; a threshold of
/// 100 or more always holds, and no time at all counts as no utilization.
pub open spec fn util_below(busy: int, total: int, pct: int) -> bool {
    if pct >= 100 {
        true
    } else if total == 0 {
        0 < pct
    } else {
        busy * 100 < pct * total
    }
}

/// Utilization `busy / total` is at least 99.999 percent.
pub open spec fn util_full(busy: int, total: int) -> bool {
    total > 0 && busy * 100000 >= total * 99999
}

/// Busy (or total) time spent between `prev` and `curr` by the CPUs below
/// `n` that are in `cpus`.
pub open spec fn usage_sum(
    curr: Seq<CpuUsage>,
    prev: Seq<CpuUsage>,
    cpus: Set<int>,
    n: int,
    busy: bool,
) -> int
    decreases n,
{
    if n <= 0 {
        0
    } else {
        usage_sum(curr, prev, cpus, n - 1, busy) + if cpus.contains(n - 1) {
            if busy {
                sat_sub(curr[n - 1].busy as int, prev[n - 1].busy as int)
            } else {
                sat_sub(curr[n - 1].total as int, prev[n - 1].total as int)
            }
        } else {
            0
        }
    }
}

pub open spec fn min_len(a: Seq<CpuUsage>, b: Seq<CpuUsage>) -> int {
    if a.len() <= b.len() { a.len() as int } else { b.len() as int }
}

/// Busy or total time of the CPUs of `cpus` over the interval.
pub open spec fn interval_usage(curr: Seq<CpuUsage>, prev: Seq<CpuUsage>, cpus: Set<int>, busy: bool) -> int {
    usage_sum(curr, prev, cpus, min_len(curr, prev), busy)
}

/// The CPUs whose utilization decides for domain `d`: its node's, with
/// `node_scoped`, else the whole host's.
pub open spec fn scope_of(g: DomainGroup, d: int, node_scoped: bool) -> Set<int> {
    if node_scoped {
        g.node_set(g.doms@[d].node as int)
    } else {
        Set::full()
    }
}

/// The utilization that decides for domain `d` is under `pct` percent over
/// the interval.
pub open spec fn dom_below(
    g: DomainGroup,
    curr: Seq<CpuUsage>,
    prev: Seq<CpuUsage>,
    d: int,
    pct: int,
    node_scoped: bool,
) -> bool {
    util_below(
        interval_usage(curr, prev, scope_of(g, d, node_scoped), true),
        interval_usage(curr, prev, scope_of(g, d, node_scoped), false),
        pct,
    )
}

/// The CPUs of the domains whose host (or node) is under `pct` percent
/// utilized.
pub open spec fn eligible_cpus(
    g: DomainGroup,
    curr: Seq<CpuUsage>,
    prev: Seq<CpuUsage>,
    pct: int,
    node_scoped: bool,
) -> Set<int> {
    Set::new(
        |c: int|
            exists|d: int|
                0 <= d < g.doms@.len() && dom_below(g, curr, prev, d, pct, node_scoped)
                    && (#[trigger] g.doms@[d]).mask@.contains(c),
    )
}

/// Judged by the whole host, every CPU of a domain is eligible when the
/// host is strictly under the threshold, and none is when the host sits at
/// the threshold or above it.
pub proof fn lemma_host_threshold(g: DomainGroup, curr: Seq<CpuUsage>, prev: Seq<CpuUsage>, pct: int)
    ensures
        util_below(
            interval_usage(curr, prev, Set::full(), true),
            interval_usage(curr, prev, Set::full(), false),
            pct,
        ) ==> forall|d: int, c: int|
            0 <= d < g.doms@.len() && #[trigger] g.doms@[d].mask@.contains(c) ==> eligible_cpus(
                g,
                curr,
                prev,
                pct,
                false,
            ).contains(c),
        !util_below(
            interval_usage(curr, prev, Set::full(), true),
            interval_usage(curr, prev, Set::full(), false),
            pct,
        ) ==> eligible_cpus(g, curr, prev, pct, false) == Set::<int>::empty(),
{
    assert forall|d: int| 0 <= d < g.doms@.len() implies scope_of(g, d, false) == Set::<int>::full() by {}
    if !util_below(
        interval_usage(curr, prev, Set::full(), true),
        interval_usage(curr, prev, Set::full(), false),
        pct,
    ) {
        assert(eligible_cpus(g, curr, prev, pct, false) =~= Set::<int>::empty());
    }
}

/// At the threshold itself a domain is not below it; just under it, it is.
pub proof fn lemma_threshold_strict(busy: int, total: int, pct: int)
    requires
        0 <= busy,
        0 < total,
        0 <= pct < 100,
    ensures
        busy * 100 == pct * total ==> !util_below(busy, total, pct),
        busy * 100 > pct * total ==> !util_below(busy, total, pct),
        busy * 100 < pct * total ==> util_below(busy, total, pct),
        pct == 0 ==> !util_below(busy, total, pct),
{
}

/// Tuning state: thresholds, slice lengths, the masks last computed and the
/// readings they were computed against.
#[derive(Clone, Debug)]
pub struct Tuner {
    pub direct_greedy_under: u64,
    pub kick_greedy_under: u64,
    pub slice_ns_underutil: u64,
    pub slice_ns_overutil: u64,
    pub direct_greedy_mask: Cpumask,
    pub kick_greedy_mask: Cpumask,
    /// Judge each domain by its node's utilization instead of the host's.
    pub node_scoped: bool,
    pub fully_utilized: bool,
    pub slice_ns: u64,
    pub prev_cpu_stats: Vec<CpuUsage>,
}

fn sum_usage(curr: &Vec<CpuUsage>, prev: &Vec<CpuUsage>, all: bool, mask: &Cpumask) -> (r: (
    u128,
    u128,
))
    requires
        curr@.len() <= MAX_CPUS,
    ensures
        r.0 == interval_usage(curr@, prev@, if all { Set::full() } else { mask@ }, true),
        r.1 == interval_usage(curr@, prev@, if all { Set::full() } else { mask@ }, false),
        r.0 <= MAX_CPUS * u64::MAX,
        r.1 <= MAX_CPUS * u64::MAX,
{
    let ghost cpus = if all { Set::full() } else { mask@ };
    let n: usize = if curr.len() <= prev.len() { curr.len() } else { prev.len() };
    let mut busy: u128 = 0;
    let mut total: u128 = 0;
    let mut i: usize = 0;
    while i < n
        invariant
            n == min_len(curr@, prev@),
            n <= MAX_CPUS,
            i <= n,
            cpus == if all { Set::full() } else { mask@ },
            busy == usage_sum(curr@, prev@, cpus, i as int, true),
            total == usage_sum(curr@, prev@, cpus, i as int, false),
            busy <= i * u64::MAX,
            total <= i * u64::MAX,
        decreases n - i,
    {
        if all || mask.test_cpu(i) {
            let b: u64 = if curr[i].busy >= prev[i].busy { curr[i].busy - prev[i].busy } else { 0 };
            let t: u64 = if curr[i].total >= prev[i].total { curr[i].total - prev[i].total } else { 0 };
            busy = busy + b as u128;
            total = total + t as u128;
        }
        i = i + 1;
    }
    (busy, total)
}

fn below(busy: u128, total: u128, pct: u64) -> (r: bool)
    requires
        busy <= MAX_CPUS * u64::MAX,
        total <= MAX_CPUS * u64::MAX,
        pct <= 100,
    ensures
        r == util_below(busy as int, total as int, pct as int),
{
    if pct >= 100 {
        true
    } else if total == 0 {
        0 < pct
    } else {
        assert((pct as u128) * total <= 100 * (MAX_CPUS * u64::MAX)) by (nonlinear_arith)
            requires
                pct <= 100,
                total <= MAX_CPUS * u64::MAX,
        ;
        busy * 100 < (pct as u128) * total
    }
}

/// Busy time of each domain's CPUs over the interval between `prev` and
/// `curr`, capped at `u64::MAX`.
pub fn domain_busy(g: &DomainGroup, curr: &Vec<CpuUsage>, prev: &Vec<CpuUsage>) -> (r: Vec<u64>)
    requires
        curr@.len() <= MAX_CPUS,
    ensures
        r@.len() == g.doms@.len(),
        forall|d: int|
            0 <= d < r@.len() ==> #[trigger] r@[d] == if interval_usage(curr@, prev@, g.doms@[d].mask@, true) <= u64::MAX {
                interval_usage(curr@, prev@, g.doms@[d].mask@, true)
            } else {
                u64::MAX as int
            },
{
    let mut r: Vec<u64> = Vec::new();
    let mut d: usize = 0;
    while d < g.doms.len()
        invariant
            curr@.len() <= MAX_CPUS,
            d <= g.doms@.len(),
            r@.len() == d,
            forall|e: int|
                0 <= e < d ==> #[trigger] r@[e] == if interval_usage(curr@, prev@, g.doms@[e].mask@, true) <= u64::MAX {
                    interval_usage(curr@, prev@, g.doms@[e].mask@, true)
                } else {
                    u64::MAX as int
                },
        decreases g.doms.len() - d,
    {
        let (busy, _) = sum_usage(curr, prev, false, &g.doms[d].mask);
        r.push(if busy <= u64::MAX as u128 { busy as u64 } else { u64::MAX });
        d = d + 1;
    }
    r
}

impl Tuner {
    pub open spec fn wf(&self) -> bool {
        &&& self.direct_greedy_under <= 100
        &&& self.kick_greedy_under <= 100
        &&& self.direct_greedy_mask.words@.len() == self.kick_greedy_mask.words@.len()
    }

    /// A tuner with thresholds in percent and slice lengths in nanoseconds;
    /// a threshold over 100 is refused.
    pub fn new(
        direct_greedy_under: u64,
        kick_greedy_under: u64,
        slice_ns_underutil: u64,
        slice_ns_overutil: u64,
        node_scoped: bool,
        nr_words: usize,
    ) -> (r: Result<Tuner, ConfigError>)
        ensures
            (direct_greedy_under > 100 || kick_greedy_under > 100) ==> r == Err::<Tuner, ConfigError>(
                ConfigError::InvalidThreshold,
            ),
            (direct_greedy_under <= 100 && kick_greedy_under <= 100) ==> {
                &&& r.is_ok()
                &&& r.unwrap().wf()
                &&& r.unwrap().direct_greedy_under == direct_greedy_under
                &&& r.unwrap().kick_greedy_under == kick_greedy_under
                &&& r.unwrap().slice_ns_underutil == slice_ns_underutil
                &&& r.unwrap().slice_ns_overutil == slice_ns_overutil
                &&& r.unwrap().slice_ns == slice_ns_underutil
                &&& r.unwrap().node_scoped == node_scoped
                &&& !r.unwrap().fully_utilized
                &&& r.unwrap().direct_greedy_mask@ == Set::<int>::empty()
                &&& r.unwrap().kick_greedy_mask@ == Set::<int>::empty()
                &&& r.unwrap().direct_greedy_mask.words@.len() == nr_words
                &&& r.unwrap().prev_cpu_stats@.len() == 0
            },
    {
        if direct_greedy_under > 100 || kick_greedy_under > 100 {
            return Err(ConfigError::InvalidThreshold);
        }
        Ok(Tuner {
            direct_greedy_under,
            kick_greedy_under,
            slice_ns_underutil,
            slice_ns_overutil,
            node_scoped,
            direct_greedy_mask: Cpumask::new(nr_words),
            kick_greedy_mask: Cpumask::new(nr_words),
            fully_utilized: false,
            slice_ns: slice_ns_underutil,
            prev_cpu_stats: Vec::new(),
        })
    }

    /// Recomputes the masks and the slice length from the readings `curr`
    /// against those of the previous step, and keeps `curr` for the next.
    pub fn step(&mut self, g: &DomainGroup, curr: Vec<CpuUsage>)
        requires
            old(self).wf(),
            curr@.len() <= MAX_CPUS,
            forall|d: int|
                0 <= d < g.doms@.len() ==> (#[trigger] g.doms@[d]).mask.words@.len()
                    == old(self).direct_greedy_mask.words@.len(),
        ensures
            final(self).wf(),
            final(self).direct_greedy_under == old(self).direct_greedy_under,
            final(self).kick_greedy_under == old(self).kick_greedy_under,
            final(self).slice_ns_underutil == old(self).slice_ns_underutil,
            final(self).slice_ns_overutil == old(self).slice_ns_overutil,
            final(self).node_scoped == old(self).node_scoped,
            final(self).direct_greedy_mask.words@.len() == old(self).direct_greedy_mask.words@.len(),
            final(self).direct_greedy_mask@ == eligible_cpus(
                *g,
                curr@,
                old(self).prev_cpu_stats@,
                old(self).direct_greedy_under as int,
                old(self).node_scoped,
            ),
            final(self).kick_greedy_mask@ == eligible_cpus(
                *g,
                curr@,
                old(self).prev_cpu_stats@,
                old(self).kick_greedy_under as int,
                old(self).node_scoped,
            ),
            final(self).fully_utilized == util_full(
                interval_usage(curr@, old(self).prev_cpu_stats@, Set::full(), true),
                interval_usage(curr@, old(self).prev_cpu_stats@, Set::full(), false),
            ),
            final(self).slice_ns == if final(self).fully_utilized {
                old(self).slice_ns_overutil
            } else {
                old(self).slice_ns_underutil
            },
            final(self).prev_cpu_stats@ == curr@,
    {
        let nr_words = self.direct_greedy_mask.words.len();
        let (host_busy, host_total) = sum_usage(&curr, &self.prev_cpu_stats, true, &self.direct_greedy_mask);
        self.fully_utilized = host_total > 0 && host_busy * 100000 >= host_total * 99999;
        let mut direct = Cpumask::new(nr_words);
        let mut kick = Cpumask::new(nr_words);
        let mut d: usize = 0;
        while d < g.doms.len()
            invariant
                d <= g.doms@.len(),
                curr@.len() <= MAX_CPUS,
                self.direct_greedy_under <= 100,
                self.kick_greedy_under <= 100,
                direct.words@.len() == nr_words,
                kick.words@.len() == nr_words,
                forall|e: int| 0 <= e < g.doms@.len() ==> (#[trigger] g.doms@[e]).mask.words@.len() == nr_words,
                forall|c: int|
                    direct@.contains(c) <==> exists|e: int|
                        0 <= e < d && dom_below(*g, curr@, self.prev_cpu_stats@, e, self.direct_greedy_under as int, self.node_scoped)
                            && (#[trigger] g.doms@[e]).mask@.contains(c),
                forall|c: int|
                    kick@.contains(c) <==> exists|e: int|
                        0 <= e < d && dom_below(*g, curr@, self.prev_cpu_stats@, e, self.kick_greedy_under as int, self.node_scoped)
                            && (#[trigger] g.doms@[e]).mask@.contains(c),
            decreases g.doms.len() - d,
        {
            let scope = g.node_mask(g.doms[d].node, nr_words);
            let (busy, total) = sum_usage(&curr, &self.prev_cpu_stats, !self.node_scoped, &scope);
            assert(scope_of(*g, d as int, self.node_scoped) == if !self.node_scoped {
                Set::<int>::full()
            } else {
                scope@
            });
            if below(busy, total, self.direct_greedy_under) {
                direct = direct.or(&g.doms[d].mask);
            }
            if below(busy, total, self.kick_greedy_under) {
                kick = kick.or(&g.doms[d].mask);
            }
            d = d + 1;
        }
        assert(direct@ =~= eligible_cpus(*g, curr@, self.prev_cpu_stats@, self.direct_greedy_under as int, self.node_scoped));
        assert(kick@ =~= eligible_cpus(*g, curr@, self.prev_cpu_stats@, self.kick_greedy_under as int, self.node_scoped));
        self.direct_greedy_mask = direct;
        self.kick_greedy_mask = kick;
        self.slice_ns = if self.fully_utilized {
            self.slice_ns_overutil
        } else {
            self.slice_ns_underutil
        };
        self.prev_cpu_stats = curr;
    }
}

} // verus!
