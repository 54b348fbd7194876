use scx_wd40::arena::{check_capacity, check_status, copy_mask, node_masks, topology_nodes};
use scx_wd40::arena::{ConfigError, PolicyCall, PolicyCallError};
use scx_wd40::control::{next_state, serve_query, LoopEvent, LoopState, Schedule};
use scx_wd40::cpumask::Cpumask;
use scx_wd40::domain::{DomainGroup, TopologyError};
use scx_wd40::load_balance::{load_balance, DomLoad, NodeStats, TaskLoad, MAX_MIGRATIONS};
use scx_wd40::stats::{cluster_stats, cpu_busy_and_total, sub_or_zero, sum_percpu};
use scx_wd40::stats::{AccountingError, CpuTimes, StatsCtx, NR_STATS};
use scx_wd40::stats::{STAT_LOAD_BALANCE, STAT_PREV_IDLE, STAT_REPATRIATE, STAT_WAKE_SYNC};
use scx_wd40::topology::{CpuInfo, TopoLevel, Topology};
use scx_wd40::tuner::{domain_busy, CpuUsage, Tuner};

/// Two nodes, two LLC groups per node, two cores per LLC, two CPUs per core.
fn host() -> Topology {
    Topology {
        nr_nodes: 2,
        llc_node: vec![0, 0, 1, 1],
        core_llc: vec![0, 0, 1, 1, 2, 2, 3, 3],
        cpus: (0..16).map(|k| CpuInfo { id: k, core: k / 2 }).collect(),
        nr_cpu_ids: 16,
    }
}

fn mask_cpus(m: &Cpumask) -> Vec<usize> {
    (0..m.words.len() * 64).filter(|c| m.test_cpu(*c)).collect()
}

#[test]
fn sub_or_zero_clamps() {
    assert_eq!(sub_or_zero(&5, &3), 2);
    assert_eq!(sub_or_zero(&3, &5), 0);
    assert_eq!(sub_or_zero(&7, &7), 0);
}

#[test]
fn delta_subtracts_and_clamps_resets() {
    let a = StatsCtx::new(100, 400, vec![10, 20, 30], 5000);
    let b = StatsCtx::new(40, 100, vec![4, 25, 30], 2000);
    let d = a.delta(&b);
    assert_eq!(d.cpu_busy, 60);
    assert_eq!(d.cpu_total, 300);
    assert_eq!(d.bpf_stats, vec![6, 0, 0]);
    assert_eq!(d.time_used_ns, 3000);
    let back = b.delta(&a);
    assert_eq!(back.cpu_busy, 0);
    assert_eq!(back.time_used_ns, 0);
    assert_eq!(back.bpf_stats, vec![0, 5, 0]);
}

#[test]
fn blank_sample_is_zero() {
    let z = StatsCtx::blank();
    assert_eq!(z.bpf_stats, vec![0u64; NR_STATS]);
    assert_eq!(z.cpu_busy, 0);
    assert_eq!(z.cpu_total, 0);
}

fn times(v: u64) -> CpuTimes {
    CpuTimes {
        user_usec: Some(v),
        nice_usec: Some(v),
        system_usec: Some(v),
        idle_usec: Some(v),
        iowait_usec: Some(v),
        irq_usec: Some(v),
        softirq_usec: Some(v),
        stolen_usec: Some(v),
    }
}

#[test]
fn busy_and_total_from_accounting() {
    let t = CpuTimes {
        user_usec: Some(1),
        nice_usec: Some(2),
        system_usec: Some(4),
        idle_usec: Some(8),
        iowait_usec: Some(16),
        irq_usec: Some(32),
        softirq_usec: Some(64),
        stolen_usec: Some(128),
    };
    assert_eq!(cpu_busy_and_total(Some(t)), Ok((231, 255)));
}

#[test]
fn busy_and_total_errors() {
    assert_eq!(cpu_busy_and_total(None), Err(AccountingError::MissingTotal));
    let mut t = times(1);
    t.iowait_usec = None;
    assert_eq!(cpu_busy_and_total(Some(t)), Err(AccountingError::MissingField));
    assert_eq!(cpu_busy_and_total(Some(times(u64::MAX / 4))), Err(AccountingError::Overflow));
}

#[test]
fn percpu_sum() {
    assert_eq!(sum_percpu(&vec![1, 2, 3]), Some(6));
    assert_eq!(sum_percpu(&vec![]), Some(0));
    assert_eq!(sum_percpu(&vec![u64::MAX, 1]), None);
}

#[test]
fn cluster_stats_percentages() {
    let mut s = vec![0u64; NR_STATS];
    s[STAT_WAKE_SYNC] = 1;
    s[STAT_PREV_IDLE] = 3;
    s[STAT_REPATRIATE] = 2;
    s[STAT_LOAD_BALANCE] = 9;
    let sc = StatsCtx::new(50, 200, s, 7);
    let nodes = vec![
        NodeStats { node: 0, load: 5, nr_migrations: 2 },
        NodeStats { node: 1, load: 6, nr_migrations: 0 },
    ];
    let c = cluster_stats(&sc, 11, 12, 20_000_000, vec![3], vec![1], nodes.clone());
    assert_eq!(c.total, 6);
    assert_eq!(c.wake_sync, 1666);
    assert_eq!(c.prev_idle, 5000);
    assert_eq!(c.repatriate, 3333);
    assert_eq!(c.nodes, nodes);
    assert_eq!(c.pinned, 0);
    assert_eq!(c.cpu_busy, 2500);
    assert_eq!(c.slice_us, 20_000);
    assert_eq!(c.load, 11);
    assert_eq!(c.nr_migrations, 9);
    assert_eq!(c.at_us, 11);
    assert_eq!(c.lb_at_us, 12);
}

#[test]
fn cluster_stats_zero_placements() {
    let mut s = vec![0u64; NR_STATS];
    s[STAT_LOAD_BALANCE] = 5;
    let sc = StatsCtx::new(0, 0, s, 0);
    let c = cluster_stats(&sc, 0, 0, 0, vec![], vec![], vec![]);
    assert_eq!(c.total, 0);
    assert_eq!(c.cpu_busy, 0);
    for p in [
        c.sync_prev_idle, c.wake_sync, c.prev_idle, c.greedy_idle, c.pinned, c.direct, c.greedy,
        c.greedy_far, c.dsq_dispatch, c.greedy_local, c.greedy_xnuma, c.kick_greedy, c.repatriate,
        c.dl_clamp, c.dl_preset,
    ] {
        assert_eq!(p, 0);
    }
}

#[test]
fn cpumask_set_test_or() {
    let mut a = Cpumask::new(2);
    a.set_cpu(3);
    a.set_cpu(64);
    let mut b = Cpumask::new(2);
    b.set_cpu(127);
    assert!(a.test_cpu(3) && a.test_cpu(64) && !a.test_cpu(4));
    assert!(!a.test_cpu(500));
    let u = a.or(&b);
    assert_eq!(mask_cpus(&u), vec![3, 64, 127]);
    assert_eq!(u.as_raw_slice(), &[8u64, 1 | (1u64 << 63)]);
}

#[test]
fn domains_partition_llcs() {
    let t = host();
    let g = DomainGroup::new(&t, 3).unwrap();
    assert_eq!(g.nr_doms(), 4);
    assert_eq!(g.nr_nodes(), 2);
    let mut all = Vec::new();
    for (d, dom) in g.doms.iter().enumerate() {
        assert_eq!(dom.id, d);
        assert_eq!(dom.node, d / 2);
        let cpus = mask_cpus(&dom.mask);
        assert_eq!(cpus, (d * 4..d * 4 + 4).collect::<Vec<usize>>());
        all.extend(cpus);
    }
    all.sort();
    assert_eq!(all, (0..16).collect::<Vec<usize>>());
    assert_eq!(g.numa_doms(0), vec![0, 1]);
    assert_eq!(g.numa_doms(1), vec![2, 3]);
}

#[test]
fn domains_per_core_and_errors() {
    let t = host();
    let g = DomainGroup::new(&t, 2).unwrap();
    assert_eq!(g.nr_doms(), 8);
    assert_eq!(mask_cpus(&g.doms[5].mask), vec![10, 11]);
    assert_eq!(g.doms[5].node, 1);
    assert_eq!(DomainGroup::new(&t, 1).err(), Some(TopologyError::NoCacheBoundary));
    let empty = Topology { nr_nodes: 0, llc_node: vec![], core_llc: vec![], cpus: vec![], nr_cpu_ids: 0 };
    assert_eq!(DomainGroup::new(&empty, 3).err(), Some(TopologyError::NoCpus));
}

#[test]
fn mask_copy_is_bounded_and_idempotent() {
    let mut bitmap = vec![0xffu64; 4];
    assert_eq!(copy_mask(&mut bitmap, &[1, 2]), Ok(()));
    let once = bitmap.clone();
    assert_eq!(once, vec![1, 2, 0xff, 0xff]);
    assert_eq!(copy_mask(&mut bitmap, &[1, 2]), Ok(()));
    assert_eq!(bitmap, once);
    assert_eq!(copy_mask(&mut bitmap, &[1, 2, 3, 4, 5]), Err(ConfigError::MaskTooWide));
    assert_eq!(bitmap, once);
}

#[test]
fn topology_mirror_order() {
    let t = host();
    let nodes = topology_nodes(&t);
    assert_eq!(nodes.len(), 1 + 2 + 4 + 8 + 16);
    assert_eq!(nodes[0].level, TopoLevel::All);
    assert_eq!(mask_cpus(&nodes[0].mask).len(), 16);
    assert_eq!(nodes[2].level, TopoLevel::Node);
    assert_eq!(nodes[2].id, 1);
    assert_eq!(mask_cpus(&nodes[2].mask), (8..16).collect::<Vec<usize>>());
    assert_eq!(nodes[3].level, TopoLevel::Llc);
    assert_eq!(nodes[7].level, TopoLevel::Core);
    assert_eq!(nodes[30].level, TopoLevel::Cpu);
    assert_eq!(nodes[30].id, 15);
    assert_eq!(mask_cpus(&nodes[30].mask), vec![15]);
}

#[test]
fn node_masks_join_domains() {
    let t = host();
    let g = DomainGroup::new(&t, 3).unwrap();
    let m = node_masks(&g, 1);
    assert_eq!(m.len(), 2);
    assert_eq!(mask_cpus(&m[0]), (0..8).collect::<Vec<usize>>());
    assert_eq!(mask_cpus(&m[1]), (8..16).collect::<Vec<usize>>());
}

#[test]
fn capacity_and_status_checks() {
    assert_eq!(check_capacity(16, 4), Ok(()));
    assert_eq!(check_capacity(100_000, 4), Err(ConfigError::TooManyCpus));
    assert_eq!(check_capacity(16, 100_000), Err(ConfigError::TooManyDoms));
    assert_eq!(check_status(PolicyCall::Setup, 0), Ok(()));
    assert_eq!(
        check_status(PolicyCall::AllocMask, -12),
        Err(PolicyCallError { call: PolicyCall::AllocMask, status: -12 })
    );
}

/// Readings where each CPU below `split` has `busy_lo` of 100 and each other
/// CPU `busy_hi` of 100.
fn usage(split: usize, busy_lo: u64, busy_hi: u64) -> Vec<CpuUsage> {
    (0..16).map(|c| CpuUsage { busy: if c < split { busy_lo } else { busy_hi }, total: 100 }).collect()
}

fn idle() -> Vec<CpuUsage> {
    (0..16).map(|_| CpuUsage { busy: 0, total: 0 }).collect()
}

#[test]
fn tuner_threshold_is_strict() {
    let t = host();
    let g = DomainGroup::new(&t, 3).unwrap();
    for (busy, eligible) in [(89, true), (90, false), (91, false)] {
        let mut tn = Tuner::new(90, 100, 20_000_000, 1_000_000, false, 1).unwrap();
        tn.step(&g, idle());
        tn.step(&g, usage(16, busy, 0));
        let expected: Vec<usize> = if eligible { (0..16).collect() } else { vec![] };
        assert_eq!(mask_cpus(&tn.direct_greedy_mask), expected);
        assert_eq!(mask_cpus(&tn.kick_greedy_mask).len(), 16);
        assert!(!tn.fully_utilized);
        assert_eq!(tn.slice_ns, 20_000_000);
    }
}

#[test]
fn tuner_judges_by_node_when_scoped() {
    let t = host();
    let g = DomainGroup::new(&t, 3).unwrap();
    let mut tn = Tuner::new(90, 50, 20_000_000, 1_000_000, true, 1).unwrap();
    tn.step(&g, idle());
    // Node 0 (CPUs 0 to 7) is 95% busy, node 1 idle.
    tn.step(&g, usage(8, 95, 0));
    assert_eq!(mask_cpus(&tn.direct_greedy_mask), (8..16).collect::<Vec<usize>>());
    assert_eq!(mask_cpus(&tn.kick_greedy_mask), (8..16).collect::<Vec<usize>>());
    // Judged by the host (47.5%), every CPU is under 90% and 50%.
    let mut host_tn = Tuner::new(90, 50, 20_000_000, 1_000_000, false, 1).unwrap();
    host_tn.step(&g, idle());
    host_tn.step(&g, usage(8, 95, 0));
    assert_eq!(mask_cpus(&host_tn.direct_greedy_mask).len(), 16);
    assert_eq!(mask_cpus(&host_tn.kick_greedy_mask).len(), 16);
}

#[test]
fn busy_time_per_domain() {
    let t = host();
    let g = DomainGroup::new(&t, 3).unwrap();
    assert_eq!(domain_busy(&g, &usage(8, 95, 10), &idle()), vec![380, 380, 40, 40]);
}

#[test]
fn tuner_full_host_and_bad_threshold() {
    let t = host();
    let g = DomainGroup::new(&t, 3).unwrap();
    let mut tn = Tuner::new(0, 100, 20_000_000, 1_000_000, false, 1).unwrap();
    let zero: Vec<CpuUsage> = (0..16).map(|_| CpuUsage { busy: 0, total: 0 }).collect();
    let full: Vec<CpuUsage> = (0..16).map(|_| CpuUsage { busy: 100, total: 100 }).collect();
    tn.step(&g, zero);
    tn.step(&g, full);
    assert!(tn.fully_utilized);
    assert_eq!(tn.slice_ns, 1_000_000);
    assert!(mask_cpus(&tn.direct_greedy_mask).is_empty());
    assert_eq!(mask_cpus(&tn.kick_greedy_mask).len(), 16);
    assert_eq!(Tuner::new(101, 100, 1, 1, false, 1).err(), Some(ConfigError::InvalidThreshold));
}

fn dom(load: u64, n: u64) -> DomLoad {
    DomLoad { load, tasks: (0..n).map(|i| TaskLoad { pid: load * 1000 + i, load: 10 }).collect() }
}

#[test]
fn balance_uniform_load_moves_nothing() {
    let t = host();
    let g = DomainGroup::new(&t, 3).unwrap();
    let loads = vec![dom(100, 5), dom(100, 5), dom(100, 5), dom(100, 5)];
    let (moves, nodes) = load_balance(&g, &loads, 10);
    assert!(moves.is_empty());
    assert_eq!(nodes.len(), 2);
    assert_eq!(nodes[0].load, 200);
}

#[test]
fn balance_skewed_domain_moves_within_node() {
    let t = host();
    let g = DomainGroup::new(&t, 3).unwrap();
    let loads = vec![dom(300, 50), dom(100, 5), dom(100, 5), dom(100, 5)];
    let (moves, nodes) = load_balance(&g, &loads, 10);
    assert!(!moves.is_empty());
    assert!(moves.len() <= MAX_MIGRATIONS);
    // Half the imbalance is 100, which ten tasks of load 10 fill.
    assert_eq!(moves.len(), 10);
    for m in moves.iter() {
        assert_eq!((m.from, m.to), (0, 1));
    }
    assert_eq!(moves[0].pid, 300_000);
    assert_eq!(nodes[0].nr_migrations, 10);
    assert_eq!(nodes[1].nr_migrations, 0);
}

#[test]
fn balance_respects_cap() {
    let t = host();
    let g = DomainGroup::new(&t, 3).unwrap();
    let heavy = DomLoad { load: 1_000_000, tasks: (0..3000).map(|i| TaskLoad { pid: i, load: 0 }).collect() };
    let loads = vec![heavy.clone(), dom(0, 1), heavy, dom(0, 1)];
    let (moves, _) = load_balance(&g, &loads, 10);
    assert_eq!(moves.len(), MAX_MIGRATIONS);
    assert!(moves.iter().all(|m| m.from == 0 && m.to == 1));
}

#[test]
fn query_at_tune_deadline_runs_tune_first() {
    let mut s = Schedule::new(0, 100, 2000);
    assert_eq!(s.next_tune_at, 100);
    let tick = s.tick(100);
    assert!(tick.run_tune);
    assert!(!tick.run_balance);
    assert_eq!(s.next_tune_at, 200);
    assert_eq!(tick.wait_until, 200);

    // The sample served after that pass reflects the tuner's new state.
    let t = host();
    let g = DomainGroup::new(&t, 3).unwrap();
    let mut tn = Tuner::new(90, 100, 20_000_000, 1_000_000, false, 1).unwrap();
    tn.step(&g, (0..16).map(|_| CpuUsage { busy: 0, total: 0 }).collect());
    tn.step(&g, (0..16).map(|_| CpuUsage { busy: 100, total: 100 }).collect());
    let cur = StatsCtx::new(10, 20, vec![0u64; NR_STATS], 3);
    let (sample, c) = serve_query(cur, &StatsCtx::blank(), &tn, vec![], 1, 2);
    assert_eq!(sample.cpu_busy, 10);
    assert_eq!(c.slice_us, 1000);
    assert_eq!(c.cpu_busy, 5000);
}

#[test]
fn schedule_reanchors_when_behind() {
    let mut s = Schedule::new(0, 100, 2000);
    let tick = s.tick(5000);
    assert!(tick.run_tune && tick.run_balance);
    assert_eq!(s.next_tune_at, 5100);
    assert_eq!(s.next_sched_at, 7000);
    assert_eq!(tick.wait_until, 5100);
    let idle = s.tick(5050);
    assert!(!idle.run_tune && !idle.run_balance);
}

#[test]
fn lifecycle_transitions() {
    let s = next_state(LoopState::Initializing, LoopEvent::Attached);
    assert_eq!(s, LoopState::Running);
    let s = next_state(s, LoopEvent::PolicyExited { restart: true });
    assert_eq!(s, LoopState::Draining);
    let s = next_state(s, LoopEvent::Released { restart: true });
    assert_eq!(s, LoopState::RestartRequested);
    assert_eq!(next_state(s, LoopEvent::Shutdown), LoopState::Initializing);
    assert_eq!(next_state(LoopState::Draining, LoopEvent::Released { restart: false }), LoopState::Stopped);
    assert_eq!(next_state(LoopState::Initializing, LoopEvent::InitFailed), LoopState::Stopped);
    assert_eq!(next_state(LoopState::Stopped, LoopEvent::Attached), LoopState::Stopped);
}

#[test]
fn bpf_mask_update_checks_width() {
    let mut m = Cpumask::new(2);
    m.set_cpu(65);
    let mut bitmap = vec![7u64; 3];
    assert_eq!(scx_wd40::arena::update_bpf_mask(&mut bitmap, &m, 2), Ok(()));
    assert_eq!(bitmap, vec![0, 2, 7]);
    assert_eq!(scx_wd40::arena::update_bpf_mask(&mut bitmap, &m, 3), Err(ConfigError::MaskLenMismatch));
    let mut small = vec![0u64; 1];
    assert_eq!(scx_wd40::arena::update_bpf_mask(&mut small, &m, 2), Err(ConfigError::MaskTooWide));
    assert_eq!(small, vec![0]);
}
