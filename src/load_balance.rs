//! The load balancer: within each NUMA node, when the most loaded domain is
//! skewed enough against the least loaded one, move some of its recently
//! active tasks over, never more than a fixed number per cycle.
use vstd::prelude::*;
use crate::domain::DomainGroup;

verus! {

/// Most tasks migrated in one balancing cycle.
pub const MAX_MIGRATIONS: usize = 1024;

/// A task and its load.
#[derive(Clone, Copy, Debug, PartialEq, Eq)]
pub struct TaskLoad {
    pub pid: u64,
    pub load: u64,
}

/// A domain's load average and its tasks, most recently active first.
#[derive(Clone, Debug)]
pub struct DomLoad {
    pub load: u64,
    pub tasks: Vec<TaskLoad>,
}

/// An instruction to move a task from one domain to another.
#[derive(Clone, Copy, Debug, PartialEq, Eq)]
pub struct Migration {
    pub pid: u64,
    pub from: usize,
    pub to: usize,
}

/// What one cycle found on one node: its load and how many tasks it
/// migrated.
#[derive(Clone, Copy, Debug, PartialEq, Eq)]
pub struct NodeStats {
    pub node: usize,
    /// Sum of the node's domain loads, capped at `u64::MAX`.
    pub load: u64,
    pub nr_migrations: usize,
}

/// `hi` exceeds `lo` by more than `pct` percent of `lo`.
pub open spec fn skewed(hi: int, lo: int, pct: int) -> bool {
    hi > lo && (hi - lo) * 100 > pct * lo
}

/// The tasks picked among the first `i`: in order, each task whose load fits
/// in what is left of `budget`, while fewer than `room` are picked. Returns
/// the picked positions and the budget left.
pub open spec fn greedy(ts: Seq<TaskLoad>, budget: int, room: int, i: int) -> (Seq<int>, int)
    decreases i,
{
    if i <= 0 {
        (Seq::empty(), budget)
    } else {
        let p = greedy(ts, budget, room, i - 1);
        if p.0.len() < room && ts[i - 1].load <= p.1 {
            (p.0.push(i - 1), p.1 - ts[i - 1].load)
        } else {
            p
        }
    }
}

pub open spec fn in_node(g: DomainGroup, n: int, d: int) -> bool {
    0 <= d < g.doms@.len() && g.doms@[d].node == n
}

/// `d` is the first of the most loaded domains of node `n`.
pub open spec fn is_push(g: DomainGroup, loads: Seq<DomLoad>, n: int, d: int) -> bool {
    &&& in_node(g, n, d)
    &&& forall|e: int| #[trigger] in_node(g, n, e) ==> loads[e].load <= loads[d].load
    &&& forall|e: int| #[trigger] in_node(g, n, e) && e < d ==> loads[e].load < loads[d].load
}

/// `d` is the first of the least loaded domains of node `n`.
pub open spec fn is_pull(g: DomainGroup, loads: Seq<DomLoad>, n: int, d: int) -> bool {
    &&& in_node(g, n, d)
    &&& forall|e: int| #[trigger] in_node(g, n, e) ==> loads[e].load >= loads[d].load
    &&& forall|e: int| #[trigger] in_node(g, n, e) && e < d ==> loads[e].load > loads[d].load
}

pub open spec fn push_of(g: DomainGroup, loads: Seq<DomLoad>, n: int) -> int {
    choose|d: int| is_push(g, loads, n, d)
}

pub open spec fn pull_of(g: DomainGroup, loads: Seq<DomLoad>, n: int) -> int {
    choose|d: int| is_pull(g, loads, n, d)
}

pub open spec fn has_doms(g: DomainGroup, n: int) -> bool {
    exists|d: int| in_node(g, n, d)
}

/// The migrations one cycle issues for node `n` with room for `room` more.
pub open spec fn node_moves(g: DomainGroup, loads: Seq<DomLoad>, pct: int, n: int, room: int) -> Seq<Migration> {
    if has_doms(g, n) {
        let p = push_of(g, loads, n);
        let q = pull_of(g, loads, n);
        if skewed(loads[p].load as int, loads[q].load as int, pct) {
            let ts = loads[p].tasks@;
            let budget = (loads[p].load - loads[q].load) / 2;
            greedy(ts, budget, room, ts.len() as int).0.map_values(
                |j: int| Migration { pid: ts[j].pid, from: p as usize, to: q as usize },
            )
        } else {
            Seq::empty()
        }
    } else {
        Seq::empty()
    }
}

/// The migrations one cycle issues for the nodes below `n`, in node order.
pub open spec fn plan(g: DomainGroup, loads: Seq<DomLoad>, pct: int, n: int) -> Seq<Migration>
    decreases n,
{
    if n <= 0 {
        Seq::empty()
    } else {
        let prev = plan(g, loads, pct, n - 1);
        prev + node_moves(g, loads, pct, n - 1, MAX_MIGRATIONS - prev.len())
    }
}

proof fn lemma_push_unique(g: DomainGroup, loads: Seq<DomLoad>, n: int, a: int, b: int)
    requires
        is_push(g, loads, n, a),
        is_push(g, loads, n, b),
    ensures
        a == b,
{
    assert(in_node(g, n, a) && in_node(g, n, b));
}

proof fn lemma_pull_unique(g: DomainGroup, loads: Seq<DomLoad>, n: int, a: int, b: int)
    requires
        is_pull(g, loads, n, a),
        is_pull(g, loads, n, b),
    ensures
        a == b,
{
    assert(in_node(g, n, a) && in_node(g, n, b));
}

/// The first of the most loaded domains of node `n` below `m`.
proof fn lemma_first_max(g: DomainGroup, loads: Seq<DomLoad>, n: int, m: int) -> (d: int)
    requires
        0 <= m <= g.doms@.len(),
        exists|e: int| 0 <= e < m && #[trigger] in_node(g, n, e),
    ensures
        in_node(g, n, d) && d < m,
        forall|e: int| #[trigger] in_node(g, n, e) && e < m ==> loads[e].load <= loads[d].load,
        forall|e: int| #[trigger] in_node(g, n, e) && e < d ==> loads[e].load < loads[d].load,
    decreases m,
{
    if exists|e: int| 0 <= e < m - 1 && #[trigger] in_node(g, n, e) {
        let p = lemma_first_max(g, loads, n, m - 1);
        if in_node(g, n, m - 1) && loads[m - 1].load > loads[p].load {
            m - 1
        } else {
            p
        }
    } else {
        let e = choose|e: int| 0 <= e < m && #[trigger] in_node(g, n, e);
        assert(e == m - 1);
        m - 1
    }
}

/// The first of the least loaded domains of node `n` below `m`.
proof fn lemma_first_min(g: DomainGroup, loads: Seq<DomLoad>, n: int, m: int) -> (d: int)
    requires
        0 <= m <= g.doms@.len(),
        exists|e: int| 0 <= e < m && #[trigger] in_node(g, n, e),
    ensures
        in_node(g, n, d) && d < m,
        forall|e: int| #[trigger] in_node(g, n, e) && e < m ==> loads[e].load >= loads[d].load,
        forall|e: int| #[trigger] in_node(g, n, e) && e < d ==> loads[e].load > loads[d].load,
    decreases m,
{
    if exists|e: int| 0 <= e < m - 1 && #[trigger] in_node(g, n, e) {
        let p = lemma_first_min(g, loads, n, m - 1);
        if in_node(g, n, m - 1) && loads[m - 1].load < loads[p].load {
            m - 1
        } else {
            p
        }
    } else {
        let e = choose|e: int| 0 <= e < m && #[trigger] in_node(g, n, e);
        assert(e == m - 1);
        m - 1
    }
}

/// A node whose domains all carry the same load contributes no migration.
pub proof fn lemma_uniform_node_no_moves(g: DomainGroup, loads: Seq<DomLoad>, pct: int, m: int, room: int)
    requires
        loads.len() == g.doms@.len(),
        forall|d: int, e: int| #[trigger] in_node(g, m, d) && #[trigger] in_node(g, m, e) ==> loads[d].load == loads[e].load,
    ensures
        node_moves(g, loads, pct, m, room) == Seq::<Migration>::empty(),
{
    if has_doms(g, m) {
        let w = choose|d: int| in_node(g, m, d);
        assert(exists|e: int| 0 <= e < g.doms@.len() && #[trigger] in_node(g, m, e)) by {
            assert(in_node(g, m, w));
        }
        let p = lemma_first_max(g, loads, m, g.doms@.len() as int);
        let q = lemma_first_min(g, loads, m, g.doms@.len() as int);
        assert(is_push(g, loads, m, p));
        assert(is_pull(g, loads, m, q));
        lemma_push_unique(g, loads, m, p, push_of(g, loads, m));
        lemma_pull_unique(g, loads, m, q, pull_of(g, loads, m));
    }
    assert(node_moves(g, loads, pct, m, room) =~= Seq::<Migration>::empty());
}

/// Where every node's domains carry equal loads, a cycle issues no
/// migration.
pub proof fn lemma_uniform_load_no_migrations(g: DomainGroup, loads: Seq<DomLoad>, pct: int, n: int)
    requires
        loads.len() == g.doms@.len(),
        forall|d: int, e: int|
            0 <= d < g.doms@.len() && 0 <= e < g.doms@.len() && (#[trigger] g.doms@[d]).node == (#[trigger] g.doms@[e]).node
                ==> loads[d].load == loads[e].load,
    ensures
        plan(g, loads, pct, n) == Seq::<Migration>::empty(),
    decreases n,
{
    if n > 0 {
        lemma_uniform_load_no_migrations(g, loads, pct, n - 1);
        let m = n - 1;
        let prev = plan(g, loads, pct, m);
        assert forall|d: int, e: int| #[trigger] in_node(g, m, d) && #[trigger] in_node(g, m, e) implies loads[d].load
            == loads[e].load by {
            assert(g.doms@[d].node == g.doms@[e].node);
        }
        lemma_uniform_node_no_moves(g, loads, pct, m, MAX_MIGRATIONS - prev.len());
        assert(plan(g, loads, pct, n) =~= Seq::<Migration>::empty());
    }
}

/// A domain carrying three times its sibling's nonzero load is skewed
/// against it for any threshold under 200 percent.
pub proof fn lemma_triple_load_skewed(lo: int, pct: int)
    requires
        lo > 0,
        pct < 200,
    ensures
        skewed(3 * lo, lo, pct),
{
    assert((3 * lo - lo) * 100 > pct * lo) by (nonlinear_arith)
        requires
            lo > 0,
            pct < 200,
    ;
}

proof fn lemma_greedy_grows(ts: Seq<TaskLoad>, budget: int, room: int, i: int, j: int)
    requires
        0 <= i <= j,
    ensures
        greedy(ts, budget, room, i).0.len() <= greedy(ts, budget, room, j).0.len(),
    decreases j - i,
{
    if i < j {
        lemma_greedy_grows(ts, budget, room, i, j - 1);
    }
}

/// On a node whose most loaded domain is skewed against its least loaded
/// one, and whose most recent task fits in half the difference, a cycle with
/// room left moves at least one task, each from the former to the latter.
pub proof fn lemma_skewed_node_migrates(g: DomainGroup, loads: Seq<DomLoad>, pct: int, m: int, room: int)
    requires
        loads.len() == g.doms@.len(),
        g.doms@.len() <= usize::MAX,
        exists|d: int| #[trigger] in_node(g, m, d),
        room > 0,
        ({
            let p = push_of(g, loads, m);
            let q = pull_of(g, loads, m);
            &&& skewed(loads[p].load as int, loads[q].load as int, pct)
            &&& loads[p].tasks@.len() > 0
            &&& loads[p].tasks@[0].load <= (loads[p].load - loads[q].load) / 2
        }),
    ensures
        node_moves(g, loads, pct, m, room).len() > 0,
        forall|i: int|
            0 <= i < node_moves(g, loads, pct, m, room).len() ==> {
                &&& (#[trigger] node_moves(g, loads, pct, m, room)[i]).from == push_of(g, loads, m)
                &&& node_moves(g, loads, pct, m, room)[i].to == pull_of(g, loads, m)
                &&& g.doms@[push_of(g, loads, m)].node == m
                &&& g.doms@[pull_of(g, loads, m)].node == m
            },
{
    let w = choose|d: int| in_node(g, m, d);
    assert(exists|e: int| 0 <= e < g.doms@.len() && #[trigger] in_node(g, m, e)) by {
        assert(in_node(g, m, w));
    }
    let p0 = lemma_first_max(g, loads, m, g.doms@.len() as int);
    let q0 = lemma_first_min(g, loads, m, g.doms@.len() as int);
    assert(is_push(g, loads, m, p0));
    assert(is_pull(g, loads, m, q0));
    lemma_push_unique(g, loads, m, p0, push_of(g, loads, m));
    lemma_pull_unique(g, loads, m, q0, pull_of(g, loads, m));
    let p = push_of(g, loads, m);
    let q = pull_of(g, loads, m);
    let ts = loads[p].tasks@;
    let budget = (loads[p].load - loads[q].load) / 2;
    assert(greedy(ts, budget, room, 0).0.len() == 0);
    assert(greedy(ts, budget, room, 1).0.len() == 1);
    lemma_greedy_grows(ts, budget, room, 1, ts.len() as int);
    assert(has_doms(g, m));
    let sel = greedy(ts, budget, room, ts.len() as int).0;
    let f = |j: int| Migration { pid: ts[j].pid, from: p as usize, to: q as usize };
    assert(node_moves(g, loads, pct, m, room) == sel.map_values(f));
    assert(0 <= p < g.doms@.len() && 0 <= q < g.doms@.len());
    assert forall|i: int| 0 <= i < node_moves(g, loads, pct, m, room).len() implies {
        &&& (#[trigger] node_moves(g, loads, pct, m, room)[i]).from == push_of(g, loads, m)
        &&& node_moves(g, loads, pct, m, room)[i].to == pull_of(g, loads, m)
        &&& g.doms@[push_of(g, loads, m)].node == m
        &&& g.doms@[pull_of(g, loads, m)].node == m
    } by {
        assert(node_moves(g, loads, pct, m, room)[i] == f(sel[i]));
    }
}

/// The most and least loaded domains of node `n`, if it has any.
fn extremes(g: &DomainGroup, loads: &Vec<DomLoad>, n: usize) -> (r: Option<(usize, usize)>)
    requires
        loads@.len() == g.doms@.len(),
    ensures
        r.is_none() <==> !has_doms(*g, n as int),
        r.is_some() ==> is_push(*g, loads@, n as int, r.unwrap().0 as int) && is_pull(
            *g,
            loads@,
            n as int,
            r.unwrap().1 as int,
        ),
{
    let mut best: Option<(usize, usize)> = None;
    let mut d: usize = 0;
    while d < g.doms.len()
        invariant
            loads@.len() == g.doms@.len(),
            d <= g.doms@.len(),
            best.is_none() <==> forall|e: int| 0 <= e < d ==> !#[trigger] in_node(*g, n as int, e),
            best.is_some() ==> {
                let p = best.unwrap().0 as int;
                let q = best.unwrap().1 as int;
                &&& in_node(*g, n as int, p) && p < d
                &&& in_node(*g, n as int, q) && q < d
                &&& forall|e: int| #[trigger] in_node(*g, n as int, e) && e < d ==> loads@[e].load <= loads@[p].load
                &&& forall|e: int| #[trigger] in_node(*g, n as int, e) && e < p ==> loads@[e].load < loads@[p].load
                &&& forall|e: int| #[trigger] in_node(*g, n as int, e) && e < d ==> loads@[e].load >= loads@[q].load
                &&& forall|e: int| #[trigger] in_node(*g, n as int, e) && e < q ==> loads@[e].load > loads@[q].load
            },
        decreases g.doms.len() - d,
    {
        if g.doms[d].node == n {
            assert(in_node(*g, n as int, d as int));
            best = match best {
                None => Some((d, d)),
                Some((p, q)) => {
                    let np = if loads[d].load > loads[p].load { d } else { p };
                    let nq = if loads[d].load < loads[q].load { d } else { q };
                    Some((np, nq))
                },
            };
        }
        d = d + 1;
    }
    if best.is_none() {
        assert forall|e: int| !#[trigger] in_node(*g, n as int, e) by {}
    } else {
        assert(in_node(*g, n as int, best.unwrap().0 as int));
    }
    best
}

/// Appends the migrations picked among `ts` from domain `p` to domain `q`.
fn select(ts: &Vec<TaskLoad>, budget: u64, room: usize, p: usize, q: usize, moves: &mut Vec<Migration>)
    ensures
        final(moves)@ == old(moves)@ + greedy(ts@, budget as int, room as int, ts@.len() as int).0.map_values(
            |j: int| Migration { pid: ts@[j].pid, from: p, to: q },
        ),
        greedy(ts@, budget as int, room as int, ts@.len() as int).0.len() <= room,
{
    let ghost start = moves@;
    let ghost f = |j: int| Migration { pid: ts@[j].pid, from: p, to: q };
    let mut left: u64 = budget;
    let mut picked: usize = 0;
    let mut i: usize = 0;
    while i < ts.len()
        invariant
            i <= ts@.len(),
            f == (|j: int| Migration { pid: ts@[j].pid, from: p, to: q }),
            picked == greedy(ts@, budget as int, room as int, i as int).0.len(),
            left == greedy(ts@, budget as int, room as int, i as int).1,
            picked <= room,
            moves@ == start + greedy(ts@, budget as int, room as int, i as int).0.map_values(f),
        decreases ts.len() - i,
    {
        let ghost sel = greedy(ts@, budget as int, room as int, i as int).0;
        if picked < room && ts[i].load <= left {
            moves.push(Migration { pid: ts[i].pid, from: p, to: q });
            left = left - ts[i].load;
            picked = picked + 1;
            assert(sel.push(i as int).map_values(f) =~= sel.map_values(f).push(f(i as int)));
        }
        i = i + 1;
    }
}

/// Sum of the loads of node `n`'s domains below `d`.
pub open spec fn node_load(g: DomainGroup, loads: Seq<DomLoad>, n: int, d: int) -> int
    decreases d,
{
    if d <= 0 {
        0
    } else {
        node_load(g, loads, n, d - 1) + if g.doms@[d - 1].node == n {
            loads[d - 1].load as int
        } else {
            0
        }
    }
}

fn node_load_exec(g: &DomainGroup, loads: &Vec<DomLoad>, n: usize) -> (r: u64)
    requires
        loads@.len() == g.doms@.len(),
    ensures
        r == if node_load(*g, loads@, n as int, g.doms@.len() as int) <= u64::MAX {
            node_load(*g, loads@, n as int, g.doms@.len() as int)
        } else {
            u64::MAX as int
        },
{
    let mut acc: u64 = 0;
    let mut d: usize = 0;
    while d < g.doms.len()
        invariant
            loads@.len() == g.doms@.len(),
            d <= g.doms@.len(),
            acc == if node_load(*g, loads@, n as int, d as int) <= u64::MAX {
                node_load(*g, loads@, n as int, d as int)
            } else {
                u64::MAX as int
            },
            node_load(*g, loads@, n as int, d as int) >= 0,
        decreases g.doms.len() - d,
    {
        if g.doms[d].node == n {
            acc = if acc > u64::MAX - loads[d].load { u64::MAX } else { acc + loads[d].load };
        }
        d = d + 1;
    }
    acc
}

fn is_skewed(hi: u64, lo: u64, pct: u64) -> (r: bool)
    ensures
        r == skewed(hi as int, lo as int, pct as int),
{
    if hi <= lo {
        return false;
    }
    assert((pct as u128) * (lo as u128) <= u64::MAX * u64::MAX) by (nonlinear_arith)
        requires
            pct <= u64::MAX,
            lo <= u64::MAX,
    ;
    ((hi - lo) as u128) * 100 > (pct as u128) * (lo as u128)
}

/// One balancing cycle over every node: the migrations to issue, in node
/// order, and what was found on each node. `skew_pct` is the relative load
/// difference, in percent of the lighter domain, beyond which a node is
/// balanced. At most `MAX_MIGRATIONS` tasks move, each between two distinct
/// domains of one node.
pub fn load_balance(g: &DomainGroup, loads: &Vec<DomLoad>, skew_pct: u64) -> (r: (Vec<Migration>, Vec<NodeStats>))
    requires
        loads@.len() == g.doms@.len(),
    ensures
        r.0@ == plan(*g, loads@, skew_pct as int, g.nr_nodes as int),
        r.0@.len() <= MAX_MIGRATIONS,
        forall|i: int| 0 <= i < r.0@.len() ==> {
            &&& (#[trigger] r.0@[i]).from < g.doms@.len()
            &&& r.0@[i].to < g.doms@.len()
            &&& r.0@[i].from != r.0@[i].to
            &&& g.doms@[r.0@[i].from as int].node == g.doms@[r.0@[i].to as int].node
        },
        r.1@.len() == g.nr_nodes,
        forall|n: int| 0 <= n < r.1@.len() ==> (#[trigger] r.1@[n]).nr_migrations == node_moves(
            *g,
            loads@,
            skew_pct as int,
            n,
            MAX_MIGRATIONS - plan(*g, loads@, skew_pct as int, n).len(),
        ).len(),
        forall|n: int| 0 <= n < r.1@.len() ==> (#[trigger] r.1@[n]).node == n && r.1@[n].load == if node_load(
            *g,
            loads@,
            n,
            g.doms@.len() as int,
        ) <= u64::MAX {
            node_load(*g, loads@, n, g.doms@.len() as int)
        } else {
            u64::MAX as int
        },
{
    let mut moves: Vec<Migration> = Vec::new();
    let mut nodes: Vec<NodeStats> = Vec::new();
    let mut n: usize = 0;
    while n < g.nr_nodes
        invariant
            loads@.len() == g.doms@.len(),
            n <= g.nr_nodes,
            moves@ == plan(*g, loads@, skew_pct as int, n as int),
            moves@.len() <= MAX_MIGRATIONS,
            forall|i: int| 0 <= i < moves@.len() ==> {
                &&& (#[trigger] moves@[i]).from < g.doms@.len()
                &&& moves@[i].to < g.doms@.len()
                &&& moves@[i].from != moves@[i].to
                &&& g.doms@[moves@[i].from as int].node == g.doms@[moves@[i].to as int].node
            },
            nodes@.len() == n,
            forall|m: int| 0 <= m < n ==> (#[trigger] nodes@[m]).nr_migrations == node_moves(
                *g,
                loads@,
                skew_pct as int,
                m,
                MAX_MIGRATIONS - plan(*g, loads@, skew_pct as int, m).len(),
            ).len(),
            forall|m: int| 0 <= m < n ==> (#[trigger] nodes@[m]).node == m && nodes@[m].load == if node_load(
                *g,
                loads@,
                m,
                g.doms@.len() as int,
            ) <= u64::MAX {
                node_load(*g, loads@, m, g.doms@.len() as int)
            } else {
                u64::MAX as int
            },
        decreases g.nr_nodes - n,
    {
        let ghost prev = moves@;
        let before = moves.len();
        let room: usize = MAX_MIGRATIONS - moves.len();
        match extremes(g, loads, n) {
            None => {
                assert(node_moves(*g, loads@, skew_pct as int, n as int, room as int) =~= Seq::empty());
            },
            Some((p, q)) => {
                proof {
                    lemma_push_unique(*g, loads@, n as int, p as int, push_of(*g, loads@, n as int));
                    lemma_pull_unique(*g, loads@, n as int, q as int, pull_of(*g, loads@, n as int));
                }
                if is_skewed(loads[p].load, loads[q].load, skew_pct) {
                    let budget = (loads[p].load - loads[q].load) / 2;
                    select(&loads[p].tasks, budget, room, p, q, &mut moves);
                    assert forall|i: int| 0 <= i < moves@.len() implies {
                        &&& (#[trigger] moves@[i]).from < g.doms@.len()
                        &&& moves@[i].to < g.doms@.len()
                        &&& moves@[i].from != moves@[i].to
                        &&& g.doms@[moves@[i].from as int].node == g.doms@[moves@[i].to as int].node
                    } by {
                        if i >= prev.len() {
                            assert(moves@[i].from == p && moves@[i].to == q);
                        } else {
                            assert(moves@[i] == prev[i]);
                        }
                    }
                } else {
                    assert(node_moves(*g, loads@, skew_pct as int, n as int, room as int) =~= Seq::empty());
                }
            },
        }
        assert(moves@ =~= plan(*g, loads@, skew_pct as int, n as int + 1));
        let load = node_load_exec(g, loads, n);
        nodes.push(NodeStats { node: n, load, nr_migrations: moves.len() - before });
        n = n + 1;
    }
    (moves, nodes)
}

} // verus!
