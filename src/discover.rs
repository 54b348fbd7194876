//! Sequential ids for the host's topology: each level's hardware ids ranked
//! in increasing order, so the same host always gives the same layout.
use vstd::prelude::*;
use crate::topology::CpuInfo;
use crate::topology::Topology;
use crate::topology::MAX_CPUS;

verus! {

/// One CPU as the hardware names it: its id and the ids of its core, LLC
/// group and NUMA node.
#[derive(Clone, Copy, Debug, PartialEq, Eq)]
pub struct RawCpu {
    pub cpu: usize,
    pub core: usize,
    pub llc: usize,
    pub node: usize,
}

/// Why hardware ids do not describe a topology.
#[derive(Clone, Copy, Debug, PartialEq, Eq)]
pub enum RawTopologyError {
    /// No CPU at all.
    NoCpus,
    /// The id bound is beyond what the shared layout holds.
    TooManyCpus,
    /// A CPU id at or beyond the id bound.
    CpuOutOfRange,
    /// Two entries name the same CPU.
    DuplicateCpu,
    /// A core in two LLC groups, or an LLC group in two nodes.
    Inconsistent,
}

pub open spec fn strictly_increasing(v: Seq<usize>) -> bool {
    forall|i: int, j: int| 0 <= i < j < v.len() ==> v[i] < v[j]
}

/// Adds `x` to a strictly increasing list, keeping it so.
fn insert_sorted(v: &mut Vec<usize>, x: usize)
    requires
        strictly_increasing(old(v)@),
    ensures
        strictly_increasing(final(v)@),
        forall|y: usize| #[trigger] final(v)@.contains(y) <==> (old(v)@.contains(y) || y == x),
        !old(v)@.contains(x) ==> final(v)@.len() == old(v)@.len() + 1,
{
    let mut i: usize = 0;
    while i < v.len() && v[i] < x
        invariant
            i <= v@.len(),
            strictly_increasing(v@),
            forall|j: int| 0 <= j < i ==> v@[j] < x,
        decreases v.len() - i,
    {
        i = i + 1;
    }
    if i < v.len() && v[i] == x {
        assert(v@.contains(x) && v@[i as int] == x);
        return;
    }
    let ghost before = v@;
    assert(before == old(v)@);
    v.insert(i, x);
    assert forall|y: usize| #[trigger] v@.contains(y) <==> (before.contains(y) || y == x) by {
        if v@.contains(y) {
            let j = choose|j: int| 0 <= j < v@.len() && v@[j] == y;
            if j < i {
                assert(before[j] == y);
            } else if j > i {
                assert(before[j - 1] == y);
            }
        }
        if before.contains(y) {
            let j = choose|j: int| 0 <= j < before.len() && before[j] == y;
            if j < i {
                assert(v@[j] == y);
            } else {
                assert(v@[j + 1] == y);
            }
        }
        if y == x {
            assert(v@[i as int] == x);
        }
    }
}

/// The position of `x` in `v`.
fn index_of(v: &Vec<usize>, x: usize) -> (r: Option<usize>)
    ensures
        r.is_some() ==> r.unwrap() < v@.len() && v@[r.unwrap() as int] == x,
        r.is_none() ==> !v@.contains(x),
{
    let mut i: usize = 0;
    while i < v.len()
        invariant
            i <= v@.len(),
            forall|j: int| 0 <= j < i ==> v@[j] != x,
        decreases v.len() - i,
    {
        if v[i] == x {
            return Some(i);
        }
        i = i + 1;
    }
    None
}

/// The entries describe a topology: some CPU, ids within a bound the shared
/// layout holds, no CPU twice, each core in one LLC group and each LLC group
/// in one node.
pub open spec fn valid_raw(raw: Seq<RawCpu>, nr_cpu_ids: int) -> bool {
    &&& raw.len() > 0
    &&& nr_cpu_ids <= MAX_CPUS
    &&& forall|i: int| 0 <= i < raw.len() ==> (#[trigger] raw[i]).cpu < nr_cpu_ids
    &&& forall|i: int, j: int| 0 <= i < j < raw.len() ==> (#[trigger] raw[i]).cpu != (#[trigger] raw[j]).cpu
    &&& forall|i: int, j: int|
        0 <= i < raw.len() && 0 <= j < raw.len() && (#[trigger] raw[i]).core == (#[trigger] raw[j]).core
            ==> raw[i].llc == raw[j].llc
    &&& forall|i: int, j: int|
        0 <= i < raw.len() && 0 <= j < raw.len() && (#[trigger] raw[i]).llc == (#[trigger] raw[j]).llc
            ==> raw[i].node == raw[j].node
}

/// Two entries put one core in two LLC groups, or one LLC group in two
/// nodes.
pub open spec fn inconsistent_pair(x: RawCpu, y: RawCpu) -> bool {
    (x.core == y.core && x.llc != y.llc) || (x.llc == y.llc && x.node != y.node)
}

/// `t` numbers the entries' nodes, LLC groups, cores and CPUs by the rank of
/// their hardware ids, listed increasing in `ids`.
pub open spec fn ranks(t: Topology, ids: TopologyIds, raw: Seq<RawCpu>) -> bool {
    &&& strictly_increasing(ids.node_ids@)
    &&& strictly_increasing(ids.llc_ids@)
    &&& strictly_increasing(ids.core_ids@)
    &&& strictly_increasing(t.cpus@.map_values(|c: CpuInfo| c.id))
    &&& t.nr_nodes == ids.node_ids@.len()
    &&& t.llc_node@.len() == ids.llc_ids@.len()
    &&& t.core_llc@.len() == ids.core_ids@.len()
    &&& forall|x: usize| #[trigger] ids.node_ids@.contains(x) <==> exists|i: int| 0 <= i < raw.len() && (#[trigger] raw[i]).node == x
    &&& forall|x: usize| #[trigger] ids.llc_ids@.contains(x) <==> exists|i: int| 0 <= i < raw.len() && (#[trigger] raw[i]).llc == x
    &&& forall|x: usize| #[trigger] ids.core_ids@.contains(x) <==> exists|i: int| 0 <= i < raw.len() && (#[trigger] raw[i]).core == x
    &&& t.cpus@.len() == raw.len()
    &&& forall|i: int| 0 <= i < raw.len() ==> #[trigger] entry_placed(t, raw, i)
    &&& forall|k: int| 0 <= k < t.cpus@.len() ==> #[trigger] cpu_traced(t, ids, raw, k)
}

/// Entry `i` is the CPU at some position.
pub open spec fn entry_placed(t: Topology, raw: Seq<RawCpu>, i: int) -> bool {
    exists|k: int| 0 <= k < t.cpus@.len() && #[trigger] t.cpus@[k].id == raw[i].cpu
}

/// The CPU at position `k` is entry `i`, with the same core, LLC group and
/// node.
pub open spec fn cpu_is_entry(t: Topology, ids: TopologyIds, raw: Seq<RawCpu>, k: int, i: int) -> bool {
    let c = t.cpus@[k].core as int;
    let l = t.core_llc@[c] as int;
    &&& 0 <= i < raw.len()
    &&& raw[i].cpu == t.cpus@[k].id
    &&& ids.core_ids@[c] == raw[i].core
    &&& ids.llc_ids@[l] == raw[i].llc
    &&& ids.node_ids@[t.llc_node@[l] as int] == raw[i].node
}

/// The CPU at position `k` is one of the entries.
pub open spec fn cpu_traced(t: Topology, ids: TopologyIds, raw: Seq<RawCpu>, k: int) -> bool {
    exists|i: int| #[trigger] cpu_is_entry(t, ids, raw, k, i)
}

/// The hardware ids behind each sequential id.
#[derive(Clone, Debug)]
pub struct TopologyIds {
    pub node_ids: Vec<usize>,
    pub llc_ids: Vec<usize>,
    pub core_ids: Vec<usize>,
}


proof fn lemma_unique_pos(v: Seq<usize>, a: int, b: int)
    requires
        strictly_increasing(v),
        0 <= a < v.len(),
        0 <= b < v.len(),
        v[a] == v[b],
    ensures
        a == b,
{
    if a < b {
        assert(v[a] < v[b]);
    } else if b < a {
        assert(v[b] < v[a]);
    }
}

/// The first entry whose `field` is `x`; `field` is 0 for the core, 1 for
/// the LLC group, 2 for the CPU.
fn find_entry(raw: &Vec<RawCpu>, field: u8, x: usize) -> (r: usize)
    requires
        exists|i: int| 0 <= i < raw@.len() && field_of(#[trigger] raw@[i], field) == x,
    ensures
        r < raw@.len(),
        field_of(raw@[r as int], field) == x,
{
    let mut i: usize = 0;
    while i < raw.len()
        invariant
            i <= raw@.len(),
            forall|j: int| 0 <= j < i ==> field_of(#[trigger] raw@[j], field) != x,
            exists|j: int| 0 <= j < raw@.len() && field_of(#[trigger] raw@[j], field) == x,
        decreases raw.len() - i,
    {
        let e = raw[i];
        let f = if field == 0 {
            e.core
        } else if field == 1 {
            e.llc
        } else {
            e.cpu
        };
        if f == x {
            return i;
        }
        i = i + 1;
    }
    proof {
        let j = choose|j: int| 0 <= j < raw@.len() && field_of(#[trigger] raw@[j], field) == x;
        assert(field_of(raw@[j], field) != x);
    }
    0
}

pub open spec fn field_of(e: RawCpu, field: u8) -> usize {
    if field == 0 {
        e.core
    } else if field == 1 {
        e.llc
    } else {
        e.cpu
    }
}

/// Numbers the host's nodes, LLC groups, cores and CPUs by the rank of
/// their hardware ids, after checking that the entries describe a topology.
pub fn from_raw(raw: &Vec<RawCpu>, nr_cpu_ids: usize) -> (r: Result<(Topology, TopologyIds), RawTopologyError>)
    ensures
        raw@.len() == 0 ==> r == Err::<(Topology, TopologyIds), RawTopologyError>(RawTopologyError::NoCpus),
        r.is_ok() <==> valid_raw(raw@, nr_cpu_ids as int),
        r.is_ok() ==> {
            let (t, ids) = r.unwrap();
            &&& t.wf()
            &&& t.nr_cpu_ids == nr_cpu_ids
            &&& ranks(t, ids, raw@)
        },
        r == Err::<(Topology, TopologyIds), RawTopologyError>(RawTopologyError::TooManyCpus) ==> nr_cpu_ids > MAX_CPUS,
        r == Err::<(Topology, TopologyIds), RawTopologyError>(RawTopologyError::CpuOutOfRange) ==> exists|i: int|
            0 <= i < raw@.len() && (#[trigger] raw@[i]).cpu >= nr_cpu_ids,
        r == Err::<(Topology, TopologyIds), RawTopologyError>(RawTopologyError::DuplicateCpu) ==> exists|i: int, j: int|
            0 <= i < j < raw@.len() && (#[trigger] raw@[i]).cpu == (#[trigger] raw@[j]).cpu,
        r == Err::<(Topology, TopologyIds), RawTopologyError>(RawTopologyError::Inconsistent) ==> exists|i: int, j: int|
            0 <= i < raw@.len() && 0 <= j < raw@.len() && inconsistent_pair(#[trigger] raw@[i], #[trigger] raw@[j]),
{
    let n = raw.len();
    if n == 0 {
        return Err(RawTopologyError::NoCpus);
    }
    if nr_cpu_ids > MAX_CPUS {
        return Err(RawTopologyError::TooManyCpus);
    }
    let mut node_ids: Vec<usize> = Vec::new();
    let mut llc_ids: Vec<usize> = Vec::new();
    let mut core_ids: Vec<usize> = Vec::new();
    let mut cpu_ids: Vec<usize> = Vec::new();
    let mut i: usize = 0;
    while i < n
        invariant
            n == raw@.len(),
            i <= n,
            strictly_increasing(node_ids@),
            strictly_increasing(llc_ids@),
            strictly_increasing(core_ids@),
            strictly_increasing(cpu_ids@),
            forall|x: usize| #[trigger] node_ids@.contains(x) <==> exists|j: int| 0 <= j < i && (#[trigger] raw@[j]).node == x,
            forall|x: usize| #[trigger] llc_ids@.contains(x) <==> exists|j: int| 0 <= j < i && (#[trigger] raw@[j]).llc == x,
            forall|x: usize| #[trigger] core_ids@.contains(x) <==> exists|j: int| 0 <= j < i && (#[trigger] raw@[j]).core == x,
            forall|x: usize| #[trigger] cpu_ids@.contains(x) <==> exists|j: int| 0 <= j < i && (#[trigger] raw@[j]).cpu == x,
            cpu_ids@.len() == i,
            forall|j: int| 0 <= j < i ==> (#[trigger] raw@[j]).cpu < nr_cpu_ids,
            forall|a: int, b: int| 0 <= a < b < i ==> (#[trigger] raw@[a]).cpu != (#[trigger] raw@[b]).cpu,
        decreases n - i,
    {
        let e = raw[i];
        if e.cpu >= nr_cpu_ids {
            assert(raw@[i as int].cpu >= nr_cpu_ids);
            return Err(RawTopologyError::CpuOutOfRange);
        }
        if index_of(&cpu_ids, e.cpu).is_some() {
            proof {
                assert(cpu_ids@.contains(e.cpu));
                let j = choose|j: int| 0 <= j < i && (#[trigger] raw@[j]).cpu == e.cpu;
                assert(raw@[j].cpu == raw@[i as int].cpu);
            }
            return Err(RawTopologyError::DuplicateCpu);
        }
        let ghost (pn, pl, pc, pu) = (node_ids@, llc_ids@, core_ids@, cpu_ids@);
        insert_sorted(&mut node_ids, e.node);
        insert_sorted(&mut llc_ids, e.llc);
        insert_sorted(&mut core_ids, e.core);
        insert_sorted(&mut cpu_ids, e.cpu);
        proof {
            assert forall|x: usize| #[trigger] node_ids@.contains(x) <==> exists|j: int| 0 <= j < i + 1 && (#[trigger] raw@[j]).node == x by {
                if pn.contains(x) {
                    let j = choose|j: int| 0 <= j < i && (#[trigger] raw@[j]).node == x;
                }
                if exists|j: int| 0 <= j < i + 1 && (#[trigger] raw@[j]).node == x {
                    let j = choose|j: int| 0 <= j < i + 1 && (#[trigger] raw@[j]).node == x;
                    if j < i {
                        assert(pn.contains(x));
                    }
                }
            }
            assert forall|x: usize| #[trigger] llc_ids@.contains(x) <==> exists|j: int| 0 <= j < i + 1 && (#[trigger] raw@[j]).llc == x by {
                if pl.contains(x) {
                    let j = choose|j: int| 0 <= j < i && (#[trigger] raw@[j]).llc == x;
                }
                if exists|j: int| 0 <= j < i + 1 && (#[trigger] raw@[j]).llc == x {
                    let j = choose|j: int| 0 <= j < i + 1 && (#[trigger] raw@[j]).llc == x;
                    if j < i {
                        assert(pl.contains(x));
                    }
                }
            }
            assert forall|x: usize| #[trigger] core_ids@.contains(x) <==> exists|j: int| 0 <= j < i + 1 && (#[trigger] raw@[j]).core == x by {
                if pc.contains(x) {
                    let j = choose|j: int| 0 <= j < i && (#[trigger] raw@[j]).core == x;
                }
                if exists|j: int| 0 <= j < i + 1 && (#[trigger] raw@[j]).core == x {
                    let j = choose|j: int| 0 <= j < i + 1 && (#[trigger] raw@[j]).core == x;
                    if j < i {
                        assert(pc.contains(x));
                    }
                }
            }
            assert forall|x: usize| #[trigger] cpu_ids@.contains(x) <==> exists|j: int| 0 <= j < i + 1 && (#[trigger] raw@[j]).cpu == x by {
                if pu.contains(x) {
                    let j = choose|j: int| 0 <= j < i && (#[trigger] raw@[j]).cpu == x;
                }
                if exists|j: int| 0 <= j < i + 1 && (#[trigger] raw@[j]).cpu == x {
                    let j = choose|j: int| 0 <= j < i + 1 && (#[trigger] raw@[j]).cpu == x;
                    if j < i {
                        assert(pu.contains(x));
                    }
                }
            }
            assert forall|a: int, b: int| 0 <= a < b < i + 1 implies (#[trigger] raw@[a]).cpu != (#[trigger] raw@[b]).cpu by {
                if b == i {
                    if raw@[a].cpu == raw@[b].cpu {
                        assert(pu.contains(raw@[a].cpu));
                    }
                }
            }
        }
        i = i + 1;
    }
    // Each core lies in one LLC group and each LLC group in one node.
    let mut a: usize = 0;
    while a < n
        invariant
            n == raw@.len(),
            a <= n,
            forall|x: int, y: int|
                0 <= x < a && 0 <= y < n && (#[trigger] raw@[x]).core == (#[trigger] raw@[y]).core ==> raw@[x].llc == raw@[y].llc,
            forall|x: int, y: int|
                0 <= x < a && 0 <= y < n && (#[trigger] raw@[x]).llc == (#[trigger] raw@[y]).llc ==> raw@[x].node == raw@[y].node,
        decreases n - a,
    {
        let mut b: usize = 0;
        while b < n
            invariant
                n == raw@.len(),
                a < n,
                b <= n,
                forall|x: int, y: int|
                    0 <= x < a && 0 <= y < n && (#[trigger] raw@[x]).core == (#[trigger] raw@[y]).core ==> raw@[x].llc == raw@[y].llc,
                forall|x: int, y: int|
                    0 <= x < a && 0 <= y < n && (#[trigger] raw@[x]).llc == (#[trigger] raw@[y]).llc ==> raw@[x].node == raw@[y].node,
                forall|y: int| 0 <= y < b && raw@[a as int].core == (#[trigger] raw@[y]).core ==> raw@[a as int].llc == raw@[y].llc,
                forall|y: int| 0 <= y < b && raw@[a as int].llc == (#[trigger] raw@[y]).llc ==> raw@[a as int].node == raw@[y].node,
            decreases n - b,
        {
            let x = raw[a];
            let y = raw[b];
            if (x.core == y.core && x.llc != y.llc) || (x.llc == y.llc && x.node != y.node) {
                assert(!valid_raw(raw@, nr_cpu_ids as int)) by {
                    if valid_raw(raw@, nr_cpu_ids as int) {
                        assert(raw@[a as int].core == raw@[b as int].core ==> raw@[a as int].llc == raw@[b as int].llc);
                        assert(raw@[a as int].llc == raw@[b as int].llc ==> raw@[a as int].node == raw@[b as int].node);
                    }
                }
                assert(inconsistent_pair(raw@[a as int], raw@[b as int]));
                return Err(RawTopologyError::Inconsistent);
            }
            b = b + 1;
        }
        a = a + 1;
    }
    assert(valid_raw(raw@, nr_cpu_ids as int));
    // The LLC group of each core.
    let mut core_llc: Vec<usize> = Vec::new();
    let mut c: usize = 0;
    while c < core_ids.len()
        invariant
            n == raw@.len(),
            valid_raw(raw@, nr_cpu_ids as int),
            c <= core_ids@.len(),
            core_llc@.len() == c,
            forall|x: usize| #[trigger] llc_ids@.contains(x) <==> exists|j: int| 0 <= j < n && (#[trigger] raw@[j]).llc == x,
            forall|x: usize| #[trigger] core_ids@.contains(x) <==> exists|j: int| 0 <= j < n && (#[trigger] raw@[j]).core == x,
            forall|d: int| 0 <= d < c ==> (#[trigger] core_llc@[d]) < llc_ids@.len(),
            forall|d: int, e: int|
                0 <= d < c && 0 <= e < n && (#[trigger] raw@[e]).core == core_ids@[d] ==> llc_ids@[(#[trigger] core_llc@[d]) as int] == raw@[e].llc,
        decreases core_ids.len() - c,
    {
        assert(core_ids@.contains(core_ids@[c as int]));
        let e = find_entry(raw, 0, core_ids[c]);
        let l = index_of(&llc_ids, raw[e].llc);
        assert(llc_ids@.contains(raw@[e as int].llc));
        let l = l.unwrap();
        core_llc.push(l);
        c = c + 1;
    }
    // The node of each LLC group.
    let mut llc_node: Vec<usize> = Vec::new();
    let mut l: usize = 0;
    while l < llc_ids.len()
        invariant
            n == raw@.len(),
            valid_raw(raw@, nr_cpu_ids as int),
            l <= llc_ids@.len(),
            llc_node@.len() == l,
            forall|x: usize| #[trigger] node_ids@.contains(x) <==> exists|j: int| 0 <= j < n && (#[trigger] raw@[j]).node == x,
            forall|x: usize| #[trigger] llc_ids@.contains(x) <==> exists|j: int| 0 <= j < n && (#[trigger] raw@[j]).llc == x,
            forall|d: int| 0 <= d < l ==> (#[trigger] llc_node@[d]) < node_ids@.len(),
            forall|d: int, e: int|
                0 <= d < l && 0 <= e < n && (#[trigger] raw@[e]).llc == llc_ids@[d] ==> node_ids@[(#[trigger] llc_node@[d]) as int] == raw@[e].node,
        decreases llc_ids.len() - l,
    {
        assert(llc_ids@.contains(llc_ids@[l as int]));
        let e = find_entry(raw, 1, llc_ids[l]);
        let m = index_of(&node_ids, raw[e].node);
        assert(node_ids@.contains(raw@[e as int].node));
        let m = m.unwrap();
        llc_node.push(m);
        l = l + 1;
    }
    // Each CPU, in id order, with its core.
    let mut cpus: Vec<CpuInfo> = Vec::new();
    let mut k: usize = 0;
    while k < cpu_ids.len()
        invariant
            n == raw@.len(),
            valid_raw(raw@, nr_cpu_ids as int),
            k <= cpu_ids@.len(),
            cpus@.len() == k,
            forall|x: usize| #[trigger] core_ids@.contains(x) <==> exists|j: int| 0 <= j < n && (#[trigger] raw@[j]).core == x,
            forall|x: usize| #[trigger] cpu_ids@.contains(x) <==> exists|j: int| 0 <= j < n && (#[trigger] raw@[j]).cpu == x,
            forall|d: int| 0 <= d < k ==> (#[trigger] cpus@[d]).core < core_ids@.len() && cpus@[d].id == cpu_ids@[d],
            forall|d: int, e: int|
                0 <= d < k && 0 <= e < n && (#[trigger] raw@[e]).cpu == cpu_ids@[d] ==> core_ids@[(#[trigger] cpus@[d]).core as int] == raw@[e].core,
        decreases cpu_ids.len() - k,
    {
        assert(cpu_ids@.contains(cpu_ids@[k as int]));
        let e = find_entry(raw, 2, cpu_ids[k]);
        let cc = index_of(&core_ids, raw[e].core);
        assert(core_ids@.contains(raw@[e as int].core));
        let cc = cc.unwrap();
        cpus.push(CpuInfo { id: cpu_ids[k], core: cc });
        proof {
            assert forall|d: int, f: int|
                0 <= d < k + 1 && 0 <= f < n && (#[trigger] raw@[f]).cpu == cpu_ids@[d] implies core_ids@[(#[trigger] cpus@[d]).core as int] == raw@[f].core by {
                if d == k && f != e {
                    assert(raw@[f].cpu == raw@[e as int].cpu);
                }
            }
        }
        k = k + 1;
    }
    let t = Topology { nr_nodes: node_ids.len(), llc_node, core_llc, cpus, nr_cpu_ids };
    let ids = TopologyIds { node_ids, llc_ids, core_ids };
    proof {
        lemma_from_raw_wf(t, ids, cpu_ids@, raw@);
    }
    Ok((t, ids))
}

proof fn lemma_from_raw_wf(t: Topology, ids: TopologyIds, cpu_ids: Seq<usize>, raw: Seq<RawCpu>)
    requires
        valid_raw(raw, t.nr_cpu_ids as int),
        strictly_increasing(ids.node_ids@),
        strictly_increasing(ids.llc_ids@),
        strictly_increasing(ids.core_ids@),
        strictly_increasing(cpu_ids),
        cpu_ids.len() == raw.len(),
        t.nr_nodes == ids.node_ids@.len(),
        t.llc_node@.len() == ids.llc_ids@.len(),
        t.core_llc@.len() == ids.core_ids@.len(),
        t.cpus@.len() == cpu_ids.len(),
        forall|x: usize| #[trigger] ids.node_ids@.contains(x) <==> exists|j: int| 0 <= j < raw.len() && (#[trigger] raw[j]).node == x,
        forall|x: usize| #[trigger] ids.llc_ids@.contains(x) <==> exists|j: int| 0 <= j < raw.len() && (#[trigger] raw[j]).llc == x,
        forall|x: usize| #[trigger] ids.core_ids@.contains(x) <==> exists|j: int| 0 <= j < raw.len() && (#[trigger] raw[j]).core == x,
        forall|x: usize| #[trigger] cpu_ids.contains(x) <==> exists|j: int| 0 <= j < raw.len() && (#[trigger] raw[j]).cpu == x,
        forall|d: int| 0 <= d < t.core_llc@.len() ==> (#[trigger] t.core_llc@[d]) < ids.llc_ids@.len(),
        forall|d: int, e: int|
            0 <= d < t.core_llc@.len() && 0 <= e < raw.len() && (#[trigger] raw[e]).core == ids.core_ids@[d] ==> ids.llc_ids@[(#[trigger] t.core_llc@[d]) as int] == raw[e].llc,
        forall|d: int| 0 <= d < t.llc_node@.len() ==> (#[trigger] t.llc_node@[d]) < ids.node_ids@.len(),
        forall|d: int, e: int|
            0 <= d < t.llc_node@.len() && 0 <= e < raw.len() && (#[trigger] raw[e]).llc == ids.llc_ids@[d] ==> ids.node_ids@[(#[trigger] t.llc_node@[d]) as int] == raw[e].node,
        forall|d: int| 0 <= d < t.cpus@.len() ==> (#[trigger] t.cpus@[d]).core < ids.core_ids@.len() && t.cpus@[d].id == cpu_ids[d],
        forall|d: int, e: int|
            0 <= d < t.cpus@.len() && 0 <= e < raw.len() && (#[trigger] raw[e]).cpu == cpu_ids[d] ==> ids.core_ids@[(#[trigger] t.cpus@[d]).core as int] == raw[e].core,
    ensures
        t.wf(),
        ranks(t, ids, raw),
{
    assert forall|k: int| 0 <= k < t.cpus@.len() implies t.cpus@[k].id < t.nr_cpu_ids by {
        assert(cpu_ids.contains(cpu_ids[k]));
        let e = choose|j: int| 0 <= j < raw.len() && (#[trigger] raw[j]).cpu == cpu_ids[k];
    }
    assert forall|j: int, k: int| 0 <= j < t.cpus@.len() && 0 <= k < t.cpus@.len() && j != k implies t.cpus@[j].id != t.cpus@[k].id by {
        if j < k {
            assert(cpu_ids[j] < cpu_ids[k]);
        } else {
            assert(cpu_ids[k] < cpu_ids[j]);
        }
    }
    assert forall|c: int| 0 <= c < t.core_llc@.len() implies #[trigger] t.core_has_cpu(c) by {
        assert(ids.core_ids@.contains(ids.core_ids@[c]));
        let e = choose|j: int| 0 <= j < raw.len() && (#[trigger] raw[j]).core == ids.core_ids@[c];
        assert(cpu_ids.contains(raw[e].cpu));
        let k = choose|k: int| 0 <= k < cpu_ids.len() && cpu_ids[k] == raw[e].cpu;
        assert(ids.core_ids@[t.cpus@[k].core as int] == raw[e].core);
        lemma_unique_pos(ids.core_ids@, t.cpus@[k].core as int, c);
    }
    assert forall|l: int| 0 <= l < t.llc_node@.len() implies #[trigger] t.llc_has_core(l) by {
        assert(ids.llc_ids@.contains(ids.llc_ids@[l]));
        let e = choose|j: int| 0 <= j < raw.len() && (#[trigger] raw[j]).llc == ids.llc_ids@[l];
        assert(ids.core_ids@.contains(raw[e].core));
        let c = choose|c: int| 0 <= c < ids.core_ids@.len() && ids.core_ids@[c] == raw[e].core;
        assert(ids.llc_ids@[t.core_llc@[c] as int] == raw[e].llc);
        lemma_unique_pos(ids.llc_ids@, t.core_llc@[c] as int, l);
    }
    assert forall|m: int| 0 <= m < t.nr_nodes implies #[trigger] t.node_has_llc(m) by {
        assert(ids.node_ids@.contains(ids.node_ids@[m]));
        let e = choose|j: int| 0 <= j < raw.len() && (#[trigger] raw[j]).node == ids.node_ids@[m];
        assert(ids.llc_ids@.contains(raw[e].llc));
        let l = choose|l: int| 0 <= l < ids.llc_ids@.len() && ids.llc_ids@[l] == raw[e].llc;
        assert(ids.node_ids@[t.llc_node@[l] as int] == raw[e].node);
        lemma_unique_pos(ids.node_ids@, t.llc_node@[l] as int, m);
    }
    assert(t.cpus@.map_values(|c: CpuInfo| c.id) =~= cpu_ids);
    assert forall|i: int| 0 <= i < raw.len() implies #[trigger] entry_placed(t, raw, i) by {
        assert(cpu_ids.contains(raw[i].cpu));
        let k = choose|k: int| 0 <= k < cpu_ids.len() && cpu_ids[k] == raw[i].cpu;
        assert(t.cpus@[k].id == raw[i].cpu);
    }
    assert forall|k: int| 0 <= k < t.cpus@.len() implies #[trigger] cpu_traced(t, ids, raw, k) by {
        assert(cpu_ids.contains(cpu_ids[k]));
        let e = choose|j: int| 0 <= j < raw.len() && (#[trigger] raw[j]).cpu == cpu_ids[k];
        let c = t.cpus@[k].core as int;
        assert(ids.core_ids@[c] == raw[e].core);
        assert(ids.llc_ids@[t.core_llc@[c] as int] == raw[e].llc);
        assert(ids.node_ids@[t.llc_node@[t.core_llc@[c] as int] as int] == raw[e].node);
        assert(cpu_is_entry(t, ids, raw, k, e));
    }
}

} // verus!
