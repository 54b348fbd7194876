//! Scheduling domains: the host's CPUs partitioned at a cache boundary and
//! grouped by NUMA node.
use vstd::prelude::*;
use crate::cpumask::Cpumask;
use crate::topology::TopoLevel;
use crate::topology::Topology;

verus! {

/// Failure to partition the host into domains.
#[derive(Clone, Copy, Debug, PartialEq, Eq)]
pub enum TopologyError {
    /// The host exposes no CPU.
    NoCpus,
    /// The cache level matches no boundary of the topology.
    NoCacheBoundary,
}

/// One domain: its sequential id, its node and its CPUs.
#[derive(Clone, Debug)]
pub struct Domain {
    pub id: usize,
    pub node: usize,
    pub mask: Cpumask,
}

/// All domains of the host.
#[derive(Clone, Debug)]
pub struct DomainGroup {
    pub doms: Vec<Domain>,
    pub nr_nodes: usize,
}

/// The topology level whose groups become domains for a cache level: the
/// last-level cache (level 3) or the per-core caches (level 2).
pub open spec fn domain_level(cache_level: u32) -> Option<TopoLevel> {
    if cache_level == 3 {
        Some(TopoLevel::Llc)
    } else if cache_level == 2 {
        Some(TopoLevel::Core)
    } else {
        None
    }
}

/// The node of group `d` of `level` (an LLC group or a core).
pub open spec fn group_node(t: Topology, level: TopoLevel, d: int) -> int {
    if level == TopoLevel::Llc {
        t.llc_node@[d] as int
    } else {
        t.llc_node@[t.core_llc@[d] as int] as int
    }
}

/// The group of `level` that CPU position `k` falls in.
pub open spec fn group_of(t: Topology, level: TopoLevel, k: int) -> int {
    if level == TopoLevel::Llc {
        t.llc_of(k)
    } else {
        t.core_of(k)
    }
}

impl DomainGroup {
    /// The domains are the groups of `level` of `t`, in order.
    pub open spec fn models(&self, t: Topology, level: TopoLevel) -> bool {
        &&& self.nr_nodes == t.nr_nodes
        &&& self.doms@.len() == t.level_len(level)
        &&& forall|d: int|
            0 <= d < self.doms@.len() ==> {
                &&& (#[trigger] self.doms@[d]).id == d
                &&& self.doms@[d].node == group_node(t, level, d)
                &&& self.doms@[d].mask@ == t.span_set(level, d)
                &&& self.doms@[d].mask.words@.len() == t.mask_words()
            }
    }

    /// Partitions the CPUs of `t` into one domain per group of the cache
    /// level.
    pub fn new(t: &Topology, cache_level: u32) -> (r: Result<DomainGroup, TopologyError>)
        requires
            t.wf(),
        ensures
            t.cpus@.len() == 0 ==> r == Err::<DomainGroup, TopologyError>(TopologyError::NoCpus),
            t.cpus@.len() > 0 && domain_level(cache_level).is_none() ==> r == Err::<
                DomainGroup,
                TopologyError,
            >(TopologyError::NoCacheBoundary),
            t.cpus@.len() > 0 && domain_level(cache_level).is_some() ==> r.is_ok()
                && r.unwrap().models(*t, domain_level(cache_level).unwrap()),
    {
        if t.cpus.len() == 0 {
            return Err(TopologyError::NoCpus);
        }
        let level = if cache_level == 3 {
            TopoLevel::Llc
        } else if cache_level == 2 {
            TopoLevel::Core
        } else {
            return Err(TopologyError::NoCacheBoundary);
        };
        let n: usize = if cache_level == 3 {
            t.llc_node.len()
        } else {
            t.core_llc.len()
        };
        let mut doms: Vec<Domain> = Vec::new();
        let mut d: usize = 0;
        while d < n
            invariant
                t.wf(),
                level == domain_level(cache_level).unwrap(),
                (cache_level == 3) == (level == TopoLevel::Llc),
                level == TopoLevel::Llc || level == TopoLevel::Core,
                n == t.level_len(level),
                d <= n,
                doms@.len() == d,
                forall|e: int|
                    0 <= e < d ==> {
                        &&& (#[trigger] doms@[e]).id == e
                        &&& doms@[e].node == group_node(*t, level, e)
                        &&& doms@[e].mask@ == t.span_set(level, e)
                        &&& doms@[e].mask.words@.len() == t.mask_words()
                    },
            decreases n - d,
        {
            let node = if cache_level == 3 {
                t.llc_node[d]
            } else {
                t.llc_node[t.core_llc[d]]
            };
            let mask = t.span(level, d);
            doms.push(Domain { id: d, node, mask });
            d = d + 1;
        }
        Ok(DomainGroup { doms, nr_nodes: t.nr_nodes })
    }

    /// The CPUs of the domains of node `n`.
    pub open spec fn node_set(&self, n: int) -> Set<int> {
        Set::new(
            |c: int|
                exists|e: int|
                    0 <= e < self.doms@.len() && self.doms@[e].node == n && (#[trigger] self.doms@[e]).mask@.contains(c),
        )
    }

    /// The mask of node `n`: the union of the masks of its domains.
    pub fn node_mask(&self, n: usize, nr_words: usize) -> (r: Cpumask)
        requires
            forall|d: int| 0 <= d < self.doms@.len() ==> (#[trigger] self.doms@[d]).mask.words@.len() == nr_words,
        ensures
            r.words@.len() == nr_words,
            r@ == self.node_set(n as int),
    {
        let mut m = Cpumask::new(nr_words);
        let mut d: usize = 0;
        while d < self.doms.len()
            invariant
                d <= self.doms@.len(),
                m.words@.len() == nr_words,
                forall|e: int| 0 <= e < self.doms@.len() ==> (#[trigger] self.doms@[e]).mask.words@.len() == nr_words,
                forall|c: int|
                    m@.contains(c) <==> exists|e: int|
                        0 <= e < d && self.doms@[e].node == n && (#[trigger] self.doms@[e]).mask@.contains(c),
            decreases self.doms.len() - d,
        {
            if self.doms[d].node == n {
                m = m.or(&self.doms[d].mask);
            }
            d = d + 1;
        }
        assert(m@ =~= self.node_set(n as int));
        m
    }

    pub fn nr_doms(&self) -> (r: usize)
        ensures
            r == self.doms@.len(),
    {
        self.doms.len()
    }

    pub fn nr_nodes(&self) -> (r: usize)
        ensures
            r == self.nr_nodes,
    {
        self.nr_nodes
    }

    /// The ids of the domains of node `node`, in increasing order.
    pub fn numa_doms(&self, node: usize) -> (r: Vec<usize>)
        ensures
            forall|i: int|
                0 <= i < r@.len() ==> r@[i] < self.doms@.len() && self.doms@[r@[i] as int].node
                    == node,
            forall|d: int|
                0 <= d < self.doms@.len() && self.doms@[d].node == node ==> r@.contains(
                    d as usize,
                ),
            forall|i: int, j: int| 0 <= i < j < r@.len() ==> r@[i] < r@[j],
    {
        let mut r: Vec<usize> = Vec::new();
        let mut i: usize = 0;
        while i < self.doms.len()
            invariant
                i <= self.doms@.len(),
                forall|x: int|
                    0 <= x < r@.len() ==> r@[x] < i && self.doms@[r@[x] as int].node == node,
                forall|d: int| 0 <= d < i && self.doms@[d].node == node ==> r@.contains(d as usize),
                forall|x: int, y: int| 0 <= x < y < r@.len() ==> r@[x] < r@[y],
            decreases self.doms.len() - i,
        {
            let ghost before = r@;
            if self.doms[i].node == node {
                r.push(i);
                assert(r@[r@.len() - 1] == i);
            }
            assert forall|d: int|
                0 <= d < i + 1 && self.doms@[d].node == node implies r@.contains(d as usize) by {
                if d < i {
                    let x = choose|x: int| 0 <= x < before.len() && before[x] == d as usize;
                    assert(r@[x] == d as usize);
                } else {
                    assert(r@[r@.len() - 1] == i);
                }
            }
            i = i + 1;
        }
        r
    }
}

/// The domains partition the host: together they hold every CPU, each holds
/// only CPUs of its own node, none is empty, and no two share a CPU (so
/// neither do two domains of one node).
pub proof fn lemma_domains_partition(t: Topology, level: TopoLevel, g: DomainGroup)
    requires
        t.wf(),
        level == TopoLevel::Llc || level == TopoLevel::Core,
        g.models(t, level),
    ensures
        forall|c: int|
            t.all_cpus().contains(c) <==> exists|d: int|
                0 <= d < g.doms@.len() && (#[trigger] g.doms@[d]).mask@.contains(c),
        forall|d: int, e: int|
            0 <= d < g.doms@.len() && 0 <= e < g.doms@.len() && d != e ==> (
            #[trigger] g.doms@[d]).mask@.disjoint((#[trigger] g.doms@[e]).mask@),
        forall|d: int|
            0 <= d < g.doms@.len() ==> (#[trigger] g.doms@[d]).mask@.subset_of(
                t.span_set(TopoLevel::Node, g.doms@[d].node as int),
            ),
        forall|d: int| 0 <= d < g.doms@.len() ==> !(#[trigger] g.doms@[d]).mask@.is_empty(),
{
    assert forall|c: int|
        t.all_cpus().contains(c) <==> exists|d: int|
            0 <= d < g.doms@.len() && (#[trigger] g.doms@[d]).mask@.contains(c) by {
        if t.all_cpus().contains(c) {
            let k = choose|k: int|
                0 <= k < t.cpus@.len() && t.in_span(TopoLevel::All, 0, k) && t.cpus@[k].id == c;
            let d = group_of(t, level, k);
            assert(t.in_span(level, d, k));
            assert(g.doms@[d].mask@.contains(c));
        }
        if exists|d: int| 0 <= d < g.doms@.len() && (#[trigger] g.doms@[d]).mask@.contains(c) {
            let d = choose|d: int|
                0 <= d < g.doms@.len() && (#[trigger] g.doms@[d]).mask@.contains(c);
            let k = choose|k: int|
                0 <= k < t.cpus@.len() && t.in_span(level, d, k) && t.cpus@[k].id == c;
            assert(t.in_span(TopoLevel::All, 0, k));
        }
    }
    assert forall|d: int, e: int|
        0 <= d < g.doms@.len() && 0 <= e < g.doms@.len() && d != e implies (
        #[trigger] g.doms@[d]).mask@.disjoint((#[trigger] g.doms@[e]).mask@) by {
        assert forall|c: int| !(g.doms@[d].mask@.contains(c) && g.doms@[e].mask@.contains(c)) by {
            if g.doms@[d].mask@.contains(c) && g.doms@[e].mask@.contains(c) {
                let j = choose|j: int|
                    0 <= j < t.cpus@.len() && t.in_span(level, d, j) && t.cpus@[j].id == c;
                let k = choose|k: int|
                    0 <= k < t.cpus@.len() && t.in_span(level, e, k) && t.cpus@[k].id == c;
                assert(j == k);
            }
        }
    }
    assert forall|d: int| 0 <= d < g.doms@.len() implies (#[trigger] g.doms@[d]).mask@.subset_of(
        t.span_set(TopoLevel::Node, g.doms@[d].node as int),
    ) by {
        assert forall|c: int| g.doms@[d].mask@.contains(c) implies t.span_set(
            TopoLevel::Node,
            g.doms@[d].node as int,
        ).contains(c) by {
            let k = choose|k: int|
                0 <= k < t.cpus@.len() && t.in_span(level, d, k) && t.cpus@[k].id == c;
            assert(t.in_span(TopoLevel::Node, g.doms@[d].node as int, k));
        }
    }
    assert forall|d: int| 0 <= d < g.doms@.len() implies !(#[trigger] g.doms@[d]).mask@.is_empty() by {
        let k: int = if level == TopoLevel::Core {
            assert(t.core_has_cpu(d));
            choose|k: int| 0 <= k < t.cpus@.len() && t.cpus@[k].core == d
        } else {
            assert(t.llc_has_core(d));
            let c = choose|c: int| 0 <= c < t.core_llc@.len() && t.core_llc@[c] == d;
            assert(t.core_has_cpu(c));
            choose|k: int| 0 <= k < t.cpus@.len() && t.cpus@[k].core == c
        };
        assert(t.in_span(level, d, k));
        assert(g.doms@[d].mask@.contains(t.cpus@[k].id as int));
    }
}

} // verus!
