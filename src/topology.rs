//! The host topology as sequential ids: each CPU names its core, each core
//! its last-level cache group, each LLC group its NUMA node.
use vstd::prelude::*;
use crate::cpumask::Cpumask;

verus! {

/// Largest number of CPU ids the shared layout holds.
pub const MAX_CPUS: usize = 512;

/// Largest number of domains the shared layout holds.
pub const MAX_DOMS: usize = 64;

/// One CPU: its id and the sequential id of its core.
#[derive(Clone, Copy, Debug, PartialEq, Eq)]
pub struct CpuInfo {
    pub id: usize,
    pub core: usize,
}

/// The host's CPUs and how they group into cores, LLC groups and nodes.
#[derive(Clone, Debug)]
pub struct Topology {
    pub nr_nodes: usize,
    /// The node of each LLC group.
    pub llc_node: Vec<usize>,
    /// The LLC group of each core.
    pub core_llc: Vec<usize>,
    pub cpus: Vec<CpuInfo>,
    /// Every CPU id is below this bound.
    pub nr_cpu_ids: usize,
}

/// A level of the topology, the order in which they are mirrored.
#[derive(Clone, Copy, Debug, PartialEq, Eq)]
pub enum TopoLevel {
    All,
    Node,
    Llc,
    Core,
    Cpu,
}

impl Topology {
    /// Ids are in range, CPU ids are distinct, and no node, LLC group or
    /// core is left without CPUs.
    pub open spec fn wf(&self) -> bool {
        &&& self.nr_cpu_ids <= MAX_CPUS
        &&& forall|l: int| 0 <= l < self.llc_node@.len() ==> self.llc_node@[l] < self.nr_nodes
        &&& forall|c: int|
            0 <= c < self.core_llc@.len() ==> self.core_llc@[c] < self.llc_node@.len()
        &&& forall|k: int|
            0 <= k < self.cpus@.len() ==> {
                &&& self.cpus@[k].core < self.core_llc@.len()
                &&& self.cpus@[k].id < self.nr_cpu_ids
            }
        &&& forall|j: int, k: int|
            0 <= j < self.cpus@.len() && 0 <= k < self.cpus@.len() && j != k
                ==> self.cpus@[j].id != self.cpus@[k].id
        &&& forall|c: int| 0 <= c < self.core_llc@.len() ==> #[trigger] self.core_has_cpu(c)
        &&& forall|l: int| 0 <= l < self.llc_node@.len() ==> #[trigger] self.llc_has_core(l)
        &&& forall|n: int| 0 <= n < self.nr_nodes ==> #[trigger] self.node_has_llc(n)
    }

    pub open spec fn core_has_cpu(&self, c: int) -> bool {
        exists|k: int| 0 <= k < self.cpus@.len() && self.cpus@[k].core == c
    }

    pub open spec fn llc_has_core(&self, l: int) -> bool {
        exists|c: int| 0 <= c < self.core_llc@.len() && self.core_llc@[c] == l
    }

    pub open spec fn node_has_llc(&self, n: int) -> bool {
        exists|l: int| 0 <= l < self.llc_node@.len() && self.llc_node@[l] == n
    }

    pub open spec fn core_of(&self, k: int) -> int {
        self.cpus@[k].core as int
    }

    pub open spec fn llc_of(&self, k: int) -> int {
        self.core_llc@[self.core_of(k)] as int
    }

    pub open spec fn node_of(&self, k: int) -> int {
        self.llc_node@[self.llc_of(k)] as int
    }

    /// The CPU at position `k` belongs to topology node `id` of `level`.
    pub open spec fn in_span(&self, level: TopoLevel, id: int, k: int) -> bool {
        match level {
            TopoLevel::All => true,
            TopoLevel::Node => self.node_of(k) == id,
            TopoLevel::Llc => self.llc_of(k) == id,
            TopoLevel::Core => self.core_of(k) == id,
            TopoLevel::Cpu => k == id,
        }
    }

    /// The CPU ids of topology node `id` of `level`.
    pub open spec fn span_set(&self, level: TopoLevel, id: int) -> Set<int> {
        Set::new(
            |c: int|
                exists|k: int|
                    0 <= k < self.cpus@.len() && self.in_span(level, id, k) && self.cpus@[k].id
                        == c,
        )
    }

    /// Every CPU id of the host.
    pub open spec fn all_cpus(&self) -> Set<int> {
        self.span_set(TopoLevel::All, 0)
    }

    /// Number of 64-bit words of a mask that holds every CPU id.
    pub open spec fn mask_words(&self) -> int {
        (self.nr_cpu_ids as int + 63) / 64
    }

    /// Number of topology nodes of `level`.
    pub open spec fn level_len(&self, level: TopoLevel) -> int {
        match level {
            TopoLevel::All => 1,
            TopoLevel::Node => self.nr_nodes as int,
            TopoLevel::Llc => self.llc_node@.len() as int,
            TopoLevel::Core => self.core_llc@.len() as int,
            TopoLevel::Cpu => self.cpus@.len() as int,
        }
    }

    /// Number of 64-bit words of a mask that holds every CPU id.
    pub fn nr_mask_words(&self) -> (r: usize)
        requires
            self.wf(),
        ensures
            r == self.mask_words(),
    {
        (self.nr_cpu_ids + 63) / 64
    }

    fn in_span_exec(&self, level: TopoLevel, id: usize, k: usize) -> (r: bool)
        requires
            self.wf(),
            k < self.cpus@.len(),
        ensures
            r == self.in_span(level, id as int, k as int),
    {
        match level {
            TopoLevel::All => true,
            TopoLevel::Node => self.llc_node[self.core_llc[self.cpus[k].core]] == id,
            TopoLevel::Llc => self.core_llc[self.cpus[k].core] == id,
            TopoLevel::Core => self.cpus[k].core == id,
            TopoLevel::Cpu => k == id,
        }
    }

    /// The mask of topology node `id` of `level`.
    pub fn span(&self, level: TopoLevel, id: usize) -> (r: Cpumask)
        requires
            self.wf(),
        ensures
            r.words@.len() == self.mask_words(),
            r@ == self.span_set(level, id as int),
    {
        let mut m = Cpumask::new(self.nr_mask_words());
        let mut k: usize = 0;
        while k < self.cpus.len()
            invariant
                self.wf(),
                k <= self.cpus@.len(),
                m.words@.len() == self.mask_words(),
                m@ == Set::new(
                    |c: int|
                        exists|j: int|
                            0 <= j < k && self.in_span(level, id as int, j) && self.cpus@[j].id
                                == c,
                ),
            decreases self.cpus.len() - k,
        {
            let ghost before = m@;
            if self.in_span_exec(level, id, k) {
                m.set_cpu(self.cpus[k].id);
            }
            assert(m@ =~= Set::new(
                |c: int|
                    exists|j: int|
                        0 <= j < k + 1 && self.in_span(level, id as int, j) && self.cpus@[j].id
                            == c,
            )) by {
                assert forall|c: int| #[trigger] m@.contains(c) implies exists|j: int|
                    0 <= j < k + 1 && self.in_span(level, id as int, j) && self.cpus@[j].id
                        == c by {
                    if !before.contains(c) {
                        assert(self.in_span(level, id as int, k as int) && self.cpus@[k as int].id
                            == c);
                    }
                }
                assert forall|c: int|
                    (exists|j: int|
                        0 <= j < k + 1 && self.in_span(level, id as int, j) && self.cpus@[j].id
                            == c) implies #[trigger] m@.contains(c) by {
                    let j = choose|j: int|
                        0 <= j < k + 1 && self.in_span(level, id as int, j) && self.cpus@[j].id
                            == c;
                    if j < k {
                        assert(before.contains(c));
                    }
                }
            }
            k = k + 1;
        }
        assert(m@ =~= self.span_set(level, id as int));
        m
    }
}

} // verus!
