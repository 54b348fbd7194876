//! Mirroring the topology into memory shared with the policy: the order of
//! the topology nodes, the bounded copy of a mask into a bitmap, and the
//! startup checks.
use vstd::prelude::*;
use crate::cpumask::Cpumask;
use crate::domain::DomainGroup;
use crate::topology::TopoLevel;
use crate::topology::Topology;
use crate::topology::MAX_CPUS;
use crate::topology::MAX_DOMS;

verus! {

/// A fatal startup failure.
#[derive(Clone, Copy, Debug, PartialEq, Eq)]
pub enum ConfigError {
    /// More CPU ids than the shared layout holds.
    TooManyCpus,
    /// More domains than the shared layout holds.
    TooManyDoms,
    /// A mask wider than the bitmap it is copied into.
    MaskTooWide,
    /// A mask whose width differs from the width the policy chose.
    MaskLenMismatch,
    /// A utilization threshold outside 0 to 100.
    InvalidThreshold,
}

/// A setup call into the policy.
#[derive(Clone, Copy, Debug, PartialEq, Eq)]
pub enum PolicyCall {
    ArenaInit,
    AllocMask,
    TopologyNodeInit,
    Setup,
}

/// A setup call into the policy returned a non-zero status.
#[derive(Clone, Copy, Debug, PartialEq, Eq)]
pub struct PolicyCallError {
    pub call: PolicyCall,
    pub status: i32,
}

/// Turns the status of a setup call into a result: zero is success.
pub fn check_status(call: PolicyCall, status: i32) -> (r: Result<(), PolicyCallError>)
    ensures
        status == 0 ==> r == Ok::<(), PolicyCallError>(()),
        status != 0 ==> r == Err::<(), PolicyCallError>(PolicyCallError { call, status }),
{
    if status != 0 {
        Err(PolicyCallError { call, status })
    } else {
        Ok(())
    }
}

/// Refuses a host that exceeds the shared layout's capacity.
pub fn check_capacity(nr_cpu_ids: usize, nr_doms: usize) -> (r: Result<(), ConfigError>)
    ensures
        nr_cpu_ids > MAX_CPUS ==> r == Err::<(), ConfigError>(ConfigError::TooManyCpus),
        nr_cpu_ids <= MAX_CPUS && nr_doms > MAX_DOMS ==> r == Err::<(), ConfigError>(
            ConfigError::TooManyDoms,
        ),
        nr_cpu_ids <= MAX_CPUS && nr_doms <= MAX_DOMS ==> r == Ok::<(), ConfigError>(()),
{
    if nr_cpu_ids > MAX_CPUS {
        Err(ConfigError::TooManyCpus)
    } else if nr_doms > MAX_DOMS {
        Err(ConfigError::TooManyDoms)
    } else {
        Ok(())
    }
}

/// The bitmap after `mask` is copied over its leading words.
pub open spec fn copied(bitmap: Seq<u64>, mask: Seq<u64>) -> Seq<u64> {
    Seq::new(bitmap.len(), |i: int| if i < mask.len() { mask[i] } else { bitmap[i] })
}

/// Copies `mask` over the leading words of `bitmap`; a mask wider than the
/// bitmap is refused and leaves it untouched.
pub fn copy_mask(bitmap: &mut Vec<u64>, mask: &[u64]) -> (r: Result<(), ConfigError>)
    ensures
        mask@.len() > old(bitmap)@.len() ==> r == Err::<(), ConfigError>(ConfigError::MaskTooWide)
            && final(bitmap)@ == old(bitmap)@,
        mask@.len() <= old(bitmap)@.len() ==> r == Ok::<(), ConfigError>(()) && final(bitmap)@
            == copied(old(bitmap)@, mask@),
{
    if mask.len() > bitmap.len() {
        return Err(ConfigError::MaskTooWide);
    }
    let ghost start = bitmap@;
    let mut i: usize = 0;
    while i < mask.len()
        invariant
            mask@.len() <= start.len(),
            bitmap@.len() == start.len(),
            i <= mask@.len(),
            forall|j: int| 0 <= j < i ==> bitmap@[j] == mask@[j],
            forall|j: int| i <= j < start.len() ==> bitmap@[j] == start[j],
        decreases mask.len() - i,
    {
        bitmap.set(i, mask[i]);
        i = i + 1;
    }
    assert(bitmap@ =~= copied(start, mask@));
    Ok(())
}

/// Copying the same mask a second time changes nothing: the bitmap holds
/// the mask's words, not an accumulation of them.
pub proof fn lemma_copy_mask_idempotent(bitmap: Seq<u64>, mask: Seq<u64>)
    requires
        mask.len() <= bitmap.len(),
    ensures
        copied(copied(bitmap, mask), mask) == copied(bitmap, mask),
        forall|i: int| 0 <= i < mask.len() ==> #[trigger] copied(bitmap, mask)[i] == mask[i],
{
    assert(copied(copied(bitmap, mask), mask) =~= copied(bitmap, mask));
}

/// Writes `cpumask` into a shared bitmap whose masks are `mask_len` words
/// wide: the mask must have exactly that width, and the bitmap room for it.
pub fn update_bpf_mask(bitmap: &mut Vec<u64>, cpumask: &Cpumask, mask_len: usize) -> (r: Result<(), ConfigError>)
    ensures
        cpumask.words@.len() != mask_len ==> r == Err::<(), ConfigError>(ConfigError::MaskLenMismatch)
            && final(bitmap)@ == old(bitmap)@,
        cpumask.words@.len() == mask_len && mask_len > old(bitmap)@.len() ==> r == Err::<(), ConfigError>(
            ConfigError::MaskTooWide,
        ) && final(bitmap)@ == old(bitmap)@,
        cpumask.words@.len() == mask_len && mask_len <= old(bitmap)@.len() ==> r == Ok::<(), ConfigError>(())
            && final(bitmap)@ == copied(old(bitmap)@, cpumask.words@),
{
    if cpumask.words.len() != mask_len {
        return Err(ConfigError::MaskLenMismatch);
    }
    copy_mask(bitmap, cpumask.as_raw_slice())
}

/// One topology node to mirror: its level, sequential id and mask.
#[derive(Clone, Debug)]
pub struct TopoNodeInit {
    pub level: TopoLevel,
    pub id: usize,
    pub mask: Cpumask,
}

/// The topology nodes of one level, in id order.
pub open spec fn level_order(t: Topology, level: TopoLevel) -> Seq<(TopoLevel, int)> {
    Seq::new(t.level_len(level) as nat, |i: int| (level, i))
}

/// The order in which topology nodes are mirrored: the whole host, then
/// each node, LLC group, core and CPU.
pub open spec fn mirror_order(t: Topology) -> Seq<(TopoLevel, int)> {
    level_order(t, TopoLevel::All) + level_order(t, TopoLevel::Node) + level_order(
        t,
        TopoLevel::Llc,
    ) + level_order(t, TopoLevel::Core) + level_order(t, TopoLevel::Cpu)
}

/// `v` lists the topology nodes of `order` with their masks.
pub open spec fn lists_nodes(t: Topology, v: Seq<TopoNodeInit>, order: Seq<(TopoLevel, int)>) -> bool {
    &&& v.len() == order.len()
    &&& forall|i: int|
        0 <= i < v.len() ==> {
            &&& (#[trigger] v[i]).level == order[i].0
            &&& v[i].id == order[i].1
            &&& v[i].mask@ == t.span_set(order[i].0, order[i].1)
            &&& v[i].mask.words@.len() == t.mask_words()
        }
}

fn push_level(t: &Topology, level: TopoLevel, out: &mut Vec<TopoNodeInit>, n: usize)
    requires
        t.wf(),
        n == t.level_len(level),
    ensures
        final(out)@.len() == old(out)@.len() + n,
        forall|i: int| 0 <= i < old(out)@.len() ==> final(out)@[i] == old(out)@[i],
        lists_nodes(*t, final(out)@.subrange(old(out)@.len() as int, final(out)@.len() as int), level_order(*t, level)),
{
    let ghost start = out@;
    let mut i: usize = 0;
    while i < n
        invariant
            t.wf(),
            n == t.level_len(level),
            i <= n,
            out@.len() == start.len() + i,
            forall|j: int| 0 <= j < start.len() ==> out@[j] == start[j],
            forall|j: int|
                0 <= j < i ==> {
                    &&& (#[trigger] out@[start.len() + j]).level == level
                    &&& out@[start.len() + j].id == j
                    &&& out@[start.len() + j].mask@ == t.span_set(level, j)
                    &&& out@[start.len() + j].mask.words@.len() == t.mask_words()
                },
        decreases n - i,
    {
        let mask = t.span(level, i);
        out.push(TopoNodeInit { level, id: i, mask });
        i = i + 1;
    }
    assert forall|j: int| 0 <= j < n implies #[trigger] out@.subrange(start.len() as int, out@.len() as int)[j] == out@[start.len() + j] by {}
}

/// Every topology node of the host with its mask, in mirroring order.
pub fn topology_nodes(t: &Topology) -> (r: Vec<TopoNodeInit>)
    requires
        t.wf(),
    ensures
        lists_nodes(*t, r@, mirror_order(*t)),
{
    let mut out: Vec<TopoNodeInit> = Vec::new();
    push_level(t, TopoLevel::All, &mut out, 1);
    let ghost a = out@;
    push_level(t, TopoLevel::Node, &mut out, t.nr_nodes);
    let ghost b = out@;
    push_level(t, TopoLevel::Llc, &mut out, t.llc_node.len());
    let ghost c = out@;
    push_level(t, TopoLevel::Core, &mut out, t.core_llc.len());
    let ghost d = out@;
    push_level(t, TopoLevel::Cpu, &mut out, t.cpus.len());
    proof {
        let o = mirror_order(*t);
        let la = level_order(*t, TopoLevel::All);
        let lb = level_order(*t, TopoLevel::Node);
        let lc = level_order(*t, TopoLevel::Llc);
        let ld = level_order(*t, TopoLevel::Core);
        let le = level_order(*t, TopoLevel::Cpu);
        assert forall|i: int| 0 <= i < out@.len() implies {
            &&& (#[trigger] out@[i]).level == o[i].0
            &&& out@[i].id == o[i].1
            &&& out@[i].mask@ == t.span_set(o[i].0, o[i].1)
            &&& out@[i].mask.words@.len() == t.mask_words()
        } by {
            if i < a.len() {
                assert(out@[i] == a[i]);
                assert(a.subrange(0, a.len() as int)[i] == a[i]);
            } else if i < b.len() {
                assert(out@[i] == b[i]);
                assert(b.subrange(a.len() as int, b.len() as int)[i - a.len()] == b[i]);
            } else if i < c.len() {
                assert(out@[i] == c[i]);
                assert(c.subrange(b.len() as int, c.len() as int)[i - b.len()] == c[i]);
            } else if i < d.len() {
                assert(out@[i] == d[i]);
                assert(d.subrange(c.len() as int, d.len() as int)[i - c.len()] == d[i]);
            } else {
                assert(out@.subrange(d.len() as int, out@.len() as int)[i - d.len()] == out@[i]);
            }
        }
    }
    out
}

/// The mask of each node: the union of the masks of its domains.
pub fn node_masks(g: &DomainGroup, nr_words: usize) -> (r: Vec<Cpumask>)
    requires
        forall|d: int| 0 <= d < g.doms@.len() ==> (#[trigger] g.doms@[d]).mask.words@.len() == nr_words,
    ensures
        r@.len() == g.nr_nodes,
        forall|n: int, c: int|
            0 <= n < r@.len() ==> (#[trigger] r@[n]@.contains(c) <==> exists|d: int|
                0 <= d < g.doms@.len() && g.doms@[d].node == n && (#[trigger] g.doms@[d]).mask@.contains(c)),
{
    let mut r: Vec<Cpumask> = Vec::new();
    let mut n: usize = 0;
    while n < g.nr_nodes
        invariant
            n <= g.nr_nodes,
            r@.len() == n,
            forall|d: int| 0 <= d < g.doms@.len() ==> (#[trigger] g.doms@[d]).mask.words@.len() == nr_words,
            forall|m: int, c: int|
                0 <= m < n ==> (#[trigger] r@[m]@.contains(c) <==> exists|d: int|
                    0 <= d < g.doms@.len() && g.doms@[d].node == m && (#[trigger] g.doms@[d]).mask@.contains(c)),
        decreases g.nr_nodes - n,
    {
        let m = g.node_mask(n, nr_words);
        assert forall|c: int| m@.contains(c) == g.node_set(n as int).contains(c) by {}
        r.push(m);
        n = n + 1;
    }
    r
}

} // verus!
