//! The order in which a layer grows over cores: the cores of each NUMA node
//! taken in turn, rotated by the layer's share, optionally reversed or
//! shuffled within each node.
use vstd::prelude::*;
use crate::cpumask::Cpumask;
use crate::topology::Topology;

verus! {

/// Value of the reverse node-spread algorithm in the policy's interface.
pub const GROWTH_ALGO_NODE_SPREAD_REVERSE: i32 = 0;

/// Value of the random node-spread algorithm in the policy's interface.
pub const GROWTH_ALGO_NODE_SPREAD_RANDOM: i32 = 1;

/// How a layer takes cores.
#[derive(Clone, Copy, Debug, PartialEq, Eq, Structural)]
pub enum LayerGrowthAlgo {
    /// Grab cores from NUMA nodes, iteratively, in reverse order.
    NodeSpreadReverse,
    /// Grab cores from NUMA nodes, iteratively, in random order.
    NodeSpreadRandom,
}

/// What the core order of one layer depends on.
#[derive(Clone, Debug)]
pub struct LayerSpec {
    pub growth_algo: LayerGrowthAlgo,
    /// Only cores whose id is set here are kept, when present.
    pub cpuset: Option<Cpumask>,
}

/// Every core id of `t`, in increasing order.
pub open spec fn core_ids(t: Topology) -> Seq<usize> {
    Seq::new(t.core_llc@.len(), |c: int| c as usize)
}

/// Core `c` lies in LLC group `l`.
pub open spec fn core_in_llc(t: Topology, l: int) -> spec_fn(usize) -> bool {
    |c: usize| t.core_llc@[c as int] == l
}

/// The cores of LLC group `l`, in increasing id order.
pub open spec fn llc_cores(t: Topology, l: int) -> Seq<usize> {
    core_ids(t).filter(core_in_llc(t, l))
}

/// The cores of the LLC groups of node `n` below `l`: group by group in
/// increasing id order, each group's cores in increasing id order.
pub open spec fn node_cores_upto(t: Topology, n: int, l: int) -> Seq<usize>
    decreases l,
{
    if l <= 0 {
        Seq::empty()
    } else {
        node_cores_upto(t, n, l - 1) + if t.llc_node@[l - 1] == n {
            llc_cores(t, l - 1)
        } else {
            Seq::empty()
        }
    }
}

/// The cores of node `n`, LLC group by LLC group.
pub open spec fn node_cores(t: Topology, n: int) -> Seq<usize> {
    node_cores_upto(t, n, t.llc_node@.len() as int)
}

/// The `i`-th entry of each of the first `j` lists that has one, in order.
pub open spec fn round(vs: Seq<Seq<usize>>, i: int, j: int) -> Seq<usize>
    decreases j,
{
    if j <= 0 {
        Seq::empty()
    } else {
        round(vs, i, j - 1) + if i < vs[j - 1].len() {
            seq![vs[j - 1][i]]
        } else {
            Seq::empty()
        }
    }
}

/// The first `i` rounds.
pub open spec fn rounds(vs: Seq<Seq<usize>>, i: int) -> Seq<usize>
    decreases i,
{
    if i <= 0 {
        Seq::empty()
    } else {
        rounds(vs, i - 1) + round(vs, i - 1, vs.len() as int)
    }
}

/// The longest length among the first `j` lists.
pub open spec fn max_len(vs: Seq<Seq<usize>>, j: int) -> int
    decreases j,
{
    if j <= 0 {
        0
    } else if max_len(vs, j - 1) >= vs[j - 1].len() {
        max_len(vs, j - 1)
    } else {
        vs[j - 1].len() as int
    }
}

/// The lists taken in turn, one entry of each per round, until all are
/// exhausted.
pub open spec fn interleave(vs: Seq<Seq<usize>>) -> Seq<usize> {
    rounds(vs, max_len(vs, vs.len() as int))
}

/// `v` rotated right by `k` places.
pub open spec fn rotated(v: Seq<usize>, k: int) -> Seq<usize> {
    v.subrange(v.len() - k, v.len() as int) + v.subrange(0, v.len() - k)
}

/// The places a layer's order is rotated by: its index times its share of
/// the cores, rounded up, at most `num_cores`.
pub open spec fn layer_offset(num_cores: int, nr_layers: int, layer_idx: int) -> int {
    let chunk = (num_cores + nr_layers - 1) / nr_layers;
    if chunk * layer_idx <= num_cores {
        chunk * layer_idx
    } else {
        num_cores
    }
}

/// The node-spread order of layer `layer_idx` of `nr_layers` for the
/// per-node core lists `vs`.
pub open spec fn spread(t: Topology, nr_layers: int, layer_idx: int, vs: Seq<Seq<usize>>) -> Seq<usize> {
    let v = interleave(vs);
    let k = layer_offset(t.core_llc@.len() as int, nr_layers, layer_idx);
    rotated(v, if k <= v.len() { k } else { v.len() as int })
}

/// The per-node core lists of `t`.
pub open spec fn all_node_cores(t: Topology) -> Seq<Seq<usize>> {
    Seq::new(t.nr_nodes as nat, |n: int| node_cores(t, n))
}

/// `vs` holds, for each node, its cores in some order.
pub open spec fn shuffled_nodes(t: Topology, vs: Seq<Seq<usize>>) -> bool {
    &&& vs.len() == t.nr_nodes
    &&& forall|n: int| 0 <= n < vs.len() ==> (#[trigger] vs[n]).to_multiset() == node_cores(t, n).to_multiset()
}

/// Keeps the entries whose id is set in `cpuset`, when present.
pub open spec fn restrict(v: Seq<usize>, cpuset: Option<Cpumask>) -> Seq<usize> {
    match cpuset {
        Some(m) => v.filter(|c: usize| m@.contains(c as int)),
        None => v,
    }
}

pub open spec fn views(vs: Seq<Vec<usize>>) -> Seq<Seq<usize>> {
    vs.map_values(|v: Vec<usize>| v@)
}

/// Relies on fastrand::shuffle, which only swaps entries: the result holds
/// the same entries in some order.
#[verifier::external_body]
fn shuffle(v: &mut Vec<usize>)
    ensures
        final(v)@.to_multiset() == old(v)@.to_multiset(),
        final(v)@.len() == old(v)@.len(),
{
    fastrand::shuffle(v.as_mut_slice());
}

/// The cores of LLC group `l`, in increasing id order.
fn cores_of_llc(t: &Topology, l: usize) -> (r: Vec<usize>)
    requires
        t.wf(),
    ensures
        r@ == llc_cores(*t, l as int),
{
    let ghost all = core_ids(*t);
    let ghost p = core_in_llc(*t, l as int);
    let mut r: Vec<usize> = Vec::new();
    let mut c: usize = 0;
    while c < t.core_llc.len()
        invariant
            t.wf(),
            c <= t.core_llc@.len(),
            all == core_ids(*t),
            p == core_in_llc(*t, l as int),
            r@ == all.take(c as int).filter(p),
        decreases t.core_llc.len() - c,
    {
        proof {
            assert(all.take(c + 1) =~= all.take(c as int).push(c));
            all.take(c as int).lemma_filter_push(c, p);
        }
        if t.core_llc[c] == l {
            r.push(c);
        }
        c = c + 1;
    }
    assert(all.take(t.core_llc@.len() as int) =~= all);
    r
}

/// The cores of node `n`, LLC group by LLC group in increasing id order,
/// each group's cores in increasing id order.
pub fn cores_of_node(t: &Topology, n: usize) -> (r: Vec<usize>)
    requires
        t.wf(),
    ensures
        r@ == node_cores(*t, n as int),
{
    let mut r: Vec<usize> = Vec::new();
    let mut l: usize = 0;
    while l < t.llc_node.len()
        invariant
            t.wf(),
            l <= t.llc_node@.len(),
            r@ == node_cores_upto(*t, n as int, l as int),
        decreases t.llc_node.len() - l,
    {
        if t.llc_node[l] == n {
            let cores = cores_of_llc(t, l);
            let ghost before = r@;
            let mut i: usize = 0;
            while i < cores.len()
                invariant
                    i <= cores@.len(),
                    r@ == before + cores@.take(i as int),
                decreases cores.len() - i,
            {
                r.push(cores[i]);
                i = i + 1;
                assert(r@ =~= before + cores@.take(i as int));
            }
            assert(cores@.take(cores@.len() as int) =~= cores@);
        }
        assert(r@ =~= node_cores_upto(*t, n as int, l + 1));
        l = l + 1;
    }
    r
}

/// The lists taken in turn, one entry of each per round.
pub fn interleave_nodes(vs: &Vec<Vec<usize>>) -> (r: Vec<usize>)
    ensures
        r@ == interleave(views(vs@)),
{
    let ghost w = views(vs@);
    let mut m: usize = 0;
    let mut j: usize = 0;
    while j < vs.len()
        invariant
            j <= vs@.len(),
            w == views(vs@),
            m == max_len(w, j as int),
        decreases vs.len() - j,
    {
        if vs[j].len() > m {
            m = vs[j].len();
        }
        j = j + 1;
    }
    let mut r: Vec<usize> = Vec::new();
    let mut i: usize = 0;
    while i < m
        invariant
            w == views(vs@),
            m == max_len(w, w.len() as int),
            i <= m,
            r@ == rounds(w, i as int),
        decreases m - i,
    {
        let ghost before = r@;
        let mut j: usize = 0;
        while j < vs.len()
            invariant
                w == views(vs@),
                j <= vs@.len(),
                r@ == before + round(w, i as int, j as int),
            decreases vs.len() - j,
        {
            if i < vs[j].len() {
                r.push(vs[j][i]);
            }
            assert(r@ =~= before + round(w, i as int, j + 1));
            j = j + 1;
        }
        i = i + 1;
    }
    r
}

/// `v` rotated right by `k` places.
pub fn rotate_right(v: &Vec<usize>, k: usize) -> (r: Vec<usize>)
    requires
        k <= v@.len(),
    ensures
        r@ == rotated(v@, k as int),
{
    let n = v.len();
    let mut r: Vec<usize> = Vec::new();
    let mut i: usize = n - k;
    while i < n
        invariant
            k <= n == v@.len(),
            n - k <= i <= n,
            r@ == v@.subrange(n - k, i as int),
        decreases n - i,
    {
        r.push(v[i]);
        i = i + 1;
        assert(r@ =~= v@.subrange(n - k, i as int));
    }
    let mut i: usize = 0;
    while i < n - k
        invariant
            k <= n == v@.len(),
            i <= n - k,
            r@ == v@.subrange(n - k, n as int) + v@.subrange(0, i as int),
        decreases n - k - i,
    {
        r.push(v[i]);
        i = i + 1;
        assert(r@ =~= v@.subrange(n - k, n as int) + v@.subrange(0, i as int));
    }
    r
}

/// Keeps the cores whose id is set in `cpuset`, when present.
pub fn restrict_to(v: Vec<usize>, cpuset: &Option<Cpumask>) -> (r: Vec<usize>)
    ensures
        r@ == restrict(v@, *cpuset),
{
    match cpuset {
        None => v,
        Some(m) => {
            let ghost p = |c: usize| m@.contains(c as int);
            let mut r: Vec<usize> = Vec::new();
            let mut i: usize = 0;
            while i < v.len()
                invariant
                    i <= v@.len(),
                    p == (|c: usize| m@.contains(c as int)),
                    r@ == v@.take(i as int).filter(p),
                decreases v.len() - i,
            {
                proof {
                    assert(v@.take(i + 1) =~= v@.take(i as int).push(v@[i as int]));
                    v@.take(i as int).lemma_filter_push(v@[i as int], p);
                }
                if m.test_cpu(v[i]) {
                    r.push(v[i]);
                }
                i = i + 1;
            }
            assert(v@.take(v@.len() as int) =~= v@);
            r
        },
    }
}

/// Builds the core order of one layer out of `nr_layers`.
pub struct LayerCoreOrderGenerator {
    pub nr_layers: usize,
    pub layer_idx: usize,
}

impl LayerCoreOrderGenerator {
    /// Rotates `v` right by the layer's offset, at most its length.
    pub fn rotate_layer_offset(&self, t: &Topology, v: &Vec<usize>) -> (r: Vec<usize>)
        requires
            self.nr_layers > 0,
        ensures
            r@ == {
                let k = layer_offset(t.core_llc@.len() as int, self.nr_layers as int, self.layer_idx as int);
                rotated(v@, if k <= v@.len() { k } else { v@.len() as int })
            },
    {
        let num_cores = t.core_llc.len();
        let nc = num_cores as u128;
        let nl = self.nr_layers as u128;
        let chunk: u128 = (nc + nl - 1) / nl;
        assert(chunk <= nc) by (nonlinear_arith)
            requires
                nl > 0,
                chunk == (nc + nl - 1) as int / nl as int,
        ;
        assert(chunk * (self.layer_idx as u128) <= usize::MAX * usize::MAX) by (nonlinear_arith)
            requires
                chunk <= usize::MAX,
                self.layer_idx <= usize::MAX,
        ;
        let prod: u128 = chunk * (self.layer_idx as u128);
        let k0: usize = if prod <= num_cores as u128 { prod as usize } else { num_cores };
        let k: usize = if k0 <= v.len() { k0 } else { v.len() };
        rotate_right(v, k)
    }

    /// The node-spread order; with `make_random`, each node's cores are
    /// first shuffled.
    pub fn grow_node_spread_inner(&self, t: &Topology, make_random: bool) -> (r: Vec<usize>)
        requires
            t.wf(),
            self.nr_layers > 0,
        ensures
            !make_random ==> r@ == spread(*t, self.nr_layers as int, self.layer_idx as int, all_node_cores(*t)),
            exists|vs: Seq<Seq<usize>>|
                shuffled_nodes(*t, vs) && r@ == spread(*t, self.nr_layers as int, self.layer_idx as int, vs),
    {
        let mut node_core_vecs: Vec<Vec<usize>> = Vec::new();
        let mut n: usize = 0;
        while n < t.nr_nodes
            invariant
                t.wf(),
                n <= t.nr_nodes,
                node_core_vecs@.len() == n,
                forall|m: int| 0 <= m < n ==> (#[trigger] node_core_vecs@[m])@.to_multiset() == node_cores(*t, m).to_multiset(),
                !make_random ==> forall|m: int| 0 <= m < n ==> (#[trigger] node_core_vecs@[m])@ == node_cores(*t, m),
            decreases t.nr_nodes - n,
        {
            let mut cores = cores_of_node(t, n);
            if make_random {
                shuffle(&mut cores);
            }
            node_core_vecs.push(cores);
            n = n + 1;
        }
        let cores = interleave_nodes(&node_core_vecs);
        let r = self.rotate_layer_offset(t, &cores);
        proof {
            let vs = views(node_core_vecs@);
            assert(shuffled_nodes(*t, vs));
            if !make_random {
                assert(vs =~= all_node_cores(*t));
            }
        }
        r
    }

    /// The node-spread order, reversed.
    pub fn grow_node_spread_reverse(&self, t: &Topology) -> (r: Vec<usize>)
        requires
            t.wf(),
            self.nr_layers > 0,
        ensures
            r@ == spread(*t, self.nr_layers as int, self.layer_idx as int, all_node_cores(*t)).reverse(),
    {
        let mut cores = self.grow_node_spread(t);
        let ghost before = cores@;
        let mut out: Vec<usize> = Vec::new();
        let mut i: usize = cores.len();
        while i > 0
            invariant
                i <= before.len(),
                cores@ == before,
                out@ == before.subrange(i as int, before.len() as int).reverse(),
            decreases i,
        {
            i = i - 1;
            out.push(cores[i]);
            assert(out@ =~= before.subrange(i as int, before.len() as int).reverse());
        }
        assert(before.subrange(0, before.len() as int) =~= before);
        out
    }

    /// The node-spread order.
    pub fn grow_node_spread(&self, t: &Topology) -> (r: Vec<usize>)
        requires
            t.wf(),
            self.nr_layers > 0,
        ensures
            r@ == spread(*t, self.nr_layers as int, self.layer_idx as int, all_node_cores(*t)),
    {
        self.grow_node_spread_inner(t, false)
    }

    /// The node-spread order with each node's cores shuffled first.
    pub fn grow_node_spread_random(&self, t: &Topology) -> (r: Vec<usize>)
        requires
            t.wf(),
            self.nr_layers > 0,
        ensures
            exists|vs: Seq<Seq<usize>>|
                shuffled_nodes(*t, vs) && r@ == spread(*t, self.nr_layers as int, self.layer_idx as int, vs),
    {
        self.grow_node_spread_inner(t, true)
    }
}

/// The order of layer `layer_idx` out of `nr_layers` under `algo`, before
/// its cpuset is applied.
pub open spec fn order_of(t: Topology, algo: LayerGrowthAlgo, nr_layers: int, layer_idx: int, r: Seq<usize>) -> bool {
    match algo {
        LayerGrowthAlgo::NodeSpreadReverse => r == spread(t, nr_layers, layer_idx, all_node_cores(t)).reverse(),
        LayerGrowthAlgo::NodeSpreadRandom => exists|vs: Seq<Seq<usize>>|
            shuffled_nodes(t, vs) && r == spread(t, nr_layers, layer_idx, vs),
    }
}

/// `r` is the order of layer `i` of `specs`, restricted to its cpuset.
pub open spec fn layer_order_ok(t: Topology, specs: Seq<LayerSpec>, i: int, r: Seq<usize>) -> bool {
    exists|o: Seq<usize>|
        order_of(t, specs[i].growth_algo, specs.len() as int, i, o) && r == restrict(o, specs[i].cpuset)
}

impl LayerGrowthAlgo {
    /// The algorithm's value in the policy's interface.
    pub fn as_bpf_enum(&self) -> (r: i32)
        ensures
            r == match self {
                LayerGrowthAlgo::NodeSpreadReverse => GROWTH_ALGO_NODE_SPREAD_REVERSE,
                LayerGrowthAlgo::NodeSpreadRandom => GROWTH_ALGO_NODE_SPREAD_RANDOM,
            },
    {
        match self {
            LayerGrowthAlgo::NodeSpreadReverse => GROWTH_ALGO_NODE_SPREAD_REVERSE,
            LayerGrowthAlgo::NodeSpreadRandom => GROWTH_ALGO_NODE_SPREAD_RANDOM,
        }
    }

    /// The core order of every layer, by layer index, each restricted to its
    /// cpuset.
    pub fn layer_core_orders(layer_specs: &Vec<LayerSpec>, topo: &Topology) -> (r: Vec<Vec<usize>>)
        requires
            topo.wf(),
        ensures
            r@.len() == layer_specs@.len(),
            forall|i: int|
                0 <= i < r@.len() ==> layer_order_ok(*topo, layer_specs@, i, (#[trigger] r@[i])@),
    {
        let mut core_orders: Vec<Vec<usize>> = Vec::new();
        let mut idx: usize = 0;
        while idx < layer_specs.len()
            invariant
                topo.wf(),
                idx <= layer_specs@.len(),
                core_orders@.len() == idx,
                forall|i: int|
                    0 <= i < idx ==> layer_order_ok(*topo, layer_specs@, i, (#[trigger] core_orders@[i])@),
            decreases layer_specs.len() - idx,
        {
            let spec_i = &layer_specs[idx];
            let core_order = spec_i.growth_algo.layer_core_order(layer_specs.len(), idx, topo);
            let ghost o = core_order@;
            let core_order = restrict_to(core_order, &spec_i.cpuset);
            let ghost before = core_orders@;
            core_orders.push(core_order);
            proof {
                assert forall|i: int|
                    0 <= i < idx + 1 implies layer_order_ok(*topo, layer_specs@, i, (#[trigger] core_orders@[i])@) by {
                    if i < idx {
                        assert(core_orders@[i] == before[i]);
                    } else {
                        assert(order_of(*topo, layer_specs@[i].growth_algo, layer_specs@.len() as int, i, o));
                        assert(core_orders@[i]@ == restrict(o, layer_specs@[i].cpuset));
                    }
                }
            }
            idx = idx + 1;
        }
        core_orders
    }

    /// The core order of layer `layer_idx` out of `nr_layers`.
    fn layer_core_order(&self, nr_layers: usize, layer_idx: usize, topo: &Topology) -> (r: Vec<usize>)
        requires
            topo.wf(),
            nr_layers > 0,
        ensures
            order_of(*topo, *self, nr_layers as int, layer_idx as int, r@),
    {
        let generator = LayerCoreOrderGenerator { nr_layers, layer_idx };
        match self {
            LayerGrowthAlgo::NodeSpreadReverse => generator.grow_node_spread_reverse(topo),
            LayerGrowthAlgo::NodeSpreadRandom => generator.grow_node_spread_random(topo),
        }
    }
}

impl Default for LayerGrowthAlgo {
    fn default() -> (r: Self)
        ensures
            r == LayerGrowthAlgo::NodeSpreadRandom,
    {
        LayerGrowthAlgo::NodeSpreadRandom
    }
}

} // verus!
