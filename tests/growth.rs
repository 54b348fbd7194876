use scx_wd40::cpumask::Cpumask;
use scx_wd40::growth::{interleave_nodes, rotate_right, LayerCoreOrderGenerator, LayerGrowthAlgo, LayerSpec};
use scx_wd40::growth::{GROWTH_ALGO_NODE_SPREAD_RANDOM, GROWTH_ALGO_NODE_SPREAD_REVERSE};
use scx_wd40::topology::{CpuInfo, Topology};

fn host() -> Topology {
    Topology {
        nr_nodes: 2,
        llc_node: vec![0, 0, 1, 1],
        core_llc: vec![0, 0, 1, 1, 2, 2, 3, 3],
        cpus: (0..16).map(|k| CpuInfo { id: k, core: k / 2 }).collect(),
        nr_cpu_ids: 16,
    }
}

#[test]
fn bpf_enum_values() {
    assert_eq!(LayerGrowthAlgo::NodeSpreadReverse.as_bpf_enum(), GROWTH_ALGO_NODE_SPREAD_REVERSE);
    assert_eq!(LayerGrowthAlgo::NodeSpreadRandom.as_bpf_enum(), GROWTH_ALGO_NODE_SPREAD_RANDOM);
    assert_eq!(LayerGrowthAlgo::default(), LayerGrowthAlgo::NodeSpreadRandom);
}

#[test]
fn interleave_takes_nodes_in_turn() {
    assert_eq!(interleave_nodes(&vec![vec![0, 1, 2], vec![7], vec![]]), vec![0, 7, 1, 2]);
    assert_eq!(interleave_nodes(&vec![]), Vec::<usize>::new());
}

#[test]
fn rotation() {
    assert_eq!(rotate_right(&vec![1, 2, 3, 4], 1), vec![4, 1, 2, 3]);
    assert_eq!(rotate_right(&vec![1, 2, 3, 4], 0), vec![1, 2, 3, 4]);
    assert_eq!(rotate_right(&vec![1, 2, 3, 4], 4), vec![1, 2, 3, 4]);
}

#[test]
fn node_spread_orders() {
    let t = host();
    let g0 = LayerCoreOrderGenerator { nr_layers: 2, layer_idx: 0 };
    assert_eq!(g0.grow_node_spread(&t), vec![0, 4, 1, 5, 2, 6, 3, 7]);
    assert_eq!(g0.grow_node_spread_reverse(&t), vec![7, 3, 6, 2, 5, 1, 4, 0]);
    let g1 = LayerCoreOrderGenerator { nr_layers: 2, layer_idx: 1 };
    assert_eq!(g1.grow_node_spread(&t), vec![2, 6, 3, 7, 0, 4, 1, 5]);
    let mut r = g1.grow_node_spread_random(&t);
    assert_eq!(r.len(), 8);
    r.sort();
    assert_eq!(r, (0..8).collect::<Vec<usize>>());
}

#[test]
fn layer_orders_apply_cpuset() {
    let t = host();
    let mut m = Cpumask::new(1);
    m.set_cpu(1);
    m.set_cpu(6);
    let specs = vec![
        LayerSpec { growth_algo: LayerGrowthAlgo::NodeSpreadReverse, cpuset: None },
        LayerSpec { growth_algo: LayerGrowthAlgo::NodeSpreadReverse, cpuset: Some(m) },
        LayerSpec { growth_algo: LayerGrowthAlgo::NodeSpreadRandom, cpuset: None },
    ];
    let orders = LayerGrowthAlgo::layer_core_orders(&specs, &t);
    assert_eq!(orders.len(), 3);
    assert_eq!(orders[0], vec![7, 3, 6, 2, 5, 1, 4, 0]);
    // Layer 1 of 3 is rotated by three places before it is reversed.
    assert_eq!(orders[1], vec![1, 6]);
    let mut r = orders[2].clone();
    r.sort();
    assert_eq!(r, (0..8).collect::<Vec<usize>>());
}

#[test]
fn node_cores_follow_llc_groups() {
    // One node; core 0 lies in LLC group 1, core 1 in LLC group 0.
    let t = Topology {
        nr_nodes: 1,
        llc_node: vec![0, 0],
        core_llc: vec![1, 0],
        cpus: vec![CpuInfo { id: 0, core: 0 }, CpuInfo { id: 1, core: 1 }],
        nr_cpu_ids: 2,
    };
    assert_eq!(scx_wd40::growth::cores_of_node(&t, 0), vec![1, 0]);
    let g = LayerCoreOrderGenerator { nr_layers: 1, layer_idx: 0 };
    assert_eq!(g.grow_node_spread(&t), vec![1, 0]);
}
