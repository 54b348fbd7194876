use scx_wd40::discover::{from_raw, RawCpu, RawTopologyError};
use scx_wd40::domain::DomainGroup;

fn raw(cpu: usize, core: usize, llc: usize, node: usize) -> RawCpu {
    RawCpu { cpu, core, llc, node }
}

#[test]
fn ranks_hardware_ids() {
    // Hardware ids are sparse and listed out of order.
    let entries = vec![
        raw(3, 40, 9, 5),
        raw(0, 10, 7, 2),
        raw(1, 10, 7, 2),
        raw(2, 40, 9, 5),
        raw(5, 70, 9, 5),
    ];
    let (t, ids) = from_raw(&entries, 8).unwrap();
    assert_eq!(t.nr_nodes, 2);
    assert_eq!(ids.node_ids, vec![2, 5]);
    assert_eq!(ids.llc_ids, vec![7, 9]);
    assert_eq!(ids.core_ids, vec![10, 40, 70]);
    assert_eq!(t.llc_node, vec![0, 1]);
    assert_eq!(t.core_llc, vec![0, 1, 1]);
    let cpus: Vec<(usize, usize)> = t.cpus.iter().map(|c| (c.id, c.core)).collect();
    assert_eq!(cpus, vec![(0, 0), (1, 0), (2, 1), (3, 1), (5, 2)]);
    let g = DomainGroup::new(&t, 3).unwrap();
    assert_eq!(g.nr_doms(), 2);
    assert_eq!(g.doms[1].node, 1);
}

#[test]
fn same_host_same_layout() {
    let a = vec![raw(0, 0, 0, 0), raw(1, 1, 0, 0), raw(2, 2, 1, 1)];
    let b = vec![raw(2, 2, 1, 1), raw(0, 0, 0, 0), raw(1, 1, 0, 0)];
    let (ta, _) = from_raw(&a, 4).unwrap();
    let (tb, _) = from_raw(&b, 4).unwrap();
    assert_eq!(ta.llc_node, tb.llc_node);
    assert_eq!(ta.core_llc, tb.core_llc);
    assert_eq!(ta.cpus, tb.cpus);
}

#[test]
fn raw_topology_errors() {
    assert_eq!(from_raw(&vec![], 4).err(), Some(RawTopologyError::NoCpus));
    assert_eq!(from_raw(&vec![raw(0, 0, 0, 0)], 100_000).err(), Some(RawTopologyError::TooManyCpus));
    assert_eq!(from_raw(&vec![raw(4, 0, 0, 0)], 4).err(), Some(RawTopologyError::CpuOutOfRange));
    assert_eq!(
        from_raw(&vec![raw(1, 0, 0, 0), raw(1, 1, 0, 0)], 4).err(),
        Some(RawTopologyError::DuplicateCpu)
    );
    assert_eq!(
        from_raw(&vec![raw(0, 0, 0, 0), raw(1, 0, 1, 0)], 4).err(),
        Some(RawTopologyError::Inconsistent)
    );
    assert_eq!(
        from_raw(&vec![raw(0, 0, 3, 0), raw(1, 1, 3, 1)], 4).err(),
        Some(RawTopologyError::Inconsistent)
    );
}
