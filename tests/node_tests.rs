use hfeec::config::{default_dpdk_config, DpdkError};
use hfeec::manager::{DpdkPortInfo, ManagerError, NumaManager};
use hfeec::node::{DpdkPort, NodeError, NumaNode, Worker};
use hfeec::numa::{NodeEntry, NumaTopology, PciEntry};
use hfeec::topology::{CpuEntry, CpuTopology};

fn node_with(cpus: Vec<usize>, rx: u16) -> NumaNode {
    NumaNode {
        node_id: 0,
        local_cpus: cpus,
        local_ports: vec![DpdkPort { port_id: 0, if_name: "eth0".to_string(), num_rx_queues: rx, num_tx_queues: 1 }],
        workers: Vec::new(),
        running: false,
    }
}

#[test]
fn queues_round_robin_over_cores() {
    let mut n = node_with(vec![1, 2, 3], 5);
    let ws = n.start_workers().unwrap();
    let cores: Vec<usize> = ws.iter().map(|w| w.core_id).collect();
    assert_eq!(cores, vec![1, 2, 3, 1, 2]);
    let queues: Vec<u16> = ws.iter().map(|w| w.queue_id).collect();
    assert_eq!(queues, vec![0, 1, 2, 3, 4]);
    assert!(n.running);
    assert_eq!(n.workers, ws);
}

#[test]
fn start_refusals_change_nothing() {
    let mut n = node_with(vec![1], 2);
    n.start_workers().unwrap();
    assert_eq!(n.start_workers(), Err(NodeError::AlreadyRunning));
    assert_eq!(n.workers.len(), 2);
    let mut empty = node_with(vec![], 2);
    assert_eq!(empty.start_workers(), Err(NodeError::NoCores));
    assert!(!empty.running);
    assert!(empty.workers.is_empty());
}

#[test]
fn stop_twice_is_stop_once() {
    let mut n = node_with(vec![4, 5], 3);
    let started = n.start_workers().unwrap();
    let joined = n.stop_workers();
    let mut expected = started.clone();
    expected.reverse();
    assert_eq!(joined, expected);
    assert!(!n.running);
    assert!(n.workers.is_empty());
    let again = n.stop_workers();
    assert!(again.is_empty());
    assert!(!n.running);
    assert!(n.workers.is_empty());
    // and it can start again
    assert_eq!(n.start_workers().unwrap().len(), 3);
}

#[test]
fn node_masks_and_memory_args() {
    let mut n = node_with(vec![1, 2, 3], 1);
    n.node_id = 1;
    assert_eq!(n.generate_core_mask(), "0xe");
    let c = default_dpdk_config();
    assert_eq!(n.generate_eal_args(&c, Some(2)), vec!["--socket-mem=0,1024".to_string()]);
    assert_eq!(n.generate_eal_args(&c, Some(3)), vec!["--socket-mem=0,1024,0".to_string()]);
    let mut c2 = default_dpdk_config().with_numa_allocation(2, 256);
    assert_eq!(n.generate_eal_args(&c2, Some(2)), vec!["--socket-mem=0,256".to_string()]);
    n.node_id = 0;
    c2.socket_mem = None;
    assert_eq!(n.generate_eal_args(&c2, None), vec!["--socket-mem=1024".to_string()]);
    c2.use_huge_pages = false;
    assert!(n.generate_eal_args(&c2, None).is_empty());
}

fn host() -> (CpuTopology, NumaTopology) {
    let entries: Vec<CpuEntry> = (0..8)
        .map(|i| CpuEntry { cpu_id: i, core_id: format!("{}", i % 4), physical_package_id: format!("{}", i / 4) })
        .collect();
    let cpu = CpuTopology::new(&entries);
    let nodes = vec![
        NodeEntry { name: "node0".to_string(), cpulist: Some("0-3".to_string()), meminfo: None },
        NodeEntry { name: "node1".to_string(), cpulist: Some("4-7".to_string()), meminfo: None },
    ];
    let pci = vec![PciEntry {
        device_id: "0000:01:00.0".to_string(),
        class: Some("0x020000".to_string()),
        numa_node: Some("1".to_string()),
        net_names: vec!["eth1".to_string()],
    }];
    (cpu, NumaTopology::new(&nodes, &pci))
}

#[test]
fn local_nic_and_registration() {
    let (cpu, numa) = host();
    let mut n0 = NumaNode::new(0, &cpu, &numa, true);
    assert_eq!(n0.local_cpus, vec![1, 2, 3]);
    assert!(!n0.is_local_nic("eth1", &numa));
    assert!(n0.is_local_nic("unknown0", &numa));
    assert!(!n0.register_port(1, "eth1", 4, 4, &numa));
    assert!(n0.register_port(2, "unknown0", 4, 4, &numa));
    assert_eq!(n0.local_ports.len(), 1);
    assert_eq!(n0.local_ports[0].port_id, 2);
    let n1 = NumaNode::new(1, &cpu, &numa, true);
    // CPUs 4..7 sit on socket 1: their cores are not those of CPUs 0..3
    assert_eq!(n1.local_cpus, vec![4, 5, 6, 7]);
    let flat = NumaNode::new(1, &cpu, &numa, false);
    assert_eq!(flat.local_cpus, vec![1, 2, 3, 4, 5, 6, 7]);
}

#[test]
fn manager_without_numa_has_one_node() {
    let (cpu, _) = host();
    let numa = NumaTopology::single_node(8);
    let mut m = NumaManager::new(cpu, numa, false);
    m.init_nodes(4).unwrap();
    assert_eq!(m.get_node_count(), 1);
    assert!(!m.is_numa_available());
    assert_eq!(m.get_node(0).map(|n| n.local_cpus.clone()), Some(vec![1, 2, 3, 4, 5, 6, 7]));
    assert_eq!(m.get_node(0).map(|n| n.node_id), Some(0));
    assert!(m.get_node(1).is_none());
}

#[test]
fn manager_distributes_and_runs() {
    let (cpu, numa) = host();
    let mut m = NumaManager::new(cpu, numa, true);
    m.init_nodes(2).unwrap();
    assert_eq!(m.get_node_count(), 2);
    let c = default_dpdk_config();
    assert_eq!(m.distribute_interfaces(&vec![], &c), Err(ManagerError::NoPorts));
    let ports = vec![
        DpdkPortInfo { port_id: 0, if_name: "eth0".to_string(), numa_node: None },
        DpdkPortInfo { port_id: 1, if_name: "eth1".to_string(), numa_node: Some(1) },
    ];
    assert_eq!(m.distribute_interfaces(&ports, &c), Ok(()));
    assert_eq!(m.get_node(0).unwrap().local_ports.len(), 1);
    assert_eq!(m.get_node(1).unwrap().local_ports.len(), 1);
    assert_eq!(m.get_node(1).unwrap().local_ports[0].num_rx_queues, 4);
    let far = vec![DpdkPortInfo { port_id: 2, if_name: "eth2".to_string(), numa_node: Some(5) }];
    assert_eq!(m.distribute_interfaces(&far, &c), Err(ManagerError::NodeUnavailable(5)));
    // the failed distribution kept the earlier registrations
    assert_eq!(m.get_node(0).unwrap().local_ports.len(), 1);
    let started = m.start_packet_processing().unwrap();
    let cores: Vec<usize> = started.iter().map(|w| w.core_id).collect();
    assert_eq!(cores, vec![1, 2, 3, 1, 4, 5, 6, 7]);
    assert_eq!(m.start_packet_processing(), Err(ManagerError::Node(NodeError::AlreadyRunning)));
    let joined: Vec<Worker> = m.stop_packet_processing();
    let mut expected: Vec<Worker> = started[..4].to_vec();
    expected.reverse();
    let mut second: Vec<Worker> = started[4..].to_vec();
    second.reverse();
    expected.extend(second);
    assert_eq!(joined, expected);
    assert!(m.stop_packet_processing().is_empty());
}

#[test]
fn eal_init_arguments() {
    let (cpu, numa) = host();
    let mut m = NumaManager::new(cpu, numa, true);
    m.init_nodes(2).unwrap();
    let c = default_dpdk_config();
    assert_eq!(m.init_dpdk_args(0, &c, false), Err(DpdkError::InitError));
    assert_eq!(
        m.init_dpdk_args(0, &c, true).unwrap(),
        vec![
            "hfeec".to_string(),
            "--lcores=0xe".to_string(),
            "--master-lcore=0".to_string(),
            "--socket-mem=1024,0".to_string(),
            "--socket-id=0".to_string()
        ]
    );
}

#[test]
fn start_stops_at_the_first_refusing_node() {
    let entries: Vec<CpuEntry> = (0..4)
        .map(|i| CpuEntry { cpu_id: i, core_id: format!("{}", i), physical_package_id: "0".to_string() })
        .collect();
    let cpu = CpuTopology::new(&entries);
    let nodes = vec![
        NodeEntry { name: "node0".to_string(), cpulist: Some("0-3".to_string()), meminfo: None },
        NodeEntry { name: "node1".to_string(), cpulist: Some("".to_string()), meminfo: None },
        NodeEntry { name: "node2".to_string(), cpulist: Some("2".to_string()), meminfo: None },
    ];
    let numa = NumaTopology::new(&nodes, &vec![]);
    let mut m = NumaManager::new(cpu, numa, true);
    m.init_nodes(3).unwrap();
    assert_eq!(m.start_packet_processing(), Err(ManagerError::Node(NodeError::NoCores)));
    assert!(m.get_node(0).unwrap().running);
    assert!(!m.get_node(1).unwrap().running);
    assert!(!m.get_node(2).unwrap().running);
}
