use hfeec::cpu_manager::{get_recommended_thread_count, recommended_thread_count, CpuManager};
use hfeec::meminfo::{memtotal_lines, total_memory_mb};
use hfeec::node::NodeError;
use hfeec::numa::{NodeEntry, NumaTopology, PciEntry};
use hfeec::topology::{CpuEntry, CpuTopology};
use hfeec::config::{default_dpdk_config, DpdkError};
use hfeec::worker::{app_eal_args, WorkerManager};

fn cpu_host() -> CpuTopology {
    // CPUs 0..8: cores 0..4 on socket 0, then their hyper-threads
    let entries: Vec<CpuEntry> = (0..8)
        .map(|i| CpuEntry { cpu_id: i, core_id: format!("{}", i % 4), physical_package_id: "0".to_string() })
        .collect();
    CpuTopology::new(&entries)
}

fn numa_host() -> NumaTopology {
    let nodes = vec![
        NodeEntry { name: "node0".to_string(), cpulist: Some("0-1,4-5".to_string()), meminfo: None },
        NodeEntry { name: "node1".to_string(), cpulist: Some("2-3,6-7".to_string()), meminfo: None },
    ];
    let pci = vec![
        PciEntry {
            device_id: "0000:01:00.0".to_string(),
            class: Some("0x020000".to_string()),
            numa_node: Some("1".to_string()),
            net_names: vec!["eth1".to_string()],
        },
        PciEntry {
            device_id: "0000:02:00.0".to_string(),
            class: Some("0x020000".to_string()),
            numa_node: Some("0".to_string()),
            net_names: vec!["eth0".to_string()],
        },
    ];
    NumaTopology::new(&nodes, &pci)
}

#[test]
fn worker_manager_places_queues_on_the_port_node() {
    let mut m = WorkerManager::new(cpu_host(), numa_host());
    m.register_port(0, "eth0", 3, 1);
    m.register_port(1, "eth1", 3, 1);
    m.register_port(2, "tap9", 2, 1);
    assert_eq!(m.get_port_numa_node(0), Some(0));
    assert_eq!(m.get_port_numa_node(1), Some(1));
    assert_eq!(m.get_port_numa_node(2), None);
    assert_eq!(m.get_port_numa_node(7), None);
    let ws = m.start_workers().unwrap();
    let placed: Vec<(u16, u16, usize)> = ws.iter().map(|w| (w.port_id, w.queue_id, w.core_id)).collect();
    assert_eq!(
        placed,
        vec![(0, 0, 1), (0, 1, 1), (0, 2, 1), (1, 0, 2), (1, 1, 3), (1, 2, 2), (2, 0, 1), (2, 1, 2)]
    );
    assert_eq!(ws[3].numa_node, Some(1));
    assert!(m.is_running());
    assert_eq!(m.start_workers(), Err(NodeError::AlreadyRunning));
    let joined = m.stop_workers();
    assert_eq!(joined.first(), ws.last());
    assert_eq!(joined.len(), 8);
    assert!(m.stop_workers().is_empty());
    assert!(!m.is_running());
}

#[test]
fn worker_manager_reregistration_replaces() {
    let mut m = WorkerManager::new(cpu_host(), numa_host());
    m.register_port(4, "eth0", 2, 2);
    m.register_port(4, "eth1", 1, 1);
    assert_eq!(m.ports().len(), 1);
    assert_eq!(m.ports()[0].if_name, "eth1");
    assert_eq!(m.get_port_numa_node(4), Some(1));
}

#[test]
fn worker_manager_without_cores_refuses() {
    let lone = CpuTopology::new(&vec![CpuEntry { cpu_id: 0, core_id: "0".to_string(), physical_package_id: "0".to_string() }]);
    let mut m = WorkerManager::new(lone, NumaTopology::single_node(1));
    m.register_port(0, "eth0", 1, 1);
    assert_eq!(m.start_workers(), Err(NodeError::NoCores));
    assert!(!m.is_running());
}

#[test]
fn worker_manager_eal_args() {
    let m = WorkerManager::new(cpu_host(), numa_host());
    assert_eq!(m.generate_dpdk_eal_args(false, 1024), vec!["--lcores=0xe".to_string(), "--master-lcore=0".to_string()]);
    assert_eq!(
        m.generate_dpdk_eal_args(true, 2048),
        vec![
            "--lcores=0xe".to_string(),
            "--master-lcore=0".to_string(),
            "--in-memory".to_string(),
            "--socket-mem=2048,2048".to_string(),
            "--huge-unlink".to_string()
        ]
    );
}

#[test]
fn cpu_manager_start_and_stop() {
    let mut m = CpuManager::new(cpu_host());
    assert_eq!(m.get_worker_core_ids(), vec![1, 2, 3]);
    assert_eq!(m.get_socket_core_ids(0), vec![1, 2, 3]);
    assert_eq!(m.topology().total_cores, 8);
    assert_eq!(m.start_workers(2), vec![1, 2]);
    assert_eq!(m.start_workers(10), vec![1, 2, 3]);
    assert_eq!(m.stop_workers(), vec![3, 2, 1, 2, 1]);
    assert!(m.stop_workers().is_empty());
    assert_eq!(m.generate_dpdk_eal_args(), vec!["--lcores=0xe".to_string(), "--master-lcore=0".to_string()]);
}

#[test]
fn recommended_threads() {
    assert_eq!(get_recommended_thread_count(Some(&cpu_host())), 3);
    assert!(get_recommended_thread_count(None) >= 1);
    assert_eq!(recommended_thread_count(0, 8), 7);
    assert_eq!(recommended_thread_count(0, 1), 1);
    assert_eq!(recommended_thread_count(0, 0), 1);
    assert_eq!(recommended_thread_count(5, 8), 5);
}

#[test]
fn meminfo_parsing() {
    let node = "Node 0 MemTotal:       16384 kB\nNode 0 MemFree:         512 kB\nNode 0 MemTotal: again\n";
    assert_eq!(
        memtotal_lines(node),
        vec!["Node 0 MemTotal:       16384 kB".to_string(), "Node 0 MemTotal: again".to_string()]
    );
    assert!(memtotal_lines("MemFree: 1 kB").is_empty());
    assert_eq!(total_memory_mb("MemTotal:       32768000 kB\nMemFree:  1 kB\n"), Some(32000));
    assert_eq!(total_memory_mb("MemTotal: lots kB\nMemTotal:\t2048 kB"), Some(2));
    assert_eq!(total_memory_mb("MemFree: 1 kB\n"), None);
    assert_eq!(total_memory_mb(""), None);
}

#[test]
fn host_eal_init_arguments() {
    let m = WorkerManager::new(cpu_host(), numa_host());
    let c = default_dpdk_config();
    assert_eq!(app_eal_args(&m, &c, false), Err(DpdkError::InitError));
    assert_eq!(
        app_eal_args(&m, &c, true).unwrap(),
        vec![
            "--lcores=0xe".to_string(),
            "--master-lcore=0".to_string(),
            "--in-memory".to_string(),
            "--socket-mem=1024,1024".to_string(),
            "--huge-unlink".to_string()
        ]
    );
    let mut flat = default_dpdk_config();
    flat.use_huge_pages = false;
    assert_eq!(app_eal_args(&m, &flat, false).unwrap().len(), 2);
}
