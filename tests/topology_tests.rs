use hfeec::cpulist::parse_cpu_list;
use hfeec::numa::{NodeEntry, NumaTopology, PciEntry};
use hfeec::text::{numbered_entry, parse_id_or_zero, parse_u32_or_zero};
use hfeec::topology::{is_hyperthreading_enabled, CpuEntry, CpuTopology};

fn entry(cpu: usize, core: &str, socket: &str) -> CpuEntry {
    CpuEntry { cpu_id: cpu, core_id: core.to_string(), physical_package_id: socket.to_string() }
}

/// Two sockets, two cores each, two threads per core; entries out of order.
fn two_socket_host() -> CpuTopology {
    let entries = vec![
        entry(4, "0", "1"),
        entry(0, "0", "0"),
        entry(2, "0", "0"),
        entry(1, "1", "0"),
        entry(3, "1", "0"),
        entry(5, "2", "1"),
        entry(6, "0", "1"),
        entry(7, "2", "1"),
    ];
    CpuTopology::new(&entries)
}

#[test]
fn parse_cpu_list_ranges_and_singles() {
    assert_eq!(parse_cpu_list("0-3,5,7-9"), vec![0, 1, 2, 3, 5, 7, 8, 9]);
    assert_eq!(parse_cpu_list("0,2,4"), vec![0, 2, 4]);
    assert_eq!(parse_cpu_list("0-2"), vec![0, 1, 2]);
}

#[test]
fn parse_cpu_list_tolerates_whitespace() {
    assert_eq!(parse_cpu_list(" 1 - 3 "), vec![1, 2, 3]);
    assert_eq!(parse_cpu_list("0-1\n"), vec![0, 1]);
}

#[test]
fn parse_cpu_list_drops_invalid_tokens() {
    assert_eq!(parse_cpu_list("a,3,5-x,7,1-2-3,,+4"), vec![3, 7]);
    assert_eq!(parse_cpu_list(""), Vec::<usize>::new());
    assert_eq!(parse_cpu_list("3-1"), Vec::<usize>::new());
    assert_eq!(parse_cpu_list("99999999999999999999999"), Vec::<usize>::new());
}

#[test]
fn parse_cpu_list_keeps_repetitions_in_order() {
    assert_eq!(parse_cpu_list("4,1-2,1"), vec![4, 1, 2, 1]);
}

#[test]
fn sysfs_attribute_parsing() {
    assert_eq!(parse_id_or_zero(" 12\n"), 12);
    assert_eq!(parse_id_or_zero("x"), 0);
    assert_eq!(parse_id_or_zero(""), 0);
    assert_eq!(parse_u32_or_zero("512"), 512);
    assert_eq!(parse_u32_or_zero("4294967296"), 0);
    assert_eq!(numbered_entry("cpu12", "cpu"), Some(12));
    assert_eq!(numbered_entry("cpufreq", "cpu"), None);
    assert_eq!(numbered_entry("cpu", "cpu"), None);
    assert_eq!(numbered_entry("node1", "node"), Some(1));
}

#[test]
fn topology_counts_and_order() {
    let t = two_socket_host();
    assert_eq!(t.total_cores, 8);
    // core 0 of socket 0 and core 0 of socket 1 are two physical cores
    assert_eq!(t.physical_cores, 4);
    assert_eq!(t.sockets, 2);
    let ids: Vec<usize> = t.cores.iter().map(|c| c.id).collect();
    assert_eq!(ids, vec![0, 1, 2, 3, 4, 5, 6, 7]);
    assert!(is_hyperthreading_enabled(&t));
}

#[test]
fn primary_core_is_smallest_sibling() {
    let t = two_socket_host();
    assert!(t.is_primary_logical_core(0));
    assert!(!t.is_primary_logical_core(2));
    assert!(t.is_primary_logical_core(4));
    assert!(!t.is_primary_logical_core(6));
    assert!(t.is_primary_logical_core(1));
    assert!(!t.is_primary_logical_core(3));
    assert!(t.is_primary_logical_core(5));
    assert!(!t.is_primary_logical_core(7));
    // a CPU that is not listed counts as primary
    assert!(t.is_primary_logical_core(42));
    assert_eq!(t.get_physical_core_ids(), vec![0, 1, 4, 5]);
}

#[test]
fn filtered_cores_exclude_zero_and_siblings() {
    let t = two_socket_host();
    let f = t.get_filtered_core_ids();
    assert_eq!(f, vec![1, 4, 5]);
    assert!(!f.contains(&0));
    for c in &f {
        assert!(t.is_primary_logical_core(*c));
    }
}

#[test]
fn socket_queries() {
    let t = two_socket_host();
    assert_eq!(t.get_all_socket_cores(0), vec![0, 1, 2, 3]);
    assert_eq!(t.get_all_socket_cores(1), vec![4, 5, 6, 7]);
    assert_eq!(t.get_all_socket_cores(9), Vec::<usize>::new());
    assert_eq!(t.get_socket_core_ids(0), vec![1]);
    assert_eq!(t.get_socket_core_ids(1), vec![4, 5]);
    assert_eq!(t.get_core_socket_id(6), Some(1));
    assert_eq!(t.get_core_socket_id(60), None);
    assert_eq!(t.get_available_sockets(), vec![0, 1]);
}

#[test]
fn core_mask_and_eal_args() {
    let t = two_socket_host();
    assert_eq!(t.generate_core_mask(), "0x32");
    assert_eq!(t.generate_eal_cpu_args(), vec!["--lcores=0x32".to_string(), "--master-lcore=0".to_string()]);
}

#[test]
fn core_mask_ignores_cpus_from_64() {
    let entries = vec![entry(0, "0", "0"), entry(63, "63", "0"), entry(64, "64", "0"), entry(10, "10", "0")];
    let t = CpuTopology::new(&entries);
    assert_eq!(t.get_filtered_core_ids(), vec![10, 63, 64]);
    assert_eq!(t.generate_core_mask(), "0x8000000000000400");
}

#[test]
fn unreadable_attributes_count_as_zero_and_later_entry_wins() {
    let entries = vec![entry(3, "", "junk"), entry(1, "1", "0"), entry(3, "3", "0")];
    let t = CpuTopology::new(&entries);
    assert_eq!(t.total_cores, 2);
    assert_eq!(t.cores[1].core_id, 3);
    let entries = vec![entry(3, "", "junk")];
    let t = CpuTopology::new(&entries);
    assert_eq!(t.cores[0].core_id, 0);
    assert_eq!(t.cores[0].socket_id, 0);
}

#[test]
fn single_node_fallback() {
    let n = NumaTopology::single_node(4);
    assert_eq!(n.num_nodes, 1);
    assert_eq!(n.node_cores.len(), 1);
    assert_eq!(n.node_cores[0].node_id, 0);
    assert_eq!(n.node_cores[0].cores, vec![0, 1, 2, 3]);
}

fn node_entry(name: &str, cpulist: Option<&str>) -> NodeEntry {
    NodeEntry {
        name: name.to_string(),
        cpulist: cpulist.map(|s| s.to_string()),
        meminfo: Some(format!("Node {} MemTotal:       16384 kB\nNode {} MemFree:        8192 kB\n", name, name)),
    }
}

fn pci(dev: &str, class: &str, node: &str, nets: &[&str]) -> PciEntry {
    PciEntry {
        device_id: dev.to_string(),
        class: Some(class.to_string()),
        numa_node: Some(node.to_string()),
        net_names: nets.iter().map(|s| s.to_string()).collect(),
    }
}

fn two_node_layout() -> NumaTopology {
    let nodes = vec![
        node_entry("node0", Some("0-3")),
        node_entry("possible", Some("0-7")),
        node_entry("node1", Some("4-7\n")),
        node_entry("node2", Some("")),
    ];
    let devices = vec![
        pci("0000:01:00.0", "0x020000", "1\n", &["eth0", "eth1"]),
        pci("0000:02:00.0", "0x020000", "-1", &["eth2"]),
        pci("0000:03:00.0", "0x010601", "0", &["sda"]),
        pci("0000:04:00.0", "0x020000", "0", &["eth3"]),
    ];
    NumaTopology::new(&nodes, &devices)
}

#[test]
fn numa_layout_from_sysfs() {
    let n = two_node_layout();
    assert_eq!(n.num_nodes, 3);
    assert_eq!(n.get_nic_node("eth0"), Some(1));
    assert_eq!(n.get_nic_node("eth1"), Some(1));
    assert_eq!(n.get_nic_node("eth2"), None);
    assert_eq!(n.get_nic_node("sda"), None);
    assert_eq!(n.get_nic_node("eth3"), Some(0));
    assert_eq!(n.device_node.len(), 2);
    assert_eq!(n.node_memory.len(), 3);
    assert_eq!(n.node_memory[1].node_id, 1);
    assert_eq!(n.node_memory[1].lines, vec!["Node node1 MemTotal:       16384 kB".to_string()]);
}

#[test]
fn node_worker_cores() {
    let t = two_socket_host();
    let n = two_node_layout();
    assert_eq!(n.get_node_physical_cores(0, &t), vec![1]);
    assert_eq!(n.get_node_physical_cores(1, &t), vec![4, 5]);
    assert_eq!(n.get_node_physical_cores(2, &t), Vec::<usize>::new());
    assert_eq!(n.get_node_physical_cores(7, &t), Vec::<usize>::new());
}

#[test]
fn socket_memory_config() {
    let n = two_node_layout();
    assert_eq!(n.get_socket_memory_config(1024), vec!["--socket-mem=1024,1024,1024".to_string()]);
    let single = NumaTopology::single_node(2);
    assert_eq!(single.get_socket_memory_config(512), vec!["--socket-mem=512".to_string()]);
}

#[test]
fn node_cores_need_a_listed_primary_cpu() {
    let empty = CpuTopology::new(&vec![]);
    let nodes = vec![node_entry("node0", Some("0-3"))];
    let n = NumaTopology::new(&nodes, &vec![]);
    assert_eq!(n.get_node_physical_cores(0, &empty), Vec::<usize>::new());
    let one = CpuTopology::new(&vec![entry(2, "0", "0")]);
    assert_eq!(n.get_node_physical_cores(0, &one), vec![2]);
    assert!(one.contains_cpu(2));
    assert!(!one.contains_cpu(3));
}
