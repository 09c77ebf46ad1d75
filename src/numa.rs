//! NUMA layout of the host: nodes and their CPUs, and which node each
//! network device sits on.
use vstd::prelude::*;

use crate::cpulist::{cpu_list_values, parse_cpu_list};
use crate::meminfo::{memory_lines, memtotal_lines};
use crate::text::{
    all_digits, append_repeated, chars_of, dec_digits, decimal_string, digits_value, numbered_entry,
    numbered_name, repeat_csv, trim, trim_bounds,
};
use crate::topology::{
    insert_distinct, is_primary_in, lemma_increasing_no_duplicates, lists_cpu, strictly_increasing, CpuTopology,
};

verus! {

/// The CPUs listed for one NUMA node.
#[derive(Clone, Debug)]
pub struct NodeCores {
    pub node_id: usize,
    pub cores: Vec<usize>,
}

/// A named device or interface and the NUMA node it sits on.
#[derive(Clone, Debug)]
pub struct NamedNode {
    pub name: String,
    pub node: usize,
}

/// One entry of the node sysfs tree: its directory name and its `cpulist`
/// and `meminfo` files, if present.
#[derive(Clone, Debug)]
pub struct NodeEntry {
    pub name: String,
    pub cpulist: Option<String>,
    pub meminfo: Option<String>,
}

/// The memory lines listed for one NUMA node.
#[derive(Clone, Debug)]
pub struct NodeMemory {
    pub node_id: usize,
    pub lines: Vec<String>,
}

/// One PCI device: its address, its `class` and `numa_node` attributes if
/// present, and the names under its `net` directory.
#[derive(Clone, Debug)]
pub struct PciEntry {
    pub device_id: String,
    pub class: Option<String>,
    pub numa_node: Option<String>,
    pub net_names: Vec<String>,
}

/// Snapshot of the NUMA layout. Where a node or a name occurs twice, the
/// later entry holds.
#[derive(Clone, Debug)]
pub struct NumaTopology {
    pub num_nodes: usize,
    pub node_cores: Vec<NodeCores>,
    pub node_memory: Vec<NodeMemory>,
    pub device_node: Vec<NamedNode>,
    pub nic_node: Vec<NamedNode>,
}

/// The CPUs of node `n`, from the last entry for it.
pub open spec fn cores_of_node(v: Seq<NodeCores>, n: usize) -> Option<Seq<usize>>
    decreases v.len(),
{
    if v.len() == 0 {
        None
    } else if v.last().node_id == n {
        Some(v.last().cores@)
    } else {
        cores_of_node(v.drop_last(), n)
    }
}

pub open spec fn lines_view(m: NodeMemory) -> Seq<Seq<char>> {
    m.lines@.map_values(|l: String| l@)
}

/// The memory lines of node `n`, from the last entry for it.
pub open spec fn memory_of_node(v: Seq<NodeMemory>, n: usize) -> Option<Seq<Seq<char>>>
    decreases v.len(),
{
    if v.len() == 0 {
        None
    } else if v.last().node_id == n {
        Some(lines_view(v.last()))
    } else {
        memory_of_node(v.drop_last(), n)
    }
}

/// The memory lines of node `n` after the entries `es`.
pub open spec fn node_memory_spec(es: Seq<NodeEntry>, n: usize) -> Option<Seq<Seq<char>>>
    decreases es.len(),
{
    if es.len() == 0 {
        None
    } else {
        let e = es.last();
        if numbered_name(e.name@, "node"@) == Some(n) && e.meminfo is Some {
            Some(memory_lines(e.meminfo->0@))
        } else {
            node_memory_spec(es.drop_last(), n)
        }
    }
}

fn node_memory_entry(n: usize, text: &str) -> (r: NodeMemory)
    ensures
        r.node_id == n,
        lines_view(r) == memory_lines(text@),
{
    let lines = memtotal_lines(text);
    let r = NodeMemory { node_id: n, lines };
    assert(lines_view(r) =~= memory_lines(text@));
    r
}

/// The node recorded for `name`, from the last entry for it.
pub open spec fn node_of_name(v: Seq<NamedNode>, name: Seq<char>) -> Option<usize>
    decreases v.len(),
{
    if v.len() == 0 {
        None
    } else if v.last().name@ == name {
        Some(v.last().node)
    } else {
        node_of_name(v.drop_last(), name)
    }
}

/// PCI class codes of network controllers start with `0x02`.
pub open spec fn is_network_class(class: Seq<char>) -> bool {
    class.len() >= 4 && class.subrange(0, 4) == seq!['0', 'x', '0', '2']
}

/// A `numa_node` attribute: a node number, or a negative value (or
/// anything unreadable) for no affinity.
pub open spec fn node_attr(s: Seq<char>) -> Option<usize> {
    let u = trim(s);
    if u.len() > 0 && all_digits(u) && digits_value(u) <= i32::MAX {
        Some(digits_value(u) as usize)
    } else {
        None
    }
}

pub open spec fn pci_node(e: PciEntry) -> Option<usize> {
    match (e.class, e.numa_node) {
        (Some(c), Some(n)) => if is_network_class(c@) {
            node_attr(n@)
        } else {
            None
        },
        _ => None,
    }
}

/// The nodes that the entries name, each once.
pub open spec fn node_ids(es: Seq<NodeEntry>) -> Set<usize> {
    Set::new(
        |n: usize|
            exists|i: int| 0 <= i < es.len() && numbered_name((#[trigger] es[i]).name@, "node"@) == Some(n),
    )
}

/// `0, 1, ..., n - 1`.
pub open spec fn first_cpus(n: usize) -> Seq<usize> {
    Seq::new(n as nat, |i: int| i as usize)
}

impl NumaTopology {
    /// The layout of a host without a node tree: one node holding CPUs
    /// `0..cpu_count`.
    pub fn single_node(cpu_count: usize) -> (r: NumaTopology)
        ensures
            r.num_nodes == 1,
            r.node_cores@.len() == 1,
            cores_of_node(r.node_cores@, 0) == Some(first_cpus(cpu_count)),
            r.node_memory@.len() == 0,
            r.device_node@.len() == 0,
            r.nic_node@.len() == 0,
    {
        let mut cores: Vec<usize> = Vec::new();
        for i in 0..cpu_count
            invariant
                cores@ == first_cpus(i),
        {
            cores.push(i);
            assert(cores@ =~= first_cpus((i + 1) as usize));
        }
        let mut node_cores: Vec<NodeCores> = Vec::new();
        node_cores.push(NodeCores { node_id: 0, cores });
        NumaTopology {
            num_nodes: 1,
            node_cores,
            node_memory: Vec::new(),
            device_node: Vec::new(),
            nic_node: Vec::new(),
        }
    }

    /// Builds the snapshot from the node tree entries and the PCI devices.
    /// Entries whose names are not `node<N>` are skipped; a node without a
    /// `cpulist` has no CPU list, and one with an empty list keeps its number.
    pub fn new(nodes: &Vec<NodeEntry>, pci: &Vec<PciEntry>) -> (r: NumaTopology)
        ensures
            r.num_nodes == node_ids(nodes@).len(),
            forall|n: usize|
                #[trigger] cores_of_node(r.node_cores@, n) == node_cores_spec(nodes@, n),
            forall|n: usize|
                #[trigger] memory_of_node(r.node_memory@, n) == node_memory_spec(nodes@, n),
            forall|d: Seq<char>|
                #[trigger] node_of_name(r.device_node@, d) == device_node_spec(pci@, d),
            forall|d: Seq<char>| #[trigger] node_of_name(r.nic_node@, d) == nic_node_spec(pci@, d),
    {
        let mut ids: Vec<usize> = Vec::new();
        let mut node_cores: Vec<NodeCores> = Vec::new();
        let mut node_memory: Vec<NodeMemory> = Vec::new();
        proof {
            assert(ids@.to_set() =~= node_ids(nodes@.subrange(0, 0)));
        }
        for k in 0..nodes.len()
            invariant
                strictly_increasing(ids@),
                ids@.to_set() == node_ids(nodes@.subrange(0, k as int)),
                forall|n: usize|
                    #[trigger] cores_of_node(node_cores@, n) == node_cores_spec(
                        nodes@.subrange(0, k as int),
                        n,
                    ),
                forall|n: usize|
                    #[trigger] memory_of_node(node_memory@, n) == node_memory_spec(
                        nodes@.subrange(0, k as int),
                        n,
                    ),
        {
            let ghost pre = nodes@.subrange(0, k as int);
            let ghost next = nodes@.subrange(0, k + 1);
            proof {
                assert(next.drop_last() =~= pre);
            }
            let e = &nodes[k];
            assert(next.last() == nodes@[k as int]);
            match numbered_entry(e.name.as_str(), "node") {
                Some(n) => {
                    insert_distinct(&mut ids, n);
                    let ghost nc0 = node_cores@;
                    match &e.cpulist {
                        Some(list) => {
                            let cores = parse_cpu_list(list.as_str());
                            node_cores.push(NodeCores { node_id: n, cores });
                            proof {
                                assert(node_cores@.drop_last() =~= nc0);
                                assert forall|m: usize| #[trigger] cores_of_node(node_cores@, m) == node_cores_spec(next, m) by {
                                    assert(next.last() == *e);
                                    assert(next.drop_last() == pre);
                                    if m == n {
                                        assert(node_cores_spec(next, m) == Some(cpu_list_values(list@)));
                                        assert(cores_of_node(node_cores@, m) == Some(cores@));
                                    } else {
                                        assert(node_cores_spec(next, m) == node_cores_spec(pre, m));
                                        assert(cores_of_node(node_cores@, m) == cores_of_node(nc0, m));
                                    }
                                }
                            }
                        },
                        None => {
                            proof {
                                assert forall|m: usize| #[trigger] cores_of_node(node_cores@, m) == node_cores_spec(next, m) by {
                                    assert(next.last() == *e);
                                    assert(next.drop_last() == pre);
                                    assert(node_cores_spec(next, m) == node_cores_spec(pre, m));
                                }
                            }
                        },
                    }
                    let ghost nm0 = node_memory@;
                    match &e.meminfo {
                        Some(text) => {
                            let m = node_memory_entry(n, text.as_str());
                            node_memory.push(m);
                            proof {
                                assert(node_memory@.drop_last() =~= nm0);
                                assert forall|m2: usize| #[trigger] memory_of_node(node_memory@, m2) == node_memory_spec(next, m2) by {
                                    assert(next.last() == *e);
                                    assert(next.drop_last() == pre);
                                    if m2 == n {
                                        assert(node_memory_spec(next, m2) == Some(memory_lines(text@)));
                                        assert(memory_of_node(node_memory@, m2) == Some(lines_view(m)));
                                    } else {
                                        assert(node_memory_spec(next, m2) == node_memory_spec(pre, m2));
                                        assert(memory_of_node(node_memory@, m2) == memory_of_node(nm0, m2));
                                    }
                                }
                            }
                        },
                        None => {
                            proof {
                                assert forall|m2: usize| #[trigger] memory_of_node(node_memory@, m2) == node_memory_spec(next, m2) by {
                                    assert(next.last() == *e);
                                    assert(next.drop_last() == pre);
                                    assert(node_memory_spec(next, m2) == node_memory_spec(pre, m2));
                                }
                            }
                        },
                    }
                    proof {
                        lemma_node_ids_step(pre, next, n);
                    }
                },
                None => {
                    proof {
                        lemma_node_ids_skip(pre, next);
                        assert forall|m: usize| #[trigger] cores_of_node(node_cores@, m) == node_cores_spec(next, m) by {
                            assert(next.last() == *e);
                            assert(next.drop_last() == pre);
                            assert(node_cores_spec(next, m) == node_cores_spec(pre, m));
                        }
                        assert forall|m: usize| #[trigger] memory_of_node(node_memory@, m) == node_memory_spec(next, m) by {
                            assert(next.last() == *e);
                            assert(next.drop_last() == pre);
                            assert(node_memory_spec(next, m) == node_memory_spec(pre, m));
                        }
                    }
                },
            }
        }
        proof {
            assert(nodes@.subrange(0, nodes@.len() as int) =~= nodes@);
            lemma_increasing_no_duplicates(ids@);
            ids@.unique_seq_to_set();
        }
        let (device_node, nic_node) = pci_nodes(pci);
        NumaTopology { num_nodes: ids.len(), node_cores, node_memory, device_node, nic_node }
    }

    /// The node of network interface `ifname`, if one was recorded.
    pub fn get_nic_node(&self, ifname: &str) -> (r: Option<usize>)
        ensures
            r == node_of_name(self.nic_node@, ifname@),
    {
        lookup_name(&self.nic_node, ifname)
    }

    /// The worker CPUs of node `node_id`: those it lists that are primary
    /// logical CPUs, other than CPU 0, in the order listed.
    pub fn get_node_physical_cores(&self, node_id: usize, cpu_topology: &CpuTopology) -> (r: Vec<
        usize,
    >)
        requires
            cpu_topology.wf(),
        ensures
            r@ == match cores_of_node(self.node_cores@, node_id) {
                Some(cs) => keep_workers(cs, cpu_topology.cores@),
                None => Seq::empty(),
            },
    {
        let mut k: usize = self.node_cores.len();
        assert(self.node_cores@.subrange(0, k as int) =~= self.node_cores@);
        while k > 0 && self.node_cores[k - 1].node_id != node_id
            invariant
                k <= self.node_cores@.len(),
                cores_of_node(self.node_cores@, node_id) == cores_of_node(
                    self.node_cores@.subrange(0, k as int),
                    node_id,
                ),
            decreases k,
        {
            assert(self.node_cores@.subrange(0, k as int).drop_last() =~= self.node_cores@.subrange(
                0,
                k - 1,
            ));
            k = k - 1;
        }
        if k == 0 {
            return Vec::new();
        }
        let cs = &self.node_cores[k - 1].cores;
        let mut out: Vec<usize> = Vec::new();
        for i in 0..cs.len()
            invariant
                cpu_topology.wf(),
                out@ == keep_workers(cs@.subrange(0, i as int), cpu_topology.cores@),
        {
            assert(cs@.subrange(0, i + 1).drop_last() =~= cs@.subrange(0, i as int));
            let id = cs[i];
            if id != 0 && cpu_topology.contains_cpu(id) && cpu_topology.is_primary_logical_core(id) {
                out.push(id);
            }
        }
        assert(cs@.subrange(0, cs@.len() as int) =~= cs@);
        out
    }

    /// `--socket-mem=` with `mb_per_node` for each node, comma-separated.
    pub fn get_socket_memory_config(&self, mb_per_node: usize) -> (r: Vec<String>)
        ensures
            r@.len() == 1,
            r@[0]@ == "--socket-mem="@ + repeat_csv(
                dec_digits(mb_per_node as nat),
                if self.num_nodes <= 1 {
                    1
                } else {
                    self.num_nodes as nat
                },
            ),
    {
        let count = if self.num_nodes <= 1 {
            1
        } else {
            self.num_nodes
        };
        let v = decimal_string(mb_per_node);
        let mut s = String::from_str("--socket-mem=");
        append_repeated(&mut s, v.as_str(), count);
        let mut r: Vec<String> = Vec::new();
        r.push(s);
        r
    }
}

/// The CPUs of a node's list that the CPU layout lists as primary logical
/// CPUs, other than CPU 0, in the node's order.
pub open spec fn keep_workers(cs: Seq<usize>, cores: Seq<crate::topology::LogicalCore>) -> Seq<usize>
    decreases cs.len(),
{
    if cs.len() == 0 {
        Seq::empty()
    } else {
        let r = keep_workers(cs.drop_last(), cores);
        if cs.last() != 0 && lists_cpu(cores, cs.last()) && is_primary_in(cores, cs.last()) {
            r.push(cs.last())
        } else {
            r
        }
    }
}

/// The CPU list of node `n` after the entries `es`.
pub open spec fn node_cores_spec(es: Seq<NodeEntry>, n: usize) -> Option<Seq<usize>>
    decreases es.len(),
{
    if es.len() == 0 {
        None
    } else {
        let e = es.last();
        if numbered_name(e.name@, "node"@) == Some(n) && e.cpulist is Some {
            Some(cpu_list_values(e.cpulist->0@))
        } else {
            node_cores_spec(es.drop_last(), n)
        }
    }
}

/// The node recorded for PCI device `d` after the entries `es`.
pub open spec fn device_node_spec(es: Seq<PciEntry>, d: Seq<char>) -> Option<usize>
    decreases es.len(),
{
    if es.len() == 0 {
        None
    } else {
        let e = es.last();
        if e.device_id@ == d && pci_node(e) is Some {
            pci_node(e)
        } else {
            device_node_spec(es.drop_last(), d)
        }
    }
}

/// Whether `names` holds `n`.
pub open spec fn has_name(names: Seq<String>, n: Seq<char>) -> bool {
    exists|i: int| 0 <= i < names.len() && (#[trigger] names[i])@ == n
}

/// The node recorded for interface `n` after the entries `es`.
pub open spec fn nic_node_spec(es: Seq<PciEntry>, n: Seq<char>) -> Option<usize>
    decreases es.len(),
{
    if es.len() == 0 {
        None
    } else {
        let e = es.last();
        if has_name(e.net_names@, n) && pci_node(e) is Some {
            pci_node(e)
        } else {
            nic_node_spec(es.drop_last(), n)
        }
    }
}

proof fn lemma_node_ids_step(pre: Seq<NodeEntry>, next: Seq<NodeEntry>, n: usize)
    requires
        next.drop_last() == pre,
        next.len() == pre.len() + 1,
        numbered_name(next.last().name@, "node"@) == Some(n),
    ensures
        node_ids(next) == node_ids(pre).insert(n),
{
    assert forall|m: usize| #[trigger] node_ids(next).contains(m) implies node_ids(pre).insert(n).contains(m) by {
        let w = choose|w: int| 0 <= w < next.len() && numbered_name((#[trigger] next[w]).name@, "node"@) == Some(m);
        if w < pre.len() {
            assert(pre[w] == next[w]);
        }
    }
    assert forall|m: usize| #[trigger] node_ids(pre).contains(m) implies node_ids(next).contains(m) by {
        let w = choose|w: int| 0 <= w < pre.len() && numbered_name((#[trigger] pre[w]).name@, "node"@) == Some(m);
        assert(next[w] == pre[w]);
    }
    assert(node_ids(next).contains(n)) by {
        assert(next[pre.len() as int] == next.last());
    }
    assert(node_ids(next) =~= node_ids(pre).insert(n));
}

proof fn lemma_node_ids_skip(pre: Seq<NodeEntry>, next: Seq<NodeEntry>)
    requires
        next.drop_last() == pre,
        next.len() == pre.len() + 1,
        numbered_name(next.last().name@, "node"@) is None,
    ensures
        node_ids(next) == node_ids(pre),
{
    assert forall|m: usize| #[trigger] node_ids(next).contains(m) implies node_ids(pre).contains(m) by {
        let w = choose|w: int| 0 <= w < next.len() && numbered_name((#[trigger] next[w]).name@, "node"@) == Some(m);
        if w < pre.len() {
            assert(pre[w] == next[w]);
        } else {
            assert(next[w] == next.last());
        }
    }
    assert forall|m: usize| #[trigger] node_ids(pre).contains(m) implies node_ids(next).contains(m) by {
        let w = choose|w: int| 0 <= w < pre.len() && numbered_name((#[trigger] pre[w]).name@, "node"@) == Some(m);
        assert(next[w] == pre[w]);
    }
    assert(node_ids(next) =~= node_ids(pre));
}

/// Whether `class` starts with the network class prefix `0x02`.
fn network_class(class: &str) -> (r: bool)
    ensures
        r == is_network_class(class@),
{
    let cs = chars_of(class);
    if cs.len() < 4 {
        return false;
    }
    let r = cs[0] == '0' && cs[1] == 'x' && cs[2] == '0' && cs[3] == '2';
    assert(r == (cs@.subrange(0, 4) =~= seq!['0', 'x', '0', '2']));
    r
}

/// Reads a `numa_node` attribute.
pub fn parse_node_attr(s: &str) -> (r: Option<usize>)
    ensures
        r == node_attr(s@),
{
    let cs = chars_of(s);
    let (lo, hi) = trim_bounds(&cs);
    match crate::text::digits_in(&cs, lo, hi) {
        Some(v) => {
            if v <= 0x7fff_ffff {
                Some(v)
            } else {
                None
            }
        },
        None => {
            proof {
                assert(trim(s@) == cs@.subrange(lo as int, hi as int));
            }
            None
        },
    }
}

/// The node of one PCI device, when it is a network controller with a node.
fn pci_entry_node(e: &PciEntry) -> (r: Option<usize>)
    ensures
        r == pci_node(*e),
{
    match (&e.class, &e.numa_node) {
        (Some(c), Some(n)) => {
            if network_class(c.as_str()) {
                parse_node_attr(n.as_str())
            } else {
                None
            }
        },
        _ => None,
    }
}

fn pci_nodes(pci: &Vec<PciEntry>) -> (r: (Vec<NamedNode>, Vec<NamedNode>))
    ensures
        forall|d: Seq<char>| #[trigger] node_of_name(r.0@, d) == device_node_spec(pci@, d),
        forall|d: Seq<char>| #[trigger] node_of_name(r.1@, d) == nic_node_spec(pci@, d),
{
    let mut devices: Vec<NamedNode> = Vec::new();
    let mut nics: Vec<NamedNode> = Vec::new();
    for k in 0..pci.len()
        invariant
            forall|d: Seq<char>|
                #[trigger] node_of_name(devices@, d) == device_node_spec(pci@.subrange(0, k as int), d),
            forall|d: Seq<char>|
                #[trigger] node_of_name(nics@, d) == nic_node_spec(pci@.subrange(0, k as int), d),
    {
        let ghost pre = pci@.subrange(0, k as int);
        let ghost next = pci@.subrange(0, k + 1);
        proof {
            assert(next.drop_last() =~= pre);
        }
        let e = &pci[k];
        assert(next.last() == pci@[k as int]);
        match pci_entry_node(e) {
            Some(node) => {
                let ghost dev0 = devices@;
                let dev_name = e.device_id.clone();
                devices.push(NamedNode { name: dev_name, node });
                proof {
                    assert(devices@.drop_last() =~= dev0);
                    assert(devices@.last().name@ == e.device_id@);
                    assert forall|d: Seq<char>| #[trigger] node_of_name(devices@, d) == device_node_spec(next, d) by {
                        assert(next.last() == *e);
                        assert(next.drop_last() == pre);
                        assert(pci_node(*e) == Some(node));
                        if e.device_id@ == d {
                            assert(device_node_spec(next, d) == Some(node));
                            assert(node_of_name(devices@, d) == Some(node));
                        } else {
                            assert(device_node_spec(next, d) == device_node_spec(pre, d));
                            assert(node_of_name(devices@, d) == node_of_name(dev0, d));
                        }
                    }
                }
                let ghost nics0 = nics@;
                for j in 0..e.net_names.len()
                    invariant
                        nics0.len() <= nics@.len(),
                        nics@.subrange(0, nics0.len() as int) == nics0,
                        forall|i: int| nics0.len() <= i < nics@.len() ==> (#[trigger] nics@[i]).node == node,
                        forall|d: Seq<char>|
                            #[trigger] node_of_name(nics@, d) == if has_name(e.net_names@.subrange(0, j as int), d) {
                                Some(node)
                            } else {
                                node_of_name(nics0, d)
                            },
                {
                    let ghost before = nics@;
                    let nic_name = e.net_names[j].clone();
                    nics.push(NamedNode { name: nic_name, node });
                    proof {
                        assert(nics@.drop_last() =~= before);
                        assert(nics@.last().name@ == e.net_names@[j as int]@);
                        assert(nics@.subrange(0, nics0.len() as int) =~= nics0);
                        assert forall|d: Seq<char>| #[trigger] node_of_name(nics@, d) == if has_name(e.net_names@.subrange(0, j + 1), d) {
                            Some(node)
                        } else {
                            node_of_name(nics0, d)
                        } by {
                            let names1 = e.net_names@.subrange(0, j + 1);
                            let names0 = e.net_names@.subrange(0, j as int);
                            if e.net_names@[j as int]@ == d {
                                assert(node_of_name(nics@, d) == Some(node));
                                assert(names1[j as int] == e.net_names@[j as int]);
                            } else {
                                assert(node_of_name(nics@, d) == node_of_name(before, d));
                            }
                            if has_name(names1, d) {
                                let w = choose|w: int| 0 <= w < names1.len() && (#[trigger] names1[w])@ == d;
                                if w < j {
                                    assert(names0[w] == names1[w]);
                                }
                            } else {
                                assert(names1[j as int] == e.net_names@[j as int]);
                                assert forall|w: int| 0 <= w < names0.len() implies (#[trigger] names0[w])@ != d by {
                                    assert(names1[w] == names0[w]);
                                }
                            }
                        }
                    }
                }
                proof {
                    assert(e.net_names@.subrange(0, e.net_names@.len() as int) =~= e.net_names@);
                }
            },
            None => {},
        }
    }
    proof {
        assert(pci@.subrange(0, pci@.len() as int) =~= pci@);
    }
    (devices, nics)
}

/// Looks `name` up, the last entry for it holding.
fn lookup_name(v: &Vec<NamedNode>, name: &str) -> (r: Option<usize>)
    ensures
        r == node_of_name(v@, name@),
{
    let key = String::from_str(name);
    let mut k: usize = v.len();
    assert(v@.subrange(0, k as int) =~= v@);
    while k > 0
        invariant
            k <= v@.len(),
            key@ == name@,
            node_of_name(v@, name@) == node_of_name(v@.subrange(0, k as int), name@),
        decreases k,
    {
        let ghost sub = v@.subrange(0, k as int);
        assert(sub.drop_last() =~= v@.subrange(0, k - 1));
        if v[k - 1].name == key {
            return Some(v[k - 1].node);
        }
        k = k - 1;
    }
    None
}

} // verus!
