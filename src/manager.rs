//! The top-level controller: one node per NUMA node, ports distributed to
//! the nodes they sit on, workers started and stopped node by node.
use vstd::prelude::*;

use crate::config::{DpdkConfig, DpdkError};
use crate::text::{dec_digits, decimal_string, hex_digits};
use crate::topology::mask_of;
use crate::node::{
    joined_by_stop, node_quota, plan_workers, socket_mem_list, stopped, NodeError, NumaNode, Worker,
};
use crate::numa::{cores_of_node, keep_workers, node_of_name, NumaTopology};
use crate::topology::{filtered_ids, CpuTopology};

verus! {

/// A port found by the driver, and the node it reports, if any.
#[derive(Clone, Debug)]
pub struct DpdkPortInfo {
    pub port_id: u16,
    pub if_name: String,
    pub numa_node: Option<usize>,
}

/// Why the manager could not go on.
#[derive(Clone, Copy, Debug, PartialEq, Eq)]
pub enum ManagerError {
    /// The driver found no port.
    NoPorts,
    /// A port reports a node that does not exist here.
    NodeUnavailable(usize),
    /// A node refused to start.
    Node(NodeError),
}

/// What identifies a registered port.
pub open spec fn port_key(p: crate::node::DpdkPort) -> (u16, Seq<char>, u16, u16) {
    (p.port_id, p.if_name@, p.num_rx_queues, p.num_tx_queues)
}

/// The node a port goes to: the one it reports, node 0 when it reports none.
pub open spec fn target_node(p: DpdkPortInfo) -> usize {
    match p.numa_node {
        Some(n) => n,
        None => 0,
    }
}

/// Whether interface `name` is local to node `node` under the NUMA layout.
pub open spec fn local_to(nic: Seq<crate::numa::NamedNode>, name: Seq<char>, node: usize) -> bool {
    match node_of_name(nic, name) {
        Some(n) => n == node,
        None => true,
    }
}

/// The ports among `ports` that node `node` registers, with `rx` and `tx` queues each.
pub open spec fn registered(
    ports: Seq<DpdkPortInfo>,
    nic: Seq<crate::numa::NamedNode>,
    node: usize,
    rx: u16,
    tx: u16,
) -> Seq<(u16, Seq<char>, u16, u16)>
    decreases ports.len(),
{
    if ports.len() == 0 {
        Seq::empty()
    } else {
        let r = registered(ports.drop_last(), nic, node, rx, tx);
        let p = ports.last();
        if target_node(p) == node && local_to(nic, p.if_name@, node) {
            r.push((p.port_id, p.if_name@, rx, tx))
        } else {
            r
        }
    }
}

/// All of the nodes that the ports report exist.
pub open spec fn all_targets_exist(ports: Seq<DpdkPortInfo>, count: nat) -> bool {
    forall|i: int| 0 <= i < ports.len() ==> (target_node(#[trigger] ports[i]) as nat) < count
}

/// Node `i` is numbered `i`.
pub open spec fn numbered(nodes: Seq<NumaNode>) -> bool {
    forall|i: int| 0 <= i < nodes.len() ==> (#[trigger] nodes[i]).node_id == i
}

/// Each node of `after` holds the ports of the same node of `before`,
/// followed by those it registers among `ports`.
pub open spec fn registrations_after(
    before: Seq<NumaNode>,
    after: Seq<NumaNode>,
    ports: Seq<DpdkPortInfo>,
    nic: Seq<crate::numa::NamedNode>,
    rx: u16,
    tx: u16,
) -> bool {
    forall|i: int|
        0 <= i < after.len() ==> (#[trigger] after[i]).local_ports@.map_values(
            |p: crate::node::DpdkPort| port_key(p),
        ) == before[i].local_ports@.map_values(|p: crate::node::DpdkPort| port_key(p)) + registered(
            ports,
            nic,
            i as usize,
            rx,
            tx,
        )
}

/// Why node `n` would refuse to start, if it would.
pub open spec fn start_error(n: NumaNode) -> Option<NodeError> {
    if n.running {
        Some(NodeError::AlreadyRunning)
    } else if n.local_cpus@.len() == 0 {
        Some(NodeError::NoCores)
    } else {
        None
    }
}

/// None of the first `k` nodes would refuse to start.
pub open spec fn startable(nodes: Seq<NumaNode>, k: int) -> bool {
    forall|i: int| 0 <= i < k ==> start_error(#[trigger] nodes[i]) is None
}

/// `after` is `before` started: running, with its planned workers.
pub open spec fn started_from(before: NumaNode, after: NumaNode) -> bool {
    &&& after.running
    &&& after.workers@ == plan_workers(before.local_ports@, before.local_cpus@)
    &&& after.node_id == before.node_id
    &&& after.local_cpus@ == before.local_cpus@
    &&& after.local_ports@ == before.local_ports@
}

/// `after` holds what `before` holds.
pub open spec fn same_node(before: NumaNode, after: NumaNode) -> bool {
    &&& after.running == before.running
    &&& after.workers@ == before.workers@
    &&& after.node_id == before.node_id
    &&& after.local_cpus@ == before.local_cpus@
    &&& after.local_ports@ == before.local_ports@
}

/// The planned workers of the nodes, node after node.
pub open spec fn plans_of(nodes: Seq<NumaNode>) -> Seq<Worker>
    decreases nodes.len(),
{
    if nodes.len() == 0 {
        Seq::empty()
    } else {
        plans_of(nodes.drop_last()) + plan_workers(nodes.last().local_ports@, nodes.last().local_cpus@)
    }
}

/// The workers a stop joins, node after node.
pub open spec fn joined_of(nodes: Seq<NumaNode>) -> Seq<Worker>
    decreases nodes.len(),
{
    if nodes.len() == 0 {
        Seq::empty()
    } else {
        joined_of(nodes.drop_last()) + joined_by_stop(nodes.last().state())
    }
}

/// Builds and drives the per-node controllers.
pub struct NumaManager {
    cpu_topology: CpuTopology,
    numa_topology: NumaTopology,
    nodes: Vec<NumaNode>,
    numa_available: bool,
}

impl NumaManager {
    pub closed spec fn nodes_view(&self) -> Seq<NumaNode> {
        self.nodes@
    }

    pub closed spec fn cpu_view(&self) -> CpuTopology {
        self.cpu_topology
    }

    pub closed spec fn numa_view(&self) -> NumaTopology {
        self.numa_topology
    }

    pub closed spec fn numa_spec(&self) -> bool {
        self.numa_available
    }

    /// The CPU layout is well formed, and node `i` is well formed and numbered `i`.
    pub closed spec fn wf(&self) -> bool {
        &&& self.cpu_topology.wf()
        &&& forall|i: int|
            0 <= i < self.nodes@.len() ==> (#[trigger] self.nodes@[i]).wf() && self.nodes@[i].node_id
                == i
    }

    /// A manager over the two layouts, with no nodes yet.
    pub fn new(cpu_topology: CpuTopology, numa_topology: NumaTopology, numa_available: bool) -> (r:
        NumaManager)
        requires
            cpu_topology.wf(),
        ensures
            r.wf(),
            r.nodes_view().len() == 0,
            r.cpu_view() == cpu_topology,
            r.numa_view() == numa_topology,
            r.numa_spec() == numa_available,
    {
        NumaManager { cpu_topology, numa_topology, nodes: Vec::new(), numa_available }
    }

    /// Creates the nodes: `numa_node_count` of them when NUMA is available,
    /// a single one otherwise.
    pub fn init_nodes(&mut self, numa_node_count: usize) -> (r: Result<(), ManagerError>)
        requires
            old(self).wf(),
        ensures
            r is Ok,
            final(self).wf(),
            final(self).cpu_view() == old(self).cpu_view(),
            final(self).numa_view() == old(self).numa_view(),
            final(self).numa_spec() == old(self).numa_spec(),
            final(self).nodes_view().len() == if old(self).numa_spec() { numa_node_count } else { 1 },
            numbered(final(self).nodes_view()),
            forall|i: int|
                0 <= i < final(self).nodes_view().len() ==> {
                    let n = #[trigger] final(self).nodes_view()[i];
                    &&& n.local_cpus@ == if old(self).numa_spec() {
                        match cores_of_node(old(self).numa_view().node_cores@, i as usize) {
                            Some(cs) => keep_workers(cs, old(self).cpu_view().cores@),
                            None => Seq::empty(),
                        }
                    } else {
                        filtered_ids(old(self).cpu_view().cores@)
                    }
                    &&& n.local_ports@.len() == 0
                    &&& !n.running
                },
    {
        let count = if self.numa_available { numa_node_count } else { 1 };
        let mut nodes: Vec<NumaNode> = Vec::new();
        for i in 0..count
            invariant
                self.cpu_topology.wf(),
                nodes@.len() == i,
                forall|k: int|
                    0 <= k < i ==> {
                        let n = #[trigger] nodes@[k];
                        &&& n.wf()
                        &&& n.node_id == k
                        &&& n.local_cpus@ == if self.numa_available {
                            match cores_of_node(self.numa_topology.node_cores@, k as usize) {
                                Some(cs) => keep_workers(cs, self.cpu_topology.cores@),
                                None => Seq::empty(),
                            }
                        } else {
                            filtered_ids(self.cpu_topology.cores@)
                        }
                        &&& n.local_ports@.len() == 0
                        &&& !n.running
                    },
        {
            let node = NumaNode::new(i, &self.cpu_topology, &self.numa_topology, self.numa_available);
            nodes.push(node);
        }
        self.nodes = nodes;
        Ok(())
    }

    /// Hands each port to the node it reports (node 0 when it reports
    /// none), which registers it when its interface is local. Fails when
    /// there is no port, or at the first port whose node does not exist.
    pub fn distribute_interfaces(&mut self, ports: &Vec<DpdkPortInfo>, dpdk_config: &DpdkConfig) -> (r:
        Result<(), ManagerError>)
        requires
            old(self).wf(),
        ensures
            final(self).wf(),
            final(self).cpu_view() == old(self).cpu_view(),
            final(self).numa_view() == old(self).numa_view(),
            final(self).numa_spec() == old(self).numa_spec(),
            final(self).nodes_view().len() == old(self).nodes_view().len(),
            ports@.len() == 0 ==> r == Err::<(), ManagerError>(ManagerError::NoPorts),
            ports@.len() > 0 ==> (r is Ok <==> all_targets_exist(
                ports@,
                old(self).nodes_view().len(),
            )),
            numbered(final(self).nodes_view()),
            ports@.len() == 0 ==> registrations_after(
                old(self).nodes_view(),
                final(self).nodes_view(),
                Seq::empty(),
                old(self).numa_view().nic_node@,
                dpdk_config.num_rx_queues,
                dpdk_config.num_tx_queues,
            ),
            r is Err && ports@.len() > 0 ==> exists|k: int|
                0 <= k < ports@.len() && r == Err::<(), ManagerError>(
                    ManagerError::NodeUnavailable(target_node(#[trigger] ports@[k])),
                ) && target_node(ports@[k]) >= old(self).nodes_view().len() && all_targets_exist(
                    ports@.subrange(0, k),
                    old(self).nodes_view().len(),
                ) && registrations_after(
                    old(self).nodes_view(),
                    final(self).nodes_view(),
                    ports@.subrange(0, k),
                    old(self).numa_view().nic_node@,
                    dpdk_config.num_rx_queues,
                    dpdk_config.num_tx_queues,
                ),
            r is Ok ==> registrations_after(
                old(self).nodes_view(),
                final(self).nodes_view(),
                ports@,
                old(self).numa_view().nic_node@,
                dpdk_config.num_rx_queues,
                dpdk_config.num_tx_queues,
            ),
    {
        if ports.len() == 0 {
            proof {
                assert forall|i: int| 0 <= i < self.nodes@.len() implies (#[trigger] self.nodes@[i]).local_ports@.map_values(
                    |p: crate::node::DpdkPort| port_key(p),
                ) == self.nodes@[i].local_ports@.map_values(|p: crate::node::DpdkPort| port_key(p)) + registered(
                    Seq::empty(),
                    self.numa_topology.nic_node@,
                    i as usize,
                    dpdk_config.num_rx_queues,
                    dpdk_config.num_tx_queues,
                ) by {
                    let m = self.nodes@[i].local_ports@.map_values(|p: crate::node::DpdkPort| port_key(p));
                    assert(m + Seq::empty() =~= m);
                }
            }
            return Err(ManagerError::NoPorts);
        }
        let ghost nodes0 = self.nodes@;
        for k in 0..ports.len()
            invariant
                self.wf(),
                self.cpu_topology == old(self).cpu_topology,
                self.numa_topology == old(self).numa_topology,
                self.numa_available == old(self).numa_available,
                nodes0 == old(self).nodes@,
                self.nodes@.len() == nodes0.len(),
                all_targets_exist(ports@.subrange(0, k as int), nodes0.len()),
                forall|i: int|
                    0 <= i < self.nodes@.len() ==> (#[trigger] self.nodes@[i]).local_ports@.map_values(
                        |p: crate::node::DpdkPort| port_key(p),
                    ) == nodes0[i].local_ports@.map_values(|p: crate::node::DpdkPort| port_key(p))
                        + registered(
                        ports@.subrange(0, k as int),
                        self.numa_topology.nic_node@,
                        i as usize,
                        dpdk_config.num_rx_queues,
                        dpdk_config.num_tx_queues,
                    ),
        {
            let ghost sub = ports@.subrange(0, k + 1);
            assert(sub.drop_last() =~= ports@.subrange(0, k as int));
            assert(sub.last() == ports@[k as int]);
            let port = &ports[k];
            let node_id = match port.numa_node {
                Some(n) => n,
                None => 0,
            };
            if node_id >= self.nodes.len() {
                proof {
                    assert(!all_targets_exist(ports@, nodes0.len()));
                    assert(target_node(ports@[k as int]) == node_id);
                }
                return Err(ManagerError::NodeUnavailable(node_id));
            }
            let ghost before = self.nodes@;
            let ghost nic = self.numa_topology.nic_node@;
            let ok = self.nodes[node_id].register_port(
                port.port_id,
                port.if_name.as_str(),
                dpdk_config.num_rx_queues,
                dpdk_config.num_tx_queues,
                &self.numa_topology,
            );
            proof {
                assert forall|i: int| 0 <= i < self.nodes@.len() implies (#[trigger] self.nodes@[i]).wf()
                    && self.nodes@[i].node_id == i by {
                    if i != node_id {
                        assert(self.nodes@[i] == before[i]);
                    }
                }
                assert(all_targets_exist(sub, nodes0.len())) by {
                    assert forall|j: int| 0 <= j < sub.len() implies (target_node(#[trigger] sub[j]) as nat) < nodes0.len() by {
                        if j < k {
                            assert(sub[j] == ports@.subrange(0, k as int)[j]);
                        }
                    }
                }
                assert forall|i: int| 0 <= i < self.nodes@.len() implies (#[trigger] self.nodes@[i]).local_ports@.map_values(
                    |p: crate::node::DpdkPort| port_key(p),
                ) == nodes0[i].local_ports@.map_values(|p: crate::node::DpdkPort| port_key(p))
                    + registered(sub, nic, i as usize, dpdk_config.num_rx_queues, dpdk_config.num_tx_queues) by {
                    let reg0 = registered(ports@.subrange(0, k as int), nic, i as usize, dpdk_config.num_rx_queues, dpdk_config.num_tx_queues);
                    let base = nodes0[i].local_ports@.map_values(|p: crate::node::DpdkPort| port_key(p));
                    if i != node_id {
                        assert(self.nodes@[i] == before[i]);
                        assert(registered(sub, nic, i as usize, dpdk_config.num_rx_queues, dpdk_config.num_tx_queues) == reg0);
                    } else {
                        let after_ports = self.nodes@[i].local_ports@;
                        let before_ports = before[i].local_ports@;
                        if ok {
                            assert(after_ports.map_values(|p: crate::node::DpdkPort| port_key(p)) =~= before_ports.map_values(
                                |p: crate::node::DpdkPort| port_key(p),
                            ).push((port.port_id, port.if_name@, dpdk_config.num_rx_queues, dpdk_config.num_tx_queues))) by {
                                assert(after_ports.drop_last() == before_ports);
                                assert forall|j: int| 0 <= j < before_ports.len() implies after_ports[j] == before_ports[j] by {
                                    assert(after_ports.drop_last()[j] == after_ports[j]);
                                }
                            }
                            assert(base + reg0.push((port.port_id, port.if_name@, dpdk_config.num_rx_queues, dpdk_config.num_tx_queues)) =~= (base + reg0).push(
                                (port.port_id, port.if_name@, dpdk_config.num_rx_queues, dpdk_config.num_tx_queues),
                            ));
                        } else {
                            assert(registered(sub, nic, i as usize, dpdk_config.num_rx_queues, dpdk_config.num_tx_queues) == reg0);
                        }
                    }
                }
            }
        }
        assert(ports@.subrange(0, ports@.len() as int) =~= ports@);
        Ok(())
    }

    /// Starts every node in order; the workers started are returned, node
    /// after node. At the first node that refuses (it runs already, or has
    /// no CPUs) it stops with that node's error: the nodes before it are
    /// started, it and those after it are left as they were.
    pub fn start_packet_processing(&mut self) -> (r: Result<Vec<Worker>, ManagerError>)
        requires
            old(self).wf(),
        ensures
            final(self).wf(),
            numbered(final(self).nodes_view()),
            final(self).nodes_view().len() == old(self).nodes_view().len(),
            final(self).cpu_view() == old(self).cpu_view(),
            final(self).numa_view() == old(self).numa_view(),
            final(self).numa_spec() == old(self).numa_spec(),
            startable(old(self).nodes_view(), old(self).nodes_view().len() as int) ==> r is Ok
                && r->Ok_0@ == plans_of(old(self).nodes_view()) && forall|i: int|
                0 <= i < final(self).nodes_view().len() ==> started_from(
                    old(self).nodes_view()[i],
                    #[trigger] final(self).nodes_view()[i],
                ),
            !startable(old(self).nodes_view(), old(self).nodes_view().len() as int) ==> exists|k: int|
                0 <= k < old(self).nodes_view().len() && startable(old(self).nodes_view(), k)
                    && start_error(#[trigger] old(self).nodes_view()[k]) is Some && r == Err::<
                    Vec<Worker>,
                    ManagerError,
                >(ManagerError::Node(start_error(old(self).nodes_view()[k])->0)) && (forall|i: int|
                    0 <= i < k ==> started_from(
                        old(self).nodes_view()[i],
                        #[trigger] final(self).nodes_view()[i],
                    )) && (forall|i: int|
                    k <= i < final(self).nodes_view().len() ==> same_node(
                        old(self).nodes_view()[i],
                        #[trigger] final(self).nodes_view()[i],
                    )),
    {
        let mut all: Vec<Worker> = Vec::new();
        let ghost nodes0 = self.nodes@;
        let n = self.nodes.len();
        for k in 0..n
            invariant
                self.wf(),
                n == self.nodes@.len(),
                nodes0 == old(self).nodes@,
                self.nodes@.len() == nodes0.len(),
                self.cpu_topology == old(self).cpu_topology,
                self.numa_topology == old(self).numa_topology,
                self.numa_available == old(self).numa_available,
                startable(nodes0, k as int),
                all@ == plans_of(nodes0.subrange(0, k as int)),
                forall|i: int| 0 <= i < k ==> started_from(nodes0[i], #[trigger] self.nodes@[i]),
                forall|i: int| k <= i < self.nodes@.len() ==> #[trigger] self.nodes@[i] == nodes0[i],
        {
            let ghost before = self.nodes@;
            let res = self.nodes[k].start_workers();
            proof {
                assert forall|i: int| 0 <= i < self.nodes@.len() implies (#[trigger] self.nodes@[i]).wf()
                    && self.nodes@[i].node_id == i by {
                    if i != k {
                        assert(self.nodes@[i] == before[i]);
                    }
                }
            }
            match res {
                Ok(ws) => {
                    let mut ws = ws;
                    all.append(&mut ws);
                    proof {
                        let sub = nodes0.subrange(0, k + 1);
                        assert(sub.drop_last() =~= nodes0.subrange(0, k as int));
                        assert(sub.last() == nodes0[k as int]);
                        assert forall|i: int| 0 <= i < k + 1 implies started_from(nodes0[i], #[trigger] self.nodes@[i]) by {
                            if i != k {
                                assert(self.nodes@[i] == before[i]);
                            }
                        }
                        assert forall|i: int| k + 1 <= i < self.nodes@.len() implies #[trigger] self.nodes@[i] == nodes0[i] by {
                            assert(self.nodes@[i] == before[i]);
                        }
                        assert forall|i: int| 0 <= i < k + 1 implies start_error(#[trigger] nodes0[i]) is None by {
                            if i < k {
                                assert(startable(nodes0, k as int));
                            }
                        }
                    }
                },
                Err(e) => {
                    proof {
                        assert(start_error(nodes0[k as int]) == Some(e));
                        assert(!startable(nodes0, nodes0.len() as int));
                        assert forall|i: int| 0 <= i < k implies started_from(nodes0[i], #[trigger] self.nodes@[i]) by {
                            assert(self.nodes@[i] == before[i]);
                        }
                        assert forall|i: int| k <= i < self.nodes@.len() implies same_node(nodes0[i], #[trigger] self.nodes@[i]) by {
                            if i != k {
                                assert(self.nodes@[i] == before[i]);
                            }
                        }
                    }
                    return Err(ManagerError::Node(e));
                },
            }
        }
        proof {
            assert(nodes0.subrange(0, n as int) =~= nodes0);
        }
        Ok(all)
    }

    /// Stops every node; the workers to join are returned, node after node,
    /// each node's last started first.
    pub fn stop_packet_processing(&mut self) -> (r: Vec<Worker>)
        requires
            old(self).wf(),
        ensures
            final(self).wf(),
            numbered(final(self).nodes_view()),
            final(self).nodes_view().len() == old(self).nodes_view().len(),
            final(self).cpu_view() == old(self).cpu_view(),
            final(self).numa_view() == old(self).numa_view(),
            final(self).numa_spec() == old(self).numa_spec(),
            forall|i: int|
                0 <= i < final(self).nodes_view().len() ==> (#[trigger] final(self).nodes_view()[i]).state()
                    == stopped(old(self).nodes_view()[i].state()),
            r@ == joined_of(old(self).nodes_view()),
    {
        let mut all: Vec<Worker> = Vec::new();
        let ghost nodes0 = self.nodes@;
        let n = self.nodes.len();
        for k in 0..n
            invariant
                self.wf(),
                n == self.nodes@.len(),
                nodes0 == old(self).nodes@,
                self.nodes@.len() == nodes0.len(),
                self.cpu_topology == old(self).cpu_topology,
                self.numa_topology == old(self).numa_topology,
                self.numa_available == old(self).numa_available,
                all@ == joined_of(nodes0.subrange(0, k as int)),
                forall|i: int| 0 <= i < k ==> (#[trigger] self.nodes@[i]).state() == stopped(nodes0[i].state()),
                forall|i: int| k <= i < self.nodes@.len() ==> #[trigger] self.nodes@[i] == nodes0[i],
        {
            let ghost before = self.nodes@;
            let mut ws = self.nodes[k].stop_workers();
            all.append(&mut ws);
            proof {
                let sub = nodes0.subrange(0, k + 1);
                assert(sub.drop_last() =~= nodes0.subrange(0, k as int));
                assert(sub.last() == nodes0[k as int]);
                assert forall|i: int| 0 <= i < self.nodes@.len() implies (#[trigger] self.nodes@[i]).wf()
                    && self.nodes@[i].node_id == i by {
                    if i != k {
                        assert(self.nodes@[i] == before[i]);
                    }
                }
                assert forall|i: int| 0 <= i < k + 1 implies (#[trigger] self.nodes@[i]).state() == stopped(nodes0[i].state()) by {
                    if i != k {
                        assert(self.nodes@[i] == before[i]);
                    }
                }
                assert forall|i: int| k + 1 <= i < self.nodes@.len() implies #[trigger] self.nodes@[i] == nodes0[i] by {
                    assert(self.nodes@[i] == before[i]);
                }
            }
        }
        proof {
            assert(nodes0.subrange(0, n as int) =~= nodes0);
        }
        all
    }

    /// The EAL arguments that initialise the driver for node `node_id`:
    /// program name, the node's CPU mask, CPU 0 as main lcore, the node's
    /// memory arguments, and with NUMA its socket. Refused when the
    /// configuration needs hugepages and the host has none.
    pub fn init_dpdk_args(&self, node_id: usize, dpdk_config: &DpdkConfig, hugepages_available: bool) -> (r:
        Result<Vec<String>, DpdkError>)
        requires
            self.wf(),
            node_id < self.nodes_view().len(),
            dpdk_config.socket_mem is Some ==> if self.numa_spec() {
                node_id < dpdk_config.socket_mem->0@.len()
            } else {
                0 < dpdk_config.socket_mem->0@.len()
            },
        ensures
            dpdk_config.use_huge_pages && !hugepages_available ==> r == Err::<Vec<String>, DpdkError>(
                DpdkError::InitError,
            ),
            !(dpdk_config.use_huge_pages && !hugepages_available) ==> r is Ok && {
                let args = r->Ok_0@;
                let mem = if dpdk_config.use_huge_pages { 1int } else { 0int };
                let extra = if self.numa_spec() { 1int } else { 0int };
                &&& args.len() == 3 + mem + extra
                &&& args[0]@ == "hfeec"@
                &&& args[1]@ == "--lcores="@ + seq!['0', 'x'] + hex_digits(
                    mask_of(self.nodes_view()[node_id as int].local_cpus@) as nat,
                )
                &&& args[2]@ == "--master-lcore=0"@
                &&& dpdk_config.use_huge_pages ==> args[3]@ == "--socket-mem="@ + if self.numa_spec() {
                    socket_mem_list(
                        self.nodes_view().len() as nat,
                        node_id as nat,
                        dec_digits(node_quota(*dpdk_config, node_id as int) as nat),
                    )
                } else {
                    dec_digits(node_quota(*dpdk_config, 0) as nat)
                }
                &&& self.numa_spec() ==> args[3 + mem]@ == "--socket-id="@ + dec_digits(node_id as nat)
            },
    {
        if dpdk_config.use_huge_pages && !hugepages_available {
            return Err(DpdkError::InitError);
        }
        let node = &self.nodes[node_id];
        let mut args: Vec<String> = Vec::new();
        args.push(String::from_str("hfeec"));
        let mask = node.generate_core_mask();
        args.push(String::from_str("--lcores=").concat(mask.as_str()));
        args.push(String::from_str("--master-lcore=0"));
        let count = if self.numa_available {
            Some(self.nodes.len())
        } else {
            None
        };
        let mut mem = node.generate_eal_args(dpdk_config, count);
        args.append(&mut mem);
        if self.numa_available {
            args.push(String::from_str("--socket-id=").concat(decimal_string(node_id).as_str()));
        }
        Ok(args)
    }

    pub fn is_numa_available(&self) -> (r: bool)
        ensures
            r == self.numa_spec(),
    {
        self.numa_available
    }

    pub fn get_node_count(&self) -> (r: usize)
        ensures
            r == self.nodes_view().len(),
    {
        self.nodes.len()
    }

    /// The node with number `node_id`, if there is one.
    pub fn get_node(&self, node_id: usize) -> (r: Option<&NumaNode>)
        ensures
            node_id < self.nodes_view().len() ==> r == Some(&self.nodes_view()[node_id as int]),
            node_id >= self.nodes_view().len() ==> r is None,
    {
        if node_id < self.nodes.len() {
            Some(&self.nodes[node_id])
        } else {
            None
        }
    }

    pub fn cpu_topology(&self) -> (r: &CpuTopology)
        ensures
            *r == self.cpu_view(),
    {
        &self.cpu_topology
    }

    pub fn numa_topology(&self) -> (r: &NumaTopology)
        ensures
            *r == self.numa_view(),
    {
        &self.numa_topology
    }
}

} // verus!
