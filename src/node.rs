//! One NUMA node's execution island: its cores, its ports, and the workers
//! that poll them. Threads are run by the caller; the node decides which
//! workers exist and on which cores.
use vstd::prelude::*;

use crate::config::DpdkConfig;
use crate::numa::{cores_of_node, keep_workers, node_of_name, NumaTopology};
use crate::text::{dec_digits, decimal_string, hex_digits};
use crate::topology::{filtered_ids, mask_of, core_mask_of, mask_string, CpuTopology};

verus! {

/// A port served by a node.
#[derive(Clone, Debug)]
pub struct DpdkPort {
    pub port_id: u16,
    pub if_name: String,
    pub num_rx_queues: u16,
    pub num_tx_queues: u16,
}

/// A worker: the RX queue it polls and the core it is pinned to.
#[derive(Clone, Copy, Debug, PartialEq, Eq)]
pub struct Worker {
    pub core_id: usize,
    pub port_id: u16,
    pub queue_id: u16,
}

/// Why a node refused to start its workers.
#[derive(Clone, Copy, Debug, PartialEq, Eq)]
pub enum NodeError {
    AlreadyRunning,
    NoCores,
}

/// Controller state of one NUMA node.
pub struct NumaNode {
    pub node_id: usize,
    pub local_cpus: Vec<usize>,
    pub local_ports: Vec<DpdkPort>,
    pub workers: Vec<Worker>,
    pub running: bool,
}

/// The workers for `port`: queue `q` on core `cpus[q mod |cpus|]`.
pub open spec fn port_workers(port: DpdkPort, cpus: Seq<usize>) -> Seq<Worker> {
    Seq::new(
        port.num_rx_queues as nat,
        |q: int| Worker { core_id: cpus[q % (cpus.len() as int)], port_id: port.port_id, queue_id: q as u16 },
    )
}

/// The workers for all `ports`, port by port, queue by queue.
pub open spec fn plan_workers(ports: Seq<DpdkPort>, cpus: Seq<usize>) -> Seq<Worker>
    decreases ports.len(),
{
    if ports.len() == 0 {
        Seq::empty()
    } else {
        plan_workers(ports.drop_last(), cpus) + port_workers(ports.last(), cpus)
    }
}

/// The running flag and the workers of a node.
pub struct NodeState {
    pub running: bool,
    pub workers: Seq<Worker>,
}

/// State after a stop: not running, no workers.
pub open spec fn stopped(s: NodeState) -> NodeState {
    if s.running {
        NodeState { running: false, workers: Seq::empty() }
    } else {
        s
    }
}

/// Workers joined by a stop, last started first.
pub open spec fn joined_by_stop(s: NodeState) -> Seq<Worker> {
    if s.running {
        s.workers.reverse()
    } else {
        Seq::empty()
    }
}

/// Megabytes of hugepage memory asked for on node `i`.
pub open spec fn node_quota(config: DpdkConfig, i: int) -> u32 {
    match config.socket_mem {
        Some(v) => v@[i],
        None => 1024,
    }
}

/// `count` comma-separated amounts: `quota` at position `at`, `0` elsewhere.
pub open spec fn socket_mem_list(count: nat, at: nat, quota: Seq<char>) -> Seq<char>
    decreases count,
{
    if count == 0 {
        Seq::empty()
    } else {
        let item = if count - 1 == at { quota } else { seq!['0'] };
        let prev = socket_mem_list((count - 1) as nat, at, quota);
        if count == 1 {
            item
        } else {
            prev + seq![','] + item
        }
    }
}

impl NumaNode {
    pub open spec fn state(&self) -> NodeState {
        NodeState { running: self.running, workers: self.workers@ }
    }

    /// Workers exist only while the node runs.
    pub open spec fn wf(&self) -> bool {
        !self.running ==> self.workers@.len() == 0
    }

    /// A node with no ports and no workers. Its CPUs are, with NUMA, the
    /// CPUs the NUMA layout lists for it that are primary and not CPU 0;
    /// without NUMA, all primary CPUs but CPU 0.
    pub fn new(
        node_id: usize,
        cpu_topology: &CpuTopology,
        numa_topology: &NumaTopology,
        numa_available: bool,
    ) -> (r: NumaNode)
        requires
            cpu_topology.wf(),
        ensures
            r.wf(),
            r.node_id == node_id,
            r.local_cpus@ == if numa_available {
                match cores_of_node(numa_topology.node_cores@, node_id) {
                    Some(cs) => keep_workers(cs, cpu_topology.cores@),
                    None => Seq::empty(),
                }
            } else {
                filtered_ids(cpu_topology.cores@)
            },
            r.local_ports@.len() == 0,
            r.workers@.len() == 0,
            !r.running,
    {
        let local_cpus = if numa_available {
            numa_topology.get_node_physical_cores(node_id, cpu_topology)
        } else {
            cpu_topology.get_filtered_core_ids()
        };
        NumaNode {
            node_id,
            local_cpus,
            local_ports: Vec::new(),
            workers: Vec::new(),
            running: false,
        }
    }

    /// Whether interface `if_name` belongs here: it sits on this node, or
    /// the layout does not say where it sits.
    pub fn is_local_nic(&self, if_name: &str, numa_topology: &NumaTopology) -> (r: bool)
        ensures
            r == match node_of_name(numa_topology.nic_node@, if_name@) {
                Some(n) => n == self.node_id,
                None => true,
            },
    {
        match numa_topology.get_nic_node(if_name) {
            Some(n) => n == self.node_id,
            None => true,
        }
    }

    /// Adds the port when its interface is local; says whether it did.
    pub fn register_port(
        &mut self,
        port_id: u16,
        if_name: &str,
        num_rx_queues: u16,
        num_tx_queues: u16,
        numa_topology: &NumaTopology,
    ) -> (r: bool)
        ensures
            r == match node_of_name(numa_topology.nic_node@, if_name@) {
                Some(n) => n == old(self).node_id,
                None => true,
            },
            r ==> final(self).local_ports@.len() == old(self).local_ports@.len() + 1
                && final(self).local_ports@.drop_last() == old(self).local_ports@
                && final(self).local_ports@.last().port_id == port_id
                && final(self).local_ports@.last().if_name@ == if_name@
                && final(self).local_ports@.last().num_rx_queues == num_rx_queues
                && final(self).local_ports@.last().num_tx_queues == num_tx_queues,
            !r ==> final(self).local_ports@ == old(self).local_ports@,
            final(self).node_id == old(self).node_id,
            final(self).local_cpus@ == old(self).local_cpus@,
            final(self).workers@ == old(self).workers@,
            final(self).running == old(self).running,
    {
        if !self.is_local_nic(if_name, numa_topology) {
            return false;
        }
        let ghost before = self.local_ports@;
        self.local_ports.push(
            DpdkPort {
                port_id,
                if_name: String::from_str(if_name),
                num_rx_queues,
                num_tx_queues,
            },
        );
        assert(self.local_ports@.drop_last() =~= before);
        true
    }

    /// Starts the node: refused when it already runs or has no CPUs, with
    /// nothing changed. Otherwise the node runs, with one worker per RX queue
    /// of each port, queues spread round-robin over its CPUs; the new
    /// workers are returned, for the caller to spawn.
    pub fn start_workers(&mut self) -> (r: Result<Vec<Worker>, NodeError>)
        requires
            old(self).wf(),
        ensures
            final(self).wf(),
            final(self).node_id == old(self).node_id,
            final(self).local_cpus@ == old(self).local_cpus@,
            final(self).local_ports@ == old(self).local_ports@,
            old(self).running ==> r == Err::<Vec<Worker>, NodeError>(NodeError::AlreadyRunning)
                && final(self).state() == old(self).state(),
            !old(self).running && old(self).local_cpus@.len() == 0 ==> r == Err::<
                Vec<Worker>,
                NodeError,
            >(NodeError::NoCores) && final(self).state() == old(self).state(),
            !old(self).running && old(self).local_cpus@.len() > 0 ==> r is Ok && r->Ok_0@
                == plan_workers(old(self).local_ports@, old(self).local_cpus@) && final(self).running
                && final(self).workers@ == r->Ok_0@,
    {
        if self.running {
            return Err(NodeError::AlreadyRunning);
        }
        if self.local_cpus.len() == 0 {
            return Err(NodeError::NoCores);
        }
        let plan = assign_workers(&self.local_ports, &self.local_cpus);
        self.workers = assign_workers(&self.local_ports, &self.local_cpus);
        self.running = true;
        Ok(plan)
    }

    /// Stops the node; the workers to join are returned, last started
    /// first. A node that does not run is left as it is.
    pub fn stop_workers(&mut self) -> (r: Vec<Worker>)
        requires
            old(self).wf(),
        ensures
            final(self).wf(),
            final(self).state() == stopped(old(self).state()),
            r@ == joined_by_stop(old(self).state()),
            final(self).node_id == old(self).node_id,
            final(self).local_cpus@ == old(self).local_cpus@,
            final(self).local_ports@ == old(self).local_ports@,
    {
        let mut joined: Vec<Worker> = Vec::new();
        if !self.running {
            return joined;
        }
        self.running = false;
        let ghost ws = self.workers@;
        while self.workers.len() > 0
            invariant
                !self.running,
                self.node_id == old(self).node_id,
                self.local_cpus@ == old(self).local_cpus@,
                self.local_ports@ == old(self).local_ports@,
                ws.len() == self.workers@.len() + joined@.len(),
                self.workers@ == ws.subrange(0, self.workers@.len() as int),
                joined@ == ws.subrange(self.workers@.len() as int, ws.len() as int).reverse(),
            decreases self.workers@.len(),
        {
            let w = self.workers.pop().unwrap();
            joined.push(w);
            let ghost n = self.workers@.len() as int;
            assert(self.workers@ =~= ws.subrange(0, n));
            assert(joined@ =~= ws.subrange(n, ws.len() as int).reverse());
        }
        assert(ws.subrange(0, ws.len() as int) =~= ws);
        assert(self.workers@ =~= Seq::<Worker>::empty());
        joined
    }

    /// Bitmask of the node's CPUs below 64, as `0x` and lowercase hex digits.
    pub fn generate_core_mask(&self) -> (r: String)
        ensures
            r@ == seq!['0', 'x'] + hex_digits(mask_of(self.local_cpus@) as nat),
    {
        let mask = core_mask_of(&self.local_cpus);
        mask_string(mask)
    }

    /// EAL memory arguments for this node: with hugepages, `--socket-mem=`
    /// with this node's quota at its position and `0` for the others (one
    /// position per node when NUMA is available, a single one otherwise).
    pub fn generate_eal_args(&self, config: &DpdkConfig, numa_node_count: Option<usize>) -> (r: Vec<
        String,
    >)
        requires
            numa_node_count is Some ==> self.node_id < numa_node_count->0,
            config.socket_mem is Some ==> if numa_node_count is Some {
                self.node_id < config.socket_mem->0@.len()
            } else {
                0 < config.socket_mem->0@.len()
            },
        ensures
            !config.use_huge_pages ==> r@.len() == 0,
            config.use_huge_pages ==> r@.len() == 1 && r@[0]@ == "--socket-mem="@ + match numa_node_count {
                Some(count) => socket_mem_list(
                    count as nat,
                    self.node_id as nat,
                    dec_digits(node_quota(*config, self.node_id as int) as nat),
                ),
                None => dec_digits(node_quota(*config, 0) as nat),
            },
    {
        let mut args: Vec<String> = Vec::new();
        if !config.use_huge_pages {
            return args;
        }
        let mut s = String::from_str("--socket-mem=");
        let ghost head = s@;
        match numa_node_count {
            Some(count) => {
                let quota = match &config.socket_mem {
                    Some(v) => v[self.node_id],
                    None => 1024,
                };
                let q = decimal_string(quota as usize);
                for i in 0..count
                    invariant
                        s@ == head + socket_mem_list(i as nat, self.node_id as nat, q@),
                {
                    if i > 0 {
                        s.append(",");
                    }
                    if i == self.node_id {
                        s.append(q.as_str());
                    } else {
                        s.append("0");
                    }
                    proof {
                        reveal_strlit(",");
                        reveal_strlit("0");
                    }
                    assert(s@ =~= head + socket_mem_list((i + 1) as nat, self.node_id as nat, q@));
                }
            },
            None => {
                let quota = match &config.socket_mem {
                    Some(v) => v[0],
                    None => 1024,
                };
                let q = decimal_string(quota as usize);
                s.append(q.as_str());
            },
        }
        args.push(s);
        args
    }
}

/// Stopping twice is stopping once: the second stop changes nothing and
/// joins no one, and the first joins every worker of a running node.
pub proof fn lemma_stop_idempotent(s: NodeState)
    ensures
        stopped(stopped(s)) == stopped(s),
        joined_by_stop(stopped(s)) == Seq::<Worker>::empty(),
        s.running ==> joined_by_stop(s).len() == s.workers.len(),
        s.running ==> forall|i: int|
            0 <= i < s.workers.len() ==> joined_by_stop(s).contains(#[trigger] s.workers[i]),
{
    if s.running {
        assert forall|i: int| 0 <= i < s.workers.len() implies joined_by_stop(s).contains(
            #[trigger] s.workers[i],
        ) by {
            assert(s.workers.reverse()[s.workers.len() - 1 - i] == s.workers[i]);
        }
    }
}

/// Round-robin: in a node's plan, each worker polls one RX queue of one of
/// its ports, on core `cpus[queue mod |cpus|]`.
pub proof fn lemma_round_robin(ports: Seq<DpdkPort>, cpus: Seq<usize>)
    requires
        cpus.len() > 0,
    ensures
        forall|k: int|
            0 <= k < plan_workers(ports, cpus).len() ==> (#[trigger] plan_workers(ports, cpus)[k]).core_id
                == cpus[(plan_workers(ports, cpus)[k].queue_id as int) % (cpus.len() as int)],
    decreases ports.len(),
{
    if ports.len() > 0 {
        lemma_round_robin(ports.drop_last(), cpus);
        let pre = plan_workers(ports.drop_last(), cpus);
        let last = port_workers(ports.last(), cpus);
        assert forall|k: int| 0 <= k < plan_workers(ports, cpus).len() implies (
        #[trigger] plan_workers(ports, cpus)[k]).core_id == cpus[(plan_workers(ports, cpus)[k].queue_id as int)
            % (cpus.len() as int)] by {
            if k >= pre.len() {
                let q = k - pre.len();
                assert(plan_workers(ports, cpus)[k] == last[q]);
                assert(q < 0x10000);
                assert(last[q].queue_id as int == q);
            } else {
                assert(plan_workers(ports, cpus)[k] == pre[k]);
            }
        }
    }
}

fn assign_workers(ports: &Vec<DpdkPort>, cpus: &Vec<usize>) -> (r: Vec<Worker>)
    requires
        cpus@.len() > 0,
    ensures
        r@ == plan_workers(ports@, cpus@),
{
    let mut plan: Vec<Worker> = Vec::new();
    for k in 0..ports.len()
        invariant
            cpus@.len() > 0,
            plan@ == plan_workers(ports@.subrange(0, k as int), cpus@),
    {
        assert(ports@.subrange(0, k + 1).drop_last() =~= ports@.subrange(0, k as int));
        let port = &ports[k];
        let ghost before = plan@;
        let n = port.num_rx_queues;
        for q in 0..n
            invariant
                cpus@.len() > 0,
                n == port.num_rx_queues,
                plan@ == before + Seq::new(
                    q as nat,
                    |j: int| Worker { core_id: cpus@[j % (cpus@.len() as int)], port_id: port.port_id, queue_id: j as u16 },
                ),
        {
            let core_id = cpus[(q as usize) % cpus.len()];
            plan.push(Worker { core_id, port_id: port.port_id, queue_id: q });
            assert(plan@ =~= before + Seq::new(
                (q + 1) as nat,
                |j: int| Worker { core_id: cpus@[j % (cpus@.len() as int)], port_id: port.port_id, queue_id: j as u16 },
            ));
        }
        assert(plan@ =~= plan_workers(ports@.subrange(0, k + 1), cpus@));
    }
    assert(ports@.subrange(0, ports@.len() as int) =~= ports@);
    plan
}

} // verus!
