//! Per-port worker placement: each registered port's RX queues go, round
//! robin, to the worker CPUs of the node its interface sits on.
use vstd::prelude::*;

use crate::config::{DpdkConfig, DpdkError};
use crate::node::NodeError;
use crate::numa::{cores_of_node, keep_workers, node_of_name, NumaTopology};
use crate::text::dec_digits;
use crate::topology::{filtered_ids, mask_of, CpuTopology};
use crate::text::{hex_digits, repeat_csv};

verus! {

/// A port, its interface, the node the interface sits on (if known) and its queues.
#[derive(Clone, Debug)]
pub struct PortInfo {
    pub port_id: u16,
    pub if_name: String,
    pub numa_node: Option<usize>,
    pub num_rx_queues: u16,
    pub num_tx_queues: u16,
}

/// A worker: the RX queue it polls, the core it is pinned to, and the node of its port.
#[derive(Clone, Copy, Debug, PartialEq, Eq)]
pub struct Worker {
    pub core_id: usize,
    pub port_id: u16,
    pub queue_id: u16,
    pub numa_node: Option<usize>,
}

pub open spec fn port_info_key(p: PortInfo) -> (u16, Seq<char>, Option<usize>, u16, u16) {
    (p.port_id, p.if_name@, p.numa_node, p.num_rx_queues, p.num_tx_queues)
}

/// Position of the entry for `port_id`, the last one if several.
pub open spec fn port_index(ports: Seq<PortInfo>, port_id: u16) -> Option<int>
    decreases ports.len(),
{
    if ports.len() == 0 {
        None
    } else if ports.last().port_id == port_id {
        Some(ports.len() - 1)
    } else {
        port_index(ports.drop_last(), port_id)
    }
}

/// The CPUs for a port on `node`: the node's worker CPUs, or all worker
/// CPUs when the node is unknown or has none.
pub open spec fn cores_for(cpu: CpuTopology, numa: NumaTopology, node: Option<usize>) -> Seq<usize> {
    match node {
        Some(n) => {
            let local = match cores_of_node(numa.node_cores@, n) {
                Some(cs) => keep_workers(cs, cpu.cores@),
                None => Seq::empty(),
            };
            if local.len() == 0 {
                filtered_ids(cpu.cores@)
            } else {
                local
            }
        },
        None => filtered_ids(cpu.cores@),
    }
}

/// The workers of one port: queue `q` on `cores[q mod |cores|]`.
pub open spec fn port_plan(p: PortInfo, cores: Seq<usize>) -> Seq<Worker> {
    Seq::new(
        p.num_rx_queues as nat,
        |q: int|
            Worker {
                core_id: cores[q % (cores.len() as int)],
                port_id: p.port_id,
                queue_id: q as u16,
                numa_node: p.numa_node,
            },
    )
}

/// The workers of all ports, port by port.
pub open spec fn manager_plan(ports: Seq<PortInfo>, cpu: CpuTopology, numa: NumaTopology) -> Seq<
    Worker,
>
    decreases ports.len(),
{
    if ports.len() == 0 {
        Seq::empty()
    } else {
        manager_plan(ports.drop_last(), cpu, numa) + port_plan(
            ports.last(),
            cores_for(cpu, numa, ports.last().numa_node),
        )
    }
}

/// Every port has CPUs to run on.
pub open spec fn every_port_has_cores(ports: Seq<PortInfo>, cpu: CpuTopology, numa: NumaTopology) -> bool {
    forall|i: int| 0 <= i < ports.len() ==> cores_for(cpu, numa, (#[trigger] ports[i]).numa_node).len() > 0
}

/// EAL arguments for the whole host: the worker CPU mask, CPU 0 as main
/// lcore and, with hugepages, in-memory mode, `mb` megabytes on each node,
/// and unlinked hugepage files.
pub open spec fn host_eal_args(
    r: Seq<String>,
    cpu: CpuTopology,
    numa: NumaTopology,
    use_huge_pages: bool,
    mb: usize,
) -> bool {
    &&& r.len() == if use_huge_pages { 5int } else { 2int }
    &&& r[0]@ == "--lcores="@ + seq!['0', 'x'] + hex_digits(mask_of(filtered_ids(cpu.cores@)) as nat)
    &&& r[1]@ == "--master-lcore=0"@
    &&& use_huge_pages ==> r[2]@ == "--in-memory"@ && r[3]@ == "--socket-mem="@ + repeat_csv(
        dec_digits(mb as nat),
        if numa.num_nodes <= 1 {
            1
        } else {
            numa.num_nodes as nat
        },
    ) && r[4]@ == "--huge-unlink"@
}

/// Hugepage memory per node asked for: the first configured amount, or 1024.
pub open spec fn first_quota(config: DpdkConfig) -> usize {
    match config.socket_mem {
        Some(v) => v@[0] as usize,
        None => 1024,
    }
}

/// The EAL arguments that initialise the driver for the whole host under
/// `config`: refused when the configuration needs hugepages and the host
/// has none.
pub fn app_eal_args(m: &WorkerManager, config: &DpdkConfig, hugepages_available: bool) -> (r: Result<
    Vec<String>,
    DpdkError,
>)
    requires
        m.wf(),
        config.socket_mem is Some ==> config.socket_mem->0@.len() > 0,
    ensures
        config.use_huge_pages && !hugepages_available ==> r == Err::<Vec<String>, DpdkError>(
            DpdkError::InitError,
        ),
        !(config.use_huge_pages && !hugepages_available) ==> r is Ok && host_eal_args(
            r->Ok_0@,
            m.cpu_view(),
            m.numa_view(),
            config.use_huge_pages,
            first_quota(*config),
        ),
{
    if config.use_huge_pages && !hugepages_available {
        return Err(DpdkError::InitError);
    }
    let mb: usize = match &config.socket_mem {
        Some(v) => v[0] as usize,
        None => 1024,
    };
    Ok(m.generate_dpdk_eal_args(config.use_huge_pages, mb))
}

/// Worker placement for the registered ports.
pub struct WorkerManager {
    cpu_topology: CpuTopology,
    numa_topology: NumaTopology,
    running: bool,
    workers: Vec<Worker>,
    ports: Vec<PortInfo>,
}

impl WorkerManager {
    pub closed spec fn cpu_view(&self) -> CpuTopology {
        self.cpu_topology
    }

    pub closed spec fn numa_view(&self) -> NumaTopology {
        self.numa_topology
    }

    pub closed spec fn running_spec(&self) -> bool {
        self.running
    }

    pub closed spec fn workers_view(&self) -> Seq<Worker> {
        self.workers@
    }

    pub closed spec fn ports_view(&self) -> Seq<PortInfo> {
        self.ports@
    }

    pub open spec fn wf(&self) -> bool {
        &&& self.cpu_view().wf()
        &&& !self.running_spec() ==> self.workers_view().len() == 0
    }

    pub fn new(cpu_topology: CpuTopology, numa_topology: NumaTopology) -> (r: WorkerManager)
        requires
            cpu_topology.wf(),
        ensures
            r.wf(),
            r.cpu_view() == cpu_topology,
            r.numa_view() == numa_topology,
            !r.running_spec(),
            r.ports_view().len() == 0,
    {
        WorkerManager {
            cpu_topology,
            numa_topology,
            running: false,
            workers: Vec::new(),
            ports: Vec::new(),
        }
    }

    /// Records the port, with the node its interface sits on; a port
    /// registered again is replaced.
    pub fn register_port(&mut self, port_id: u16, if_name: &str, num_rx_queues: u16, num_tx_queues: u16)
        requires
            old(self).wf(),
        ensures
            final(self).wf(),
            final(self).cpu_view() == old(self).cpu_view(),
            final(self).numa_view() == old(self).numa_view(),
            final(self).running_spec() == old(self).running_spec(),
            final(self).workers_view() == old(self).workers_view(),
            ({
                let key = (
                    port_id,
                    if_name@,
                    node_of_name(old(self).numa_view().nic_node@, if_name@),
                    num_rx_queues,
                    num_tx_queues,
                );
                let before = old(self).ports_view().map_values(|p: PortInfo| port_info_key(p));
                final(self).ports_view().map_values(|p: PortInfo| port_info_key(p)) == match port_index(
                    old(self).ports_view(),
                    port_id,
                ) {
                    Some(i) => before.update(i, key),
                    None => before.push(key),
                }
            }),
    {
        let numa_node = self.numa_topology.get_nic_node(if_name);
        let info = PortInfo {
            port_id,
            if_name: String::from_str(if_name),
            numa_node,
            num_rx_queues,
            num_tx_queues,
        };
        let ghost before = self.ports@;
        let mut k: usize = self.ports.len();
        assert(before.subrange(0, k as int) =~= before);
        while k > 0 && self.ports[k - 1].port_id != port_id
            invariant
                k <= self.ports@.len(),
                self.ports@ == before,
                port_index(before, port_id) == port_index(before.subrange(0, k as int), port_id),
            decreases k,
        {
            assert(before.subrange(0, k as int).drop_last() =~= before.subrange(0, k - 1));
            k = k - 1;
        }
        if k == 0 {
            self.ports.push(info);
            assert(self.ports@.map_values(|p: PortInfo| port_info_key(p)) =~= before.map_values(
                |p: PortInfo| port_info_key(p),
            ).push(port_info_key(info)));
        } else {
            self.ports.set(k - 1, info);
            assert(self.ports@.map_values(|p: PortInfo| port_info_key(p)) =~= before.map_values(
                |p: PortInfo| port_info_key(p),
            ).update(k - 1, port_info_key(info)));
        }
    }

    /// The node recorded for `port_id`, if the port is registered and its node known.
    pub fn get_port_numa_node(&self, port_id: u16) -> (r: Option<usize>)
        ensures
            r == match port_index(self.ports_view(), port_id) {
                Some(i) => self.ports_view()[i].numa_node,
                None => None,
            },
    {
        let ghost ps = self.ports@;
        let mut k: usize = self.ports.len();
        assert(ps.subrange(0, k as int) =~= ps);
        while k > 0
            invariant
                k <= ps.len(),
                ps == self.ports@,
                port_index(ps, port_id) == port_index(ps.subrange(0, k as int), port_id),
            decreases k,
        {
            assert(ps.subrange(0, k as int).drop_last() =~= ps.subrange(0, k - 1));
            if self.ports[k - 1].port_id == port_id {
                return self.ports[k - 1].numa_node;
            }
            k = k - 1;
        }
        None
    }

    /// The CPUs for a port on `node`.
    pub fn cores_for_node(&self, node: Option<usize>) -> (r: Vec<usize>)
        requires
            self.wf(),
        ensures
            r@ == cores_for(self.cpu_view(), self.numa_view(), node),
    {
        match node {
            Some(n) => {
                let local = self.numa_topology.get_node_physical_cores(n, &self.cpu_topology);
                if local.len() == 0 {
                    self.cpu_topology.get_filtered_core_ids()
                } else {
                    local
                }
            },
            None => self.cpu_topology.get_filtered_core_ids(),
        }
    }

    /// Starts the workers: refused when already running, or when some port
    /// has no CPU to run on, with nothing changed. Otherwise one worker per
    /// RX queue of each port, round robin over the CPUs for its node; the
    /// new workers are returned, for the caller to spawn.
    pub fn start_workers(&mut self) -> (r: Result<Vec<Worker>, NodeError>)
        requires
            old(self).wf(),
        ensures
            final(self).wf(),
            final(self).cpu_view() == old(self).cpu_view(),
            final(self).numa_view() == old(self).numa_view(),
            final(self).ports_view() == old(self).ports_view(),
            old(self).running_spec() ==> r == Err::<Vec<Worker>, NodeError>(NodeError::AlreadyRunning)
                && final(self).running_spec() && final(self).workers_view() == old(self).workers_view(),
            !old(self).running_spec() && !every_port_has_cores(
                old(self).ports_view(),
                old(self).cpu_view(),
                old(self).numa_view(),
            ) ==> r == Err::<Vec<Worker>, NodeError>(NodeError::NoCores) && !final(self).running_spec()
                && final(self).workers_view() == old(self).workers_view(),
            !old(self).running_spec() && every_port_has_cores(
                old(self).ports_view(),
                old(self).cpu_view(),
                old(self).numa_view(),
            ) ==> r is Ok && r->Ok_0@ == manager_plan(
                old(self).ports_view(),
                old(self).cpu_view(),
                old(self).numa_view(),
            ) && final(self).running_spec() && final(self).workers_view() == r->Ok_0@,
    {
        if self.running {
            return Err(NodeError::AlreadyRunning);
        }
        let ghost ps = self.ports@;
        let ghost cpu = self.cpu_topology;
        let ghost numa = self.numa_topology;
        let mut plan: Vec<Worker> = Vec::new();
        for k in 0..self.ports.len()
            invariant
                ps == self.ports@,
                cpu == self.cpu_topology,
                numa == self.numa_topology,
                self.cpu_topology.wf(),
                self.wf(),
                !self.running,
                self.workers@ == old(self).workers@,
                every_port_has_cores(ps.subrange(0, k as int), cpu, numa),
                plan@ == manager_plan(ps.subrange(0, k as int), cpu, numa),
        {
            let ghost sub = ps.subrange(0, k + 1);
            assert(sub.drop_last() =~= ps.subrange(0, k as int));
            let port = &self.ports[k];
            let cores = self.cores_for_node(port.numa_node);
            if cores.len() == 0 {
                assert(!every_port_has_cores(ps, cpu, numa)) by {
                    assert(cores_for(cpu, numa, ps[k as int].numa_node).len() == 0);
                }
                return Err(NodeError::NoCores);
            }
            let ghost before = plan@;
            let n = port.num_rx_queues;
            for q in 0..n
                invariant
                    cores@.len() > 0,
                    n == port.num_rx_queues,
                    plan@ == before + Seq::new(
                        q as nat,
                        |j: int|
                            Worker {
                                core_id: cores@[j % (cores@.len() as int)],
                                port_id: port.port_id,
                                queue_id: j as u16,
                                numa_node: port.numa_node,
                            },
                    ),
            {
                let core_id = cores[(q as usize) % cores.len()];
                plan.push(Worker { core_id, port_id: port.port_id, queue_id: q, numa_node: port.numa_node });
                assert(plan@ =~= before + Seq::new(
                    (q + 1) as nat,
                    |j: int|
                        Worker {
                            core_id: cores@[j % (cores@.len() as int)],
                            port_id: port.port_id,
                            queue_id: j as u16,
                            numa_node: port.numa_node,
                        },
                ));
            }
            assert(plan@ =~= manager_plan(sub, cpu, numa));
            assert(every_port_has_cores(sub, cpu, numa)) by {
                assert forall|i: int| 0 <= i < sub.len() implies cores_for(cpu, numa, (#[trigger] sub[i]).numa_node).len() > 0 by {
                    if i < k {
                        assert(sub[i] == ps.subrange(0, k as int)[i]);
                    }
                }
            }
        }
        assert(ps.subrange(0, ps.len() as int) =~= ps);
        let mut copy: Vec<Worker> = Vec::new();
        for i in 0..plan.len()
            invariant
                copy@ == plan@.subrange(0, i as int),
        {
            copy.push(plan[i]);
            assert(copy@ =~= plan@.subrange(0, i + 1));
        }
        assert(copy@ =~= plan@);
        self.workers = copy;
        self.running = true;
        Ok(plan)
    }

    /// Stops the workers; those to join are returned, last started first.
    /// A stopped manager is left as it is.
    pub fn stop_workers(&mut self) -> (r: Vec<Worker>)
        requires
            old(self).wf(),
        ensures
            final(self).wf(),
            !final(self).running_spec(),
            final(self).workers_view().len() == 0,
            r@ == if old(self).running_spec() { old(self).workers_view().reverse() } else { Seq::empty() },
            final(self).cpu_view() == old(self).cpu_view(),
            final(self).numa_view() == old(self).numa_view(),
            final(self).ports_view() == old(self).ports_view(),
    {
        let mut joined: Vec<Worker> = Vec::new();
        if !self.running {
            return joined;
        }
        self.running = false;
        let ghost ws = self.workers@;
        while self.workers.len() > 0
            invariant
                !self.running,
                self.cpu_topology == old(self).cpu_topology,
                self.numa_topology == old(self).numa_topology,
                self.ports@ == old(self).ports@,
                ws.len() == self.workers@.len() + joined@.len(),
                self.workers@ == ws.subrange(0, self.workers@.len() as int),
                joined@ == ws.subrange(self.workers@.len() as int, ws.len() as int).reverse(),
            decreases self.workers@.len(),
        {
            let w = self.workers.pop().unwrap();
            joined.push(w);
            let ghost n = self.workers@.len() as int;
            assert(self.workers@ =~= ws.subrange(0, n));
            assert(joined@ =~= ws.subrange(n, ws.len() as int).reverse());
        }
        assert(ws.subrange(0, ws.len() as int) =~= ws);
        joined
    }

    /// EAL arguments for the whole host: the worker CPU mask, CPU 0 as main
    /// lcore and, with hugepages, in-memory mode, `memory_mb_per_socket` on
    /// each node, and unlinked hugepage files.
    pub fn generate_dpdk_eal_args(&self, use_huge_pages: bool, memory_mb_per_socket: usize) -> (r: Vec<
        String,
    >)
        requires
            self.wf(),
        ensures
            host_eal_args(r@, self.cpu_view(), self.numa_view(), use_huge_pages, memory_mb_per_socket),
    {
        let mut args = self.cpu_topology.generate_eal_cpu_args();
        if use_huge_pages {
            args.push(String::from_str("--in-memory"));
            let mut mem = self.numa_topology.get_socket_memory_config(memory_mb_per_socket);
            args.append(&mut mem);
            args.push(String::from_str("--huge-unlink"));
        }
        args
    }

    pub fn is_running(&self) -> (r: bool)
        ensures
            r == self.running_spec(),
    {
        self.running
    }

    /// The registered ports, in order of registration.
    pub fn ports(&self) -> (r: &Vec<PortInfo>)
        ensures
            r@ == self.ports_view(),
    {
        &self.ports
    }
}

} // verus!
