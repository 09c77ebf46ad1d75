//! Plain worker placement over the host's worker CPUs, without NUMA.
use vstd::prelude::*;

use crate::text::hex_digits;
use crate::topology::{filtered_ids, mask_of, select_ids, socket_worker_in, CpuTopology};

verus! {

/// Relies on `num_cpus::get_physical`: the number of physical cores it
/// finds on this machine (nothing is claimed of the value).
#[verifier::external_body]
fn physical_core_count() -> (r: usize) {
    num_cpus::get_physical()
}

/// Threads to run: one per worker CPU when there are any; otherwise one per
/// physical core but one, and at least one.
pub open spec fn recommended_threads(worker_cpus: nat, physical: nat) -> nat {
    if worker_cpus > 0 {
        worker_cpus
    } else if physical > 1 {
        (physical - 1) as nat
    } else {
        1
    }
}

pub fn recommended_thread_count(worker_cpus: usize, physical: usize) -> (r: usize)
    ensures
        r == recommended_threads(worker_cpus as nat, physical as nat),
{
    if worker_cpus > 0 {
        worker_cpus
    } else if physical > 1 {
        physical - 1
    } else {
        1
    }
}

/// The recommended number of worker threads: the worker CPUs of `topology`
/// when it has any, else what the machine's physical core count suggests.
pub fn get_recommended_thread_count(topology: Option<&CpuTopology>) -> (r: usize)
    requires
        topology is Some ==> topology->0.wf(),
    ensures
        r >= 1,
        topology is Some && filtered_ids(topology->0.cores@).len() > 0 ==> r == filtered_ids(
            topology->0.cores@,
        ).len(),
{
    let filtered = match topology {
        Some(t) => t.get_filtered_core_ids().len(),
        None => 0,
    };
    if filtered > 0 {
        return recommended_thread_count(filtered, 0);
    }
    recommended_thread_count(0, physical_core_count())
}

/// Worker threads pinned to the host's worker CPUs.
pub struct CpuManager {
    topology: CpuTopology,
    running: bool,
    worker_cores: Vec<usize>,
}

impl CpuManager {
    pub closed spec fn topology_view(&self) -> CpuTopology {
        self.topology
    }

    pub closed spec fn running_spec(&self) -> bool {
        self.running
    }

    pub closed spec fn workers_view(&self) -> Seq<usize> {
        self.worker_cores@
    }

    pub open spec fn wf(&self) -> bool {
        self.topology_view().wf()
    }

    pub fn new(topology: CpuTopology) -> (r: CpuManager)
        requires
            topology.wf(),
        ensures
            r.wf(),
            r.topology_view() == topology,
            !r.running_spec(),
            r.workers_view().len() == 0,
    {
        CpuManager { topology, running: false, worker_cores: Vec::new() }
    }

    pub fn topology(&self) -> (r: &CpuTopology)
        ensures
            *r == self.topology_view(),
    {
        &self.topology
    }

    /// The worker CPUs: primary logical CPUs other than CPU 0.
    pub fn get_worker_core_ids(&self) -> (r: Vec<usize>)
        requires
            self.wf(),
        ensures
            r@ == filtered_ids(self.topology_view().cores@),
    {
        self.topology.get_filtered_core_ids()
    }

    /// The worker CPUs of one socket.
    pub fn get_socket_core_ids(&self, socket_id: usize) -> (r: Vec<usize>)
        requires
            self.wf(),
        ensures
            r@ == select_ids(
                self.topology_view().cores@,
                socket_worker_in(self.topology_view().cores@, socket_id),
            ),
    {
        self.topology.get_socket_core_ids(socket_id)
    }

    /// Places up to `worker_count` workers, worker `i` on the i-th worker
    /// CPU, and marks the manager running; returns the CPU of each new
    /// worker, for the caller to spawn. With no worker CPU nothing starts.
    pub fn start_workers(&mut self, worker_count: usize) -> (r: Vec<usize>)
        requires
            old(self).wf(),
        ensures
            final(self).wf(),
            final(self).topology_view() == old(self).topology_view(),
            ({
                let cores = filtered_ids(old(self).topology_view().cores@);
                &&& cores.len() == 0 ==> r@.len() == 0 && final(self).running_spec()
                    == old(self).running_spec() && final(self).workers_view()
                    == old(self).workers_view()
                &&& cores.len() > 0 ==> r@ == cores.subrange(
                    0,
                    if worker_count < cores.len() {
                        worker_count as int
                    } else {
                        cores.len() as int
                    },
                ) && final(self).running_spec() && final(self).workers_view()
                    == old(self).workers_view() + r@
            }),
    {
        let cores = self.topology.get_filtered_core_ids();
        let mut started: Vec<usize> = Vec::new();
        if cores.len() == 0 {
            return started;
        }
        self.running = true;
        let count = if worker_count < cores.len() {
            worker_count
        } else {
            cores.len()
        };
        let ghost before = self.worker_cores@;
        for i in 0..count
            invariant
                count <= cores@.len(),
                self.topology.wf(),
                self.topology == old(self).topology,
                self.running,
                started@ == cores@.subrange(0, i as int),
                self.worker_cores@ == before + started@,
        {
            let core = cores[i];
            started.push(core);
            self.worker_cores.push(core);
            assert(started@ =~= cores@.subrange(0, i + 1));
            assert(self.worker_cores@ =~= before + started@);
        }
        started
    }

    /// Stops the workers; their CPUs are returned, last started first.
    pub fn stop_workers(&mut self) -> (r: Vec<usize>)
        requires
            old(self).wf(),
        ensures
            final(self).wf(),
            final(self).topology_view() == old(self).topology_view(),
            !final(self).running_spec(),
            final(self).workers_view().len() == 0,
            r@ == old(self).workers_view().reverse(),
    {
        self.running = false;
        let mut joined: Vec<usize> = Vec::new();
        let ghost ws = self.worker_cores@;
        while self.worker_cores.len() > 0
            invariant
                !self.running,
                self.topology == old(self).topology,
                self.topology.wf(),
                ws.len() == self.worker_cores@.len() + joined@.len(),
                self.worker_cores@ == ws.subrange(0, self.worker_cores@.len() as int),
                joined@ == ws.subrange(self.worker_cores@.len() as int, ws.len() as int).reverse(),
            decreases self.worker_cores@.len(),
        {
            let c = self.worker_cores.pop().unwrap();
            joined.push(c);
            let ghost n = self.worker_cores@.len() as int;
            assert(self.worker_cores@ =~= ws.subrange(0, n));
            assert(joined@ =~= ws.subrange(n, ws.len() as int).reverse());
        }
        assert(ws.subrange(0, ws.len() as int) =~= ws);
        joined
    }

    /// EAL arguments for this CPU layout.
    pub fn generate_dpdk_eal_args(&self) -> (r: Vec<String>)
        requires
            self.wf(),
        ensures
            r@.len() == 2,
            r@[0]@ == "--lcores="@ + seq!['0', 'x'] + hex_digits(
                mask_of(filtered_ids(self.topology_view().cores@)) as nat,
            ),
            r@[1]@ == "--master-lcore=0"@,
    {
        self.topology.generate_eal_cpu_args()
    }
}

} // verus!
