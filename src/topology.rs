//! The CPU layout of the host: logical CPUs, the physical cores they share,
//! and the sockets they sit on.
use vstd::prelude::*;

use crate::text::{hex_digits, hex_string, parse_id_or_zero, parse_uint_or_zero};

verus! {

/// One logical CPU: its number, the physical core it runs on and its socket.
#[derive(Clone, Copy, Debug, PartialEq, Eq)]
pub struct LogicalCore {
    pub id: usize,
    pub core_id: usize,
    pub socket_id: usize,
}

/// The attributes read for one `cpu<N>` entry of the CPU sysfs tree; an
/// attribute that could not be read is an empty string.
#[derive(Clone, Debug)]
pub struct CpuEntry {
    pub cpu_id: usize,
    pub core_id: String,
    pub physical_package_id: String,
}

/// Snapshot of the host's CPU layout. `cores` lists every logical CPU once,
/// by ascending number.
#[derive(Clone, Debug)]
pub struct CpuTopology {
    pub total_cores: usize,
    pub physical_cores: usize,
    pub sockets: usize,
    pub cores: Vec<LogicalCore>,
}

pub open spec fn entry_core(e: CpuEntry) -> LogicalCore {
    LogicalCore {
        id: e.cpu_id,
        core_id: parse_uint_or_zero(e.core_id@),
        socket_id: parse_uint_or_zero(e.physical_package_id@),
    }
}

pub open spec fn ids_ascending(cs: Seq<LogicalCore>) -> bool {
    forall|i: int, j: int| 0 <= i < j < cs.len() ==> cs[i].id < cs[j].id
}

pub open spec fn strictly_increasing(s: Seq<usize>) -> bool {
    forall|i: int, j: int| 0 <= i < j < s.len() ==> s[i] < s[j]
}

/// Two CPUs share a physical core: the same core id on the same socket.
pub open spec fn same_core(a: LogicalCore, b: LogicalCore) -> bool {
    a.core_id == b.core_id && a.socket_id == b.socket_id
}

/// `x` is the smallest logical CPU of its physical core; a CPU that is not
/// listed counts as primary.
pub open spec fn is_primary_in(cs: Seq<LogicalCore>, x: usize) -> bool {
    forall|i: int, j: int|
        0 <= i < cs.len() && 0 <= j < cs.len() && #[trigger] cs[i].id == x && same_core(cs[j], cs[i])
            ==> x <= #[trigger] cs[j].id
}

/// `x` is a listed CPU.
pub open spec fn lists_cpu(cs: Seq<LogicalCore>, x: usize) -> bool {
    exists|i: int| 0 <= i < cs.len() && #[trigger] cs[i].id == x
}

/// The numbers of the CPUs that satisfy `keep`, in the order of `cs`.
pub open spec fn select_ids(cs: Seq<LogicalCore>, keep: spec_fn(LogicalCore) -> bool) -> Seq<
    usize,
>
    decreases cs.len(),
{
    if cs.len() == 0 {
        Seq::empty()
    } else {
        let r = select_ids(cs.drop_last(), keep);
        if keep(cs.last()) {
            r.push(cs.last().id)
        } else {
            r
        }
    }
}

pub open spec fn in_group(s: usize, p: usize) -> spec_fn(LogicalCore) -> bool {
    |c: LogicalCore| c.socket_id == s && c.core_id == p
}

pub open spec fn on_socket(s: usize) -> spec_fn(LogicalCore) -> bool {
    |c: LogicalCore| c.socket_id == s
}

pub open spec fn primary_in(cs: Seq<LogicalCore>) -> spec_fn(LogicalCore) -> bool {
    |c: LogicalCore| is_primary_in(cs, c.id)
}

pub open spec fn worker_in(cs: Seq<LogicalCore>) -> spec_fn(LogicalCore) -> bool {
    |c: LogicalCore| is_primary_in(cs, c.id) && c.id != 0
}

pub open spec fn socket_worker_in(cs: Seq<LogicalCore>, s: usize) -> spec_fn(LogicalCore) -> bool {
    |c: LogicalCore| c.socket_id == s && is_primary_in(cs, c.id) && c.id != 0
}

/// Thread siblings of physical core `p` of socket `s`, ascending.
pub open spec fn siblings(cs: Seq<LogicalCore>, s: usize, p: usize) -> Seq<usize> {
    select_ids(cs, in_group(s, p))
}

/// Primary logical CPUs, one per physical core, ascending.
pub open spec fn physical_ids(cs: Seq<LogicalCore>) -> Seq<usize> {
    select_ids(cs, primary_in(cs))
}

/// Primary logical CPUs other than CPU 0, ascending.
pub open spec fn filtered_ids(cs: Seq<LogicalCore>) -> Seq<usize> {
    select_ids(cs, worker_in(cs))
}

pub open spec fn socket_set(cs: Seq<LogicalCore>) -> Set<usize> {
    Set::new(|s: usize| exists|i: int| 0 <= i < cs.len() && #[trigger] cs[i].socket_id == s)
}

/// Bit `id` set for each listed number below 64.
pub open spec fn mask_of(ids: Seq<usize>) -> u64
    decreases ids.len(),
{
    if ids.len() == 0 {
        0
    } else {
        let m = mask_of(ids.drop_last());
        if ids.last() < 64 {
            m | (1u64 << (ids.last() as u64))
        } else {
            m
        }
    }
}

/// Every member of `select_ids(cs, keep)` is the number of a CPU that satisfies `keep`.
pub proof fn lemma_select_sound(cs: Seq<LogicalCore>, keep: spec_fn(LogicalCore) -> bool, k: int)
    requires
        0 <= k < select_ids(cs, keep).len(),
    ensures
        exists|i: int|
            0 <= i < cs.len() && #[trigger] cs[i].id == select_ids(cs, keep)[k] && keep(cs[i]),
    decreases cs.len(),
{
    let r = select_ids(cs.drop_last(), keep);
    if k < r.len() {
        lemma_select_sound(cs.drop_last(), keep, k);
        let i = choose|i: int|
            0 <= i < cs.drop_last().len() && #[trigger] cs.drop_last()[i].id == r[k] && keep(
                cs.drop_last()[i],
            );
        assert(cs[i] == cs.drop_last()[i]);
    } else {
        assert(cs[cs.len() - 1].id == select_ids(cs, keep)[k]);
    }
}

/// Every CPU that satisfies `keep` is listed by `select_ids(cs, keep)`.
pub proof fn lemma_select_complete(cs: Seq<LogicalCore>, keep: spec_fn(LogicalCore) -> bool, i: int)
    requires
        0 <= i < cs.len(),
        keep(cs[i]),
    ensures
        select_ids(cs, keep).contains(cs[i].id),
    decreases cs.len(),
{
    let r = select_ids(cs.drop_last(), keep);
    if i < cs.len() - 1 {
        lemma_select_complete(cs.drop_last(), keep, i);
        assert(cs.drop_last()[i] == cs[i]);
        let k = choose|k: int| 0 <= k < r.len() && r[k] == cs[i].id;
        assert(select_ids(cs, keep)[k] == cs[i].id);
    } else {
        assert(select_ids(cs, keep)[r.len() as int] == cs[i].id);
    }
}

/// Over CPUs listed by ascending number, `select_ids` is ascending too.
pub proof fn lemma_select_ascending(cs: Seq<LogicalCore>, keep: spec_fn(LogicalCore) -> bool)
    requires
        ids_ascending(cs),
    ensures
        strictly_increasing(select_ids(cs, keep)),
    decreases cs.len(),
{
    if cs.len() > 0 {
        let r = select_ids(cs.drop_last(), keep);
        lemma_select_ascending(cs.drop_last(), keep);
        if keep(cs.last()) {
            assert forall|k: int| 0 <= k < r.len() implies r[k] < cs.last().id by {
                lemma_select_sound(cs.drop_last(), keep, k);
                let i = choose|i: int|
                    0 <= i < cs.drop_last().len() && #[trigger] cs.drop_last()[i].id == r[k]
                        && keep(cs.drop_last()[i]);
                assert(cs[i] == cs.drop_last()[i]);
            }
        }
    }
}

impl CpuTopology {
    pub open spec fn wf(&self) -> bool {
        &&& ids_ascending(self.cores@)
        &&& self.total_cores == self.cores@.len()
        &&& self.sockets == socket_set(self.cores@).len()
    }

    /// Builds the snapshot from the entries of the CPU sysfs tree, in any
    /// order. Attributes that do not parse count as 0; of two entries for one
    /// CPU the later one holds.
    pub fn new(entries: &Vec<CpuEntry>) -> (r: CpuTopology)
        ensures
            r.wf(),
            from_entries(r.cores@, entries@, entries@.len() as int),
            covers_entries(r.cores@, entries@, entries@.len() as int),
            keeps_last_entries(r.cores@, entries@, entries@.len() as int),
            r.physical_cores == physical_ids(r.cores@).len(),
    {
        let cores = collect_cores(entries);
        let sockets = count_sockets(&cores);
        let mut t = CpuTopology { total_cores: cores.len(), physical_cores: 0, sockets, cores };
        let physical = t.get_physical_core_ids();
        t.physical_cores = physical.len();
        t
    }
}

impl CpuTopology {
    /// Whether `core_id` is the smallest logical CPU of its physical core
    /// (a CPU that is not listed counts as primary).
    pub fn is_primary_logical_core(&self, core_id: usize) -> (r: bool)
        requires
            self.wf(),
        ensures
            r == is_primary_in(self.cores@, core_id),
    {
        let n = self.cores.len();
        let mut i: usize = 0;
        while i < n && self.cores[i].id != core_id
            invariant
                i <= n == self.cores@.len(),
                forall|k: int| 0 <= k < i ==> (#[trigger] self.cores@[k]).id != core_id,
            decreases n - i,
        {
            i = i + 1;
        }
        if i == n {
            return true;
        }
        let p = self.cores[i].core_id;
        let s = self.cores[i].socket_id;
        let ghost cs = self.cores@;
        for j in 0..n
            invariant
                n == cs.len(),
                cs == self.cores@,
                ids_ascending(cs),
                i < n,
                cs[i as int].id == core_id,
                cs[i as int].core_id == p,
                cs[i as int].socket_id == s,
                forall|k: int|
                    0 <= k < j && (#[trigger] cs[k]).core_id == p && cs[k].socket_id == s ==> core_id
                        <= cs[k].id,
        {
            if self.cores[j].core_id == p && self.cores[j].socket_id == s && self.cores[j].id < core_id {
                assert(cs[i as int].id == core_id && same_core(cs[j as int], cs[i as int]));
                return false;
            }
        }
        assert forall|a: int, b: int|
            0 <= a < cs.len() && 0 <= b < cs.len() && #[trigger] cs[a].id == core_id
                && same_core(cs[b], cs[a]) implies core_id <= #[trigger] cs[b].id by {
            if a != i {
                if a < i {
                    assert(cs[a].id < cs[i as int].id);
                } else {
                    assert(cs[i as int].id < cs[a].id);
                }
            }
        }
        true
    }

    /// Whether logical CPU `core_id` is listed.
    pub fn contains_cpu(&self, core_id: usize) -> (r: bool)
        ensures
            r == lists_cpu(self.cores@, core_id),
    {
        for i in 0..self.cores.len()
            invariant
                forall|k: int| 0 <= k < i ==> (#[trigger] self.cores@[k]).id != core_id,
        {
            if self.cores[i].id == core_id {
                return true;
            }
        }
        false
    }

    /// The primary logical CPU of each physical core, ascending.
    pub fn get_physical_core_ids(&self) -> (r: Vec<usize>)
        requires
            self.wf(),
        ensures
            r@ == physical_ids(self.cores@),
    {
        let ghost cs = self.cores@;
        let mut out: Vec<usize> = Vec::new();
        for i in 0..self.cores.len()
            invariant
                cs == self.cores@,
                self.wf(),
                out@ == select_ids(cs.subrange(0, i as int), primary_in(cs)),
        {
            assert(cs.subrange(0, i + 1).drop_last() =~= cs.subrange(0, i as int));
            if self.is_primary_logical_core(self.cores[i].id) {
                out.push(self.cores[i].id);
            }
        }
        assert(cs.subrange(0, cs.len() as int) =~= cs);
        out
    }

    /// The CPUs available to workers: primary logical CPUs other than CPU 0,
    /// ascending.
    pub fn get_filtered_core_ids(&self) -> (r: Vec<usize>)
        requires
            self.wf(),
        ensures
            r@ == filtered_ids(self.cores@),
            forall|k: int|
                0 <= k < r@.len() ==> #[trigger] r@[k] != 0 && is_primary_in(self.cores@, r@[k]),
    {
        let ghost cs = self.cores@;
        let mut out: Vec<usize> = Vec::new();
        for i in 0..self.cores.len()
            invariant
                cs == self.cores@,
                self.wf(),
                out@ == select_ids(cs.subrange(0, i as int), worker_in(cs)),
        {
            assert(cs.subrange(0, i + 1).drop_last() =~= cs.subrange(0, i as int));
            let id = self.cores[i].id;
            if id != 0 && self.is_primary_logical_core(id) {
                out.push(id);
            }
        }
        assert(cs.subrange(0, cs.len() as int) =~= cs);
        assert forall|k: int| 0 <= k < out@.len() implies #[trigger] out@[k] != 0
            && is_primary_in(cs, out@[k]) by {
            lemma_select_sound(cs, worker_in(cs), k);
        }
        out
    }

    /// The worker CPUs of one socket: primary logical CPUs other than CPU 0
    /// on `socket_id`, ascending.
    pub fn get_socket_core_ids(&self, socket_id: usize) -> (r: Vec<usize>)
        requires
            self.wf(),
        ensures
            r@ == select_ids(self.cores@, socket_worker_in(self.cores@, socket_id)),
    {
        let ghost cs = self.cores@;
        let mut out: Vec<usize> = Vec::new();
        for i in 0..self.cores.len()
            invariant
                cs == self.cores@,
                self.wf(),
                out@ == select_ids(cs.subrange(0, i as int), socket_worker_in(cs, socket_id)),
        {
            assert(cs.subrange(0, i + 1).drop_last() =~= cs.subrange(0, i as int));
            let c = self.cores[i];
            if c.socket_id == socket_id && c.id != 0 && self.is_primary_logical_core(c.id) {
                out.push(c.id);
            }
        }
        assert(cs.subrange(0, cs.len() as int) =~= cs);
        out
    }

    /// Every logical CPU of `socket_id`, ascending.
    pub fn get_all_socket_cores(&self, socket_id: usize) -> (r: Vec<usize>)
        ensures
            r@ == select_ids(self.cores@, on_socket(socket_id)),
    {
        let ghost cs = self.cores@;
        let mut out: Vec<usize> = Vec::new();
        for i in 0..self.cores.len()
            invariant
                cs == self.cores@,
                out@ == select_ids(cs.subrange(0, i as int), on_socket(socket_id)),
        {
            assert(cs.subrange(0, i + 1).drop_last() =~= cs.subrange(0, i as int));
            if self.cores[i].socket_id == socket_id {
                out.push(self.cores[i].id);
            }
        }
        assert(cs.subrange(0, cs.len() as int) =~= cs);
        out
    }

    /// The socket of logical CPU `core_id`, if it is listed.
    pub fn get_core_socket_id(&self, core_id: usize) -> (r: Option<usize>)
        ensures
            match r {
                Some(s) => exists|i: int|
                    0 <= i < self.cores@.len() && #[trigger] self.cores@[i].id == core_id
                        && self.cores@[i].socket_id == s,
                None => forall|i: int|
                    0 <= i < self.cores@.len() ==> (#[trigger] self.cores@[i]).id != core_id,
            },
    {
        for i in 0..self.cores.len()
            invariant
                forall|k: int| 0 <= k < i ==> (#[trigger] self.cores@[k]).id != core_id,
        {
            if self.cores[i].id == core_id {
                return Some(self.cores[i].socket_id);
            }
        }
        None
    }

    /// The sockets that hold at least one CPU, ascending and each once.
    pub fn get_available_sockets(&self) -> (r: Vec<usize>)
        ensures
            strictly_increasing(r@),
            r@.to_set() == socket_set(self.cores@),
    {
        let ghost cs = self.cores@;
        let mut out: Vec<usize> = Vec::new();
        assert(out@.to_set() =~= socket_set(cs.subrange(0, 0)));
        for i in 0..self.cores.len()
            invariant
                cs == self.cores@,
                strictly_increasing(out@),
                out@.to_set() == socket_set(cs.subrange(0, i as int)),
        {
            let ghost pre = cs.subrange(0, i as int);
            let ghost next = cs.subrange(0, i + 1);
            insert_distinct(&mut out, self.cores[i].socket_id);
            proof {
                assert(next =~= pre.push(cs[i as int]));
                lemma_sets_step(pre, next, cs[i as int]);
            }
        }
        assert(cs.subrange(0, cs.len() as int) =~= cs);
        out
    }

    /// Bitmask of the worker CPUs below 64, written as `0x` and lowercase hex digits.
    pub fn generate_core_mask(&self) -> (r: String)
        requires
            self.wf(),
        ensures
            r@ == seq!['0', 'x'] + hex_digits(mask_of(filtered_ids(self.cores@)) as nat),
    {
        let ids = self.get_filtered_core_ids();
        let mask = core_mask_of(&ids);
        mask_string(mask)
    }

    /// EAL arguments for this CPU layout: the worker CPU mask and CPU 0 as
    /// the main lcore.
    pub fn generate_eal_cpu_args(&self) -> (r: Vec<String>)
        requires
            self.wf(),
        ensures
            r@.len() == 2,
            r@[0]@ == "--lcores="@ + seq!['0', 'x'] + hex_digits(
                mask_of(filtered_ids(self.cores@)) as nat,
            ),
            r@[1]@ == "--master-lcore=0"@,
    {
        let mask = self.generate_core_mask();
        let first = String::from_str("--lcores=").concat(mask.as_str());
        let second = String::from_str("--master-lcore=0");
        let mut args: Vec<String> = Vec::new();
        args.push(first);
        args.push(second);
        args
    }
}

/// Hyper-threading is on when there are more logical CPUs than physical cores.
pub fn is_hyperthreading_enabled(topology: &CpuTopology) -> (r: bool)
    ensures
        r == (topology.total_cores > topology.physical_cores),
{
    topology.total_cores > topology.physical_cores
}

/// Bitmask with bit `id` set for each listed number below 64.
pub fn core_mask_of(ids: &Vec<usize>) -> (r: u64)
    ensures
        r == mask_of(ids@),
{
    let mut mask: u64 = 0;
    for i in 0..ids.len()
        invariant
            mask == mask_of(ids@.subrange(0, i as int)),
    {
        assert(ids@.subrange(0, i + 1).drop_last() =~= ids@.subrange(0, i as int));
        let id = ids[i];
        if id < 64 {
            mask = mask | (1u64 << (id as u64));
        }
    }
    assert(ids@.subrange(0, ids@.len() as int) =~= ids@);
    mask
}

/// `0x` followed by the lowercase hex digits of `mask`.
pub fn mask_string(mask: u64) -> (r: String)
    ensures
        r@ == seq!['0', 'x'] + hex_digits(mask as nat),
{
    let digits = hex_string(mask);
    let r = String::from_str("0x").concat(digits.as_str());
    proof {
        reveal_strlit("0x");
    }
    r
}

/// Within each physical core exactly one sibling is primary: the smallest.
pub proof fn lemma_one_primary_per_group(t: &CpuTopology, s: usize, p: usize)
    requires
        t.wf(),
        exists|w: int| 0 <= w < t.cores@.len() && (#[trigger] t.cores@[w]).core_id == p
            && t.cores@[w].socket_id == s,
    ensures
        siblings(t.cores@, s, p).len() > 0,
        is_primary_in(t.cores@, siblings(t.cores@, s, p)[0]),
        forall|k: int|
            0 < k < siblings(t.cores@, s, p).len() ==> !is_primary_in(
                t.cores@,
                #[trigger] siblings(t.cores@, s, p)[k],
            ),
        forall|k: int|
            0 <= k < siblings(t.cores@, s, p).len() ==> siblings(t.cores@, s, p)[0]
                <= #[trigger] siblings(t.cores@, s, p)[k],
{
    let cs = t.cores@;
    let sib = siblings(cs, s, p);
    let w = choose|w: int| 0 <= w < cs.len() && (#[trigger] cs[w]).core_id == p && cs[w].socket_id == s;
    lemma_select_complete(cs, in_group(s, p), w);
    lemma_select_ascending(cs, in_group(s, p));
    lemma_select_sound(cs, in_group(s, p), 0);
    let i0 = choose|i: int| 0 <= i < cs.len() && #[trigger] cs[i].id == sib[0] && in_group(s, p)(cs[i]);
    assert forall|a: int, b: int|
        0 <= a < cs.len() && 0 <= b < cs.len() && #[trigger] cs[a].id == sib[0] && same_core(cs[b], cs[a]) implies sib[0] <= #[trigger] cs[b].id by {
        if a != i0 {
            if a < i0 {
                assert(cs[a].id < cs[i0].id);
            } else {
                assert(cs[i0].id < cs[a].id);
            }
        }
        lemma_select_complete(cs, in_group(s, p), b);
        let kb = choose|kb: int| 0 <= kb < sib.len() && sib[kb] == cs[b].id;
        if kb > 0 {
            assert(sib[0] < sib[kb]);
        }
    }
    assert forall|k: int| 0 < k < sib.len() implies !is_primary_in(cs, #[trigger] sib[k]) by {
        lemma_select_sound(cs, in_group(s, p), k);
        let ik = choose|i: int| 0 <= i < cs.len() && #[trigger] cs[i].id == sib[k] && in_group(s, p)(cs[i]);
        assert(sib[0] < sib[k]);
        assert(cs[ik].id == sib[k] && same_core(cs[i0], cs[ik]) && !(sib[k] <= cs[i0].id));
    }
    assert forall|k: int| 0 <= k < sib.len() implies sib[0] <= #[trigger] sib[k] by {
        if k > 0 {
            assert(sib[0] < sib[k]);
        }
    }
}

/// Each listed CPU is what one of the first `k` entries describes.
pub open spec fn from_entries(cs: Seq<LogicalCore>, es: Seq<CpuEntry>, k: int) -> bool {
    forall|i: int|
        0 <= i < cs.len() ==> exists|j: int| 0 <= j < k && entry_core(es[j]) == #[trigger] cs[i]
}

/// Each of the first `k` entries has its CPU listed.
pub open spec fn covers_entries(cs: Seq<LogicalCore>, es: Seq<CpuEntry>, k: int) -> bool {
    forall|j: int|
        0 <= j < k ==> exists|i: int| 0 <= i < cs.len() && #[trigger] cs[i].id == (
        #[trigger] es[j]).cpu_id
}

/// No entry after `j` and before `k` is for the same CPU.
pub open spec fn last_for_cpu(es: Seq<CpuEntry>, j: int, k: int) -> bool {
    forall|m: int| j < m < k ==> (#[trigger] es[m]).cpu_id != es[j].cpu_id
}

/// The last of the first `k` entries for a CPU is the one listed.
pub open spec fn keeps_last_entries(cs: Seq<LogicalCore>, es: Seq<CpuEntry>, k: int) -> bool {
    forall|j: int|
        0 <= j < k && #[trigger] last_for_cpu(es, j, k) ==> exists|i: int|
            0 <= i < cs.len() && #[trigger] cs[i] == entry_core(es[j])
}

pub open spec fn upserted(before: Seq<LogicalCore>, after: Seq<LogicalCore>, c: LogicalCore) -> bool {
    &&& exists|i: int| 0 <= i < after.len() && after[i] == c
    &&& forall|i: int|
        0 <= i < after.len() ==> after[i] == c || exists|i2: int|
            0 <= i2 < before.len() && before[i2] == #[trigger] after[i] && before[i2].id != c.id
    &&& forall|i2: int|
        0 <= i2 < before.len() && before[i2].id != c.id ==> exists|i: int|
            0 <= i < after.len() && after[i] == #[trigger] before[i2]
}

proof fn lemma_upsert_from(before: Seq<LogicalCore>, after: Seq<LogicalCore>, es: Seq<CpuEntry>, k: int)
    requires
        0 <= k < es.len(),
        from_entries(before, es, k),
        upserted(before, after, entry_core(es[k])),
    ensures
        from_entries(after, es, k + 1),
{
    let c = entry_core(es[k]);
    assert forall|i: int| 0 <= i < after.len() implies exists|j: int|
        0 <= j < k + 1 && entry_core(es[j]) == #[trigger] after[i] by {
        if after[i] != c {
            let i2 = choose|i2: int|
                0 <= i2 < before.len() && before[i2] == #[trigger] after[i] && before[i2].id
                    != c.id;
            let j = choose|j: int| 0 <= j < k && entry_core(es[j]) == #[trigger] before[i2];
        }
    }
}

proof fn lemma_upsert_covers(before: Seq<LogicalCore>, after: Seq<LogicalCore>, es: Seq<CpuEntry>, k: int)
    requires
        0 <= k < es.len(),
        covers_entries(before, es, k),
        upserted(before, after, entry_core(es[k])),
    ensures
        covers_entries(after, es, k + 1),
{
    let c = entry_core(es[k]);
    let iw = choose|i: int| 0 <= i < after.len() && after[i] == c;
    assert forall|j: int| 0 <= j < k + 1 implies exists|i: int|
        0 <= i < after.len() && #[trigger] after[i].id == (#[trigger] es[j]).cpu_id by {
        if j < k {
            let i2 = choose|i2: int| 0 <= i2 < before.len() && #[trigger] before[i2].id == (
                #[trigger] es[j]).cpu_id;
            if before[i2].id != c.id {
                let i3 = choose|i3: int| 0 <= i3 < after.len() && after[i3] == #[trigger] before[i2];
                assert(after[i3].id == es[j].cpu_id);
            } else {
                assert(after[iw].id == es[j].cpu_id);
            }
        } else {
            assert(after[iw].id == es[j].cpu_id);
        }
    }
}

proof fn lemma_upsert_keeps_last(before: Seq<LogicalCore>, after: Seq<LogicalCore>, es: Seq<CpuEntry>, k: int)
    requires
        0 <= k < es.len(),
        keeps_last_entries(before, es, k),
        upserted(before, after, entry_core(es[k])),
    ensures
        keeps_last_entries(after, es, k + 1),
{
    let c = entry_core(es[k]);
    let iw = choose|i: int| 0 <= i < after.len() && after[i] == c;
    assert forall|j: int| 0 <= j < k + 1 && #[trigger] last_for_cpu(es, j, k + 1) implies exists|i: int|
        0 <= i < after.len() && #[trigger] after[i] == entry_core(es[j]) by {
        if j < k {
            assert(es[k].cpu_id != es[j].cpu_id);
            assert(last_for_cpu(es, j, k));
            let i2 = choose|i2: int| 0 <= i2 < before.len() && #[trigger] before[i2] == entry_core(es[j]);
            let i3 = choose|i3: int| 0 <= i3 < after.len() && after[i3] == #[trigger] before[i2];
            assert(after[i3] == entry_core(es[j]));
        } else {
            assert(after[iw] == entry_core(es[j]));
        }
    }
}

fn collect_cores(entries: &Vec<CpuEntry>) -> (cores: Vec<LogicalCore>)
    ensures
        ids_ascending(cores@),
        from_entries(cores@, entries@, entries@.len() as int),
        covers_entries(cores@, entries@, entries@.len() as int),
        keeps_last_entries(cores@, entries@, entries@.len() as int),
{
    let mut cores: Vec<LogicalCore> = Vec::new();
    for k in 0..entries.len()
        invariant
            ids_ascending(cores@),
            from_entries(cores@, entries@, k as int),
            covers_entries(cores@, entries@, k as int),
            keeps_last_entries(cores@, entries@, k as int),
    {
        let e = &entries[k];
        let c = LogicalCore {
            id: e.cpu_id,
            core_id: parse_id_or_zero(e.core_id.as_str()),
            socket_id: parse_id_or_zero(e.physical_package_id.as_str()),
        };
        assert(c == entry_core(entries@[k as int]));
        let ghost before = cores@;
        upsert_core(&mut cores, c);
        proof {
            lemma_upsert_from(before, cores@, entries@, k as int);
            lemma_upsert_covers(before, cores@, entries@, k as int);
            lemma_upsert_keeps_last(before, cores@, entries@, k as int);
        }
    }
    cores
}

fn count_sockets(cores: &Vec<LogicalCore>) -> (r: usize)
    ensures
        r == socket_set(cores@).len(),
{
    let mut sockets: Vec<usize> = Vec::new();
    assert(sockets@.to_set() =~= socket_set(cores@.subrange(0, 0)));
    for i in 0..cores.len()
        invariant
            strictly_increasing(sockets@),
            sockets@.to_set() == socket_set(cores@.subrange(0, i as int)),
    {
        let ghost pre = cores@.subrange(0, i as int);
        let ghost next = cores@.subrange(0, i + 1);
        insert_distinct(&mut sockets, cores[i].socket_id);
        proof {
            assert(next =~= pre.push(cores@[i as int]));
            lemma_sets_step(pre, next, cores@[i as int]);
        }
    }
    proof {
        assert(cores@.subrange(0, cores@.len() as int) =~= cores@);
        lemma_increasing_no_duplicates(sockets@);
        sockets@.unique_seq_to_set();
    }
    sockets.len()
}

proof fn lemma_sets_step(pre: Seq<LogicalCore>, next: Seq<LogicalCore>, c: LogicalCore)
    requires
        next == pre.push(c),
    ensures
        socket_set(next) == socket_set(pre).insert(c.socket_id),
{
    assert(next[pre.len() as int] == c);
    assert forall|p: usize| #[trigger] socket_set(next).contains(p) implies socket_set(
        pre,
    ).insert(c.socket_id).contains(p) by {
        let w = choose|w: int| 0 <= w < next.len() && #[trigger] next[w].socket_id == p;
        if w < pre.len() {
            assert(pre[w] == next[w]);
        }
    }
    assert forall|p: usize| #[trigger] socket_set(pre).contains(p) implies socket_set(
        next,
    ).contains(p) by {
        let w = choose|w: int| 0 <= w < pre.len() && #[trigger] pre[w].socket_id == p;
        assert(next[w] == pre[w]);
    }
    assert(socket_set(next) =~= socket_set(pre).insert(c.socket_id));
}

/// An ascending list holds each number once.
pub proof fn lemma_increasing_no_duplicates(s: Seq<usize>)
    requires
        strictly_increasing(s),
    ensures
        s.no_duplicates(),
{
    assert forall|i: int, j: int| 0 <= i < s.len() && 0 <= j < s.len() && i != j implies s[i]
        != s[j] by {
        if i < j {
            assert(s[i] < s[j]);
        } else {
            assert(s[j] < s[i]);
        }
    }
}

/// Puts `c` in its place by number, replacing the CPU with the same number.
fn upsert_core(cores: &mut Vec<LogicalCore>, c: LogicalCore)
    requires
        ids_ascending(old(cores)@),
    ensures
        ids_ascending(final(cores)@),
        upserted(old(cores)@, final(cores)@, c),
{
    let n = cores.len();
    let mut pos: usize = 0;
    while pos < n && cores[pos].id < c.id
        invariant
            pos <= n == cores@.len(),
            cores@ == old(cores)@,
            forall|i: int| 0 <= i < pos ==> (#[trigger] cores@[i]).id < c.id,
        decreases n - pos,
    {
        pos = pos + 1;
    }
    let ghost pre = cores@;
    if pos < n && cores[pos].id == c.id {
        cores.set(pos, c);
        assert forall|i: int| 0 <= i < cores@.len() implies cores@[i] == c || exists|i2: int|
            0 <= i2 < pre.len() && pre[i2] == #[trigger] cores@[i] && pre[i2].id != c.id by {
            if i != pos {
                assert(pre[i] == cores@[i]);
                if i < pos {
                    assert(pre[i].id < c.id);
                } else {
                    assert(pre[pos as int].id < pre[i].id);
                }
            }
        }
        assert forall|i2: int| 0 <= i2 < pre.len() && pre[i2].id != c.id implies exists|i: int|
            0 <= i < cores@.len() && cores@[i] == #[trigger] pre[i2] by {
            assert(i2 != pos);
            assert(cores@[i2] == pre[i2]);
        }
        assert(cores@[pos as int] == c);
    } else {
        cores.insert(pos, c);
        assert forall|i: int, j: int| 0 <= i < j < cores@.len() implies cores@[i].id
            < cores@[j].id by {
            if j < pos {
            } else if j == pos {
            } else if i < pos {
                assert(cores@[j] == pre[j - 1]);
                if pos < n {
                    assert(pre[pos as int].id >= c.id);
                }
            } else if i == pos {
                assert(cores@[j] == pre[j - 1]);
                assert(pre[pos as int].id >= c.id);
                assert(pre[pos as int].id != c.id);
                if j - 1 > pos {
                    assert(pre[pos as int].id < pre[j - 1].id);
                }
            } else {
                assert(cores@[i] == pre[i - 1]);
                assert(cores@[j] == pre[j - 1]);
            }
        }
        assert forall|i: int| 0 <= i < cores@.len() implies cores@[i] == c || exists|i2: int|
            0 <= i2 < pre.len() && pre[i2] == #[trigger] cores@[i] && pre[i2].id != c.id by {
            if i < pos {
                assert(pre[i] == cores@[i]);
            } else if i > pos {
                assert(pre[i - 1] == cores@[i]);
                assert(pre[pos as int].id >= c.id);
                assert(pre[pos as int].id != c.id);
                if i - 1 > pos {
                    assert(pre[pos as int].id < pre[i - 1].id);
                }
            }
        }
        assert forall|i2: int| 0 <= i2 < pre.len() && pre[i2].id != c.id implies exists|i: int|
            0 <= i < cores@.len() && cores@[i] == #[trigger] pre[i2] by {
            if i2 < pos {
                assert(cores@[i2] == pre[i2]);
            } else {
                assert(cores@[i2 + 1] == pre[i2]);
            }
        }
        assert(cores@[pos as int] == c);
    }
}

/// Adds `x` to an ascending list of distinct numbers, keeping it so.
pub fn insert_distinct(v: &mut Vec<usize>, x: usize)
    requires
        strictly_increasing(old(v)@),
    ensures
        strictly_increasing(final(v)@),
        final(v)@.to_set() == old(v)@.to_set().insert(x),
{
    let n = v.len();
    let mut pos: usize = 0;
    while pos < n && v[pos] < x
        invariant
            pos <= n == v@.len(),
            v@ == old(v)@,
            forall|i: int| 0 <= i < pos ==> v@[i] < x,
        decreases n - pos,
    {
        pos = pos + 1;
    }
    let ghost pre = v@;
    if pos < n && v[pos] == x {
        assert(v@.to_set() =~= pre.to_set().insert(x)) by {
            assert(pre[pos as int] == x);
        }
        return;
    }
    v.insert(pos, x);
    assert forall|i: int, j: int| 0 <= i < j < v@.len() implies v@[i] < v@[j] by {
        if j < pos {
        } else if j == pos {
        } else if i < pos {
            assert(v@[j] == pre[j - 1]);
            assert(pre[pos as int] >= x);
        } else if i == pos {
            assert(v@[j] == pre[j - 1]);
            assert(pre[pos as int] > x);
        } else {
            assert(v@[i] == pre[i - 1]);
            assert(v@[j] == pre[j - 1]);
        }
    }
    assert(v@.to_set() =~= pre.to_set().insert(x)) by {
        assert forall|a: usize| #[trigger] v@.contains(a) implies pre.to_set().insert(x).contains(a) by {
            let i = choose|i: int| 0 <= i < v@.len() && v@[i] == a;
            if i < pos {
                assert(pre[i] == a);
            } else if i > pos {
                assert(pre[i - 1] == a);
            }
        }
        assert forall|a: usize| #[trigger] pre.contains(a) implies v@.contains(a) by {
            let i = choose|i: int| 0 <= i < pre.len() && pre[i] == a;
            if i < pos {
                assert(v@[i] == a);
            } else {
                assert(v@[i + 1] == a);
            }
        }
        assert(v@[pos as int] == x);
    }
}

} // verus!
