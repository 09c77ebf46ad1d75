//! Hugepage sizing.
use vstd::prelude::*;

use crate::text::{append_repeated, dec_digits, decimal_string, repeat_csv};

verus! {

/// Hugepage counts of the host: free and total pages of each size, and per
/// node `(node, 2 MB pages, 1 GB pages)`.
#[derive(Clone, Debug)]
pub struct HugePagesInfo {
    pub size_2mb_available: u32,
    pub size_1gb_available: u32,
    pub size_2mb_total: u32,
    pub size_1gb_total: u32,
    pub numa_mapping: Vec<(u32, u32, u32)>,
}

/// Half the memory goes to hugepages.
pub open spec fn hugepage_memory(total_memory_mb: u32) -> u32 {
    (total_memory_mb / 2) as u32
}

/// A hugepage layout for a host with `num_numa_nodes` nodes and
/// `total_memory_mb` of memory: half of it as hugepages, of 1 GB above
/// 16 GB of memory and of 2 MB otherwise; the EAL memory arguments split
/// that memory evenly over the nodes. Returns the 2 MB page count, the 1 GB
/// page count and the arguments.
pub fn recommend_hugepage_config(num_numa_nodes: u32, total_memory_mb: u32) -> (r: (
    u32,
    u32,
    Vec<String>,
))
    ensures
        r.0 == if total_memory_mb > 16 * 1024 { 0 } else { hugepage_memory(total_memory_mb) / 2 },
        r.1 == if total_memory_mb > 16 * 1024 { hugepage_memory(total_memory_mb) / 1024 } else { 0 },
        r.2@.len() == 2,
        r.2@[0]@ == "--socket-mem="@ + if num_numa_nodes > 1 {
            repeat_csv(
                dec_digits((hugepage_memory(total_memory_mb) / num_numa_nodes) as nat),
                num_numa_nodes as nat,
            )
        } else {
            dec_digits(hugepage_memory(total_memory_mb) as nat)
        },
        r.2@[1]@ == "--huge-unlink"@,
{
    let total_hugepage_memory = total_memory_mb / 2;
    let mut pages_2mb: u32 = 0;
    let mut pages_1gb: u32 = 0;
    if total_memory_mb > 16 * 1024 {
        pages_1gb = total_hugepage_memory / 1024;
    } else {
        pages_2mb = total_hugepage_memory / 2;
    }
    let mut arg = String::from_str("--socket-mem=");
    if num_numa_nodes > 1 {
        let mem_per_node = total_hugepage_memory / num_numa_nodes;
        let v = decimal_string(mem_per_node as usize);
        append_repeated(&mut arg, v.as_str(), num_numa_nodes as usize);
    } else {
        let v = decimal_string(total_hugepage_memory as usize);
        arg.append(v.as_str());
    }
    let mut eal_args: Vec<String> = Vec::new();
    eal_args.push(arg);
    eal_args.push(String::from_str("--huge-unlink"));
    (pages_2mb, pages_1gb, eal_args)
}

} // verus!
