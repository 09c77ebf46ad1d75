//! Core of a NUMA-partitioned packet ingestion engine: host topology
//! parsing and queries, the descriptor pool, port configuration, the
//! per-burst worker decisions, and the node and manager controllers.

pub mod cpulist;
pub mod text;
pub mod topology;
pub mod numa;
pub mod config;
pub mod packet;
pub mod pool;
pub mod batch;
pub mod node;
pub mod manager;
pub mod mbuf;
pub mod hugepages;
pub mod worker;
pub mod cpu_manager;
pub mod meminfo;
