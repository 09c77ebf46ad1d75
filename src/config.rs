//! Port configuration: the engine's settings and the device configuration
//! derived from them.
use vstd::prelude::*;

use crate::text::{dec_digits, decimal_string};

verus! {

pub const ETH_RSS_IP: u64 = 0x1;
pub const ETH_RSS_TCP: u64 = 0x2;
pub const ETH_RSS_UDP: u64 = 0x4;
pub const ETH_RSS_SCTP: u64 = 0x8;
pub const ETH_RSS_NONFRAG_IPV4_TCP: u64 = 0x40;
pub const ETH_RSS_NONFRAG_IPV4_UDP: u64 = 0x80;
pub const ETH_RSS_L4_SRC_ONLY: u64 = 0x100;
pub const ETH_RSS_L4_DST_ONLY: u64 = 0x200;

/// Hash functions used when the configuration names none: spread by
/// destination port over IPv4 TCP and UDP.
pub const DEFAULT_RSS_HF: u64 = 0x2c0;

pub const ETH_MQ_RX_NONE: u32 = 0;
pub const ETH_MQ_RX_RSS: u32 = 1;

pub const DEV_RX_OFFLOAD_IPV4_CKSUM: u64 = 0x2;
pub const DEV_RX_OFFLOAD_UDP_CKSUM: u64 = 0x4;
pub const DEV_RX_OFFLOAD_TCP_CKSUM: u64 = 0x8;
pub const DEV_RX_OFFLOAD_CHECKSUM: u64 = 0xe;
pub const DEV_RX_OFFLOAD_TCP_LRO: u64 = 0x10;
pub const DEV_RX_OFFLOAD_SCATTER: u64 = 0x2000;
pub const DEV_RX_OFFLOAD_TCP_GRO: u64 = 0x200000;

pub const DEV_TX_OFFLOAD_IPV4_CKSUM: u64 = 0x2;
pub const DEV_TX_OFFLOAD_UDP_CKSUM: u64 = 0x4;
pub const DEV_TX_OFFLOAD_TCP_CKSUM: u64 = 0x8;
pub const DEV_TX_OFFLOAD_TCP_TSO: u64 = 0x20;
pub const DEV_TX_OFFLOAD_UDP_TSO: u64 = 0x40;
pub const DEV_TX_OFFLOAD_MULTI_SEGS: u64 = 0x8000;

/// The default hash functions are IPv4 TCP, IPv4 UDP and destination-port-only.
pub proof fn lemma_default_rss_hf()
    ensures
        DEFAULT_RSS_HF == ETH_RSS_NONFRAG_IPV4_TCP | ETH_RSS_NONFRAG_IPV4_UDP | ETH_RSS_L4_DST_ONLY,
{
    assert(0x2c0u64 == 0x40u64 | 0x80u64 | 0x200u64) by (bit_vector);
}

/// Settings of the engine's ports, memory and offloads.
#[derive(Clone, Debug)]
pub struct DpdkConfig {
    pub port_id: u16,
    pub num_rx_queues: u16,
    pub num_tx_queues: u16,
    pub promiscuous: bool,
    pub rx_ring_size: u32,
    pub tx_ring_size: u32,
    pub num_mbufs: u32,
    pub mbuf_cache_size: u32,
    pub burst_size: u32,
    pub use_rss: bool,
    pub rss_hf: u64,
    pub use_cpu_affinity: bool,
    pub rss_key: Option<Vec<u8>>,
    pub use_huge_pages: bool,
    pub socket_mem: Option<Vec<u32>>,
    pub huge_dir: Option<String>,
    pub data_room_size: u16,
    pub use_numa_on_socket: bool,
    pub use_jumbo_frames: bool,
    pub max_rx_pkt_len: u32,
    pub use_hw_checksum: bool,
    pub use_flow_director: bool,
    pub use_tso: bool,
    pub use_lro: bool,
    pub use_udp_tso: bool,
    pub use_gro: bool,
    pub max_tso_segment_size: u16,
    pub max_gro_size: u32,
}

/// The default settings: four RX and TX queues with RSS over the default
/// hash functions, 1024-entry rings, 8191 buffers with a cache of 250,
/// bursts of 32, hugepages with 1024 MB on two nodes, NUMA placement,
/// hardware checksums, and no jumbo frames or segmentation offloads.
pub open spec fn is_default_config(r: DpdkConfig) -> bool {
    &&& r.port_id == 0
    &&& r.num_rx_queues == 4
    &&& r.num_tx_queues == 4
    &&& r.promiscuous
    &&& r.rx_ring_size == 1024
    &&& r.tx_ring_size == 1024
    &&& r.num_mbufs == 8191
    &&& r.mbuf_cache_size == 250
    &&& r.burst_size == 32
    &&& r.use_rss
    &&& r.rss_hf == DEFAULT_RSS_HF
    &&& r.use_cpu_affinity
    &&& r.rss_key is None
    &&& r.use_huge_pages
    &&& r.socket_mem is Some && r.socket_mem->0@ == seq![1024u32, 1024u32]
    &&& r.huge_dir is None
    &&& r.data_room_size == 2048
    &&& r.use_numa_on_socket
    &&& !r.use_jumbo_frames
    &&& r.max_rx_pkt_len == 1518
    &&& r.use_hw_checksum
    &&& !r.use_flow_director
    &&& !r.use_tso
    &&& !r.use_lro
    &&& !r.use_udp_tso
    &&& !r.use_gro
    &&& r.max_tso_segment_size == 1460
    &&& r.max_gro_size == 65535
}

impl Default for DpdkConfig {
    fn default() -> (r: Self)
        ensures
            is_default_config(r),
    {
        let mut socket_mem: Vec<u32> = Vec::new();
        socket_mem.push(1024);
        socket_mem.push(1024);
        assert(socket_mem@ =~= seq![1024u32, 1024u32]);
        proof {
            lemma_default_rss_hf();
        }
        DpdkConfig {
            port_id: 0,
            num_rx_queues: 4,
            num_tx_queues: 4,
            promiscuous: true,
            rx_ring_size: 1024,
            tx_ring_size: 1024,
            num_mbufs: 8191,
            mbuf_cache_size: 250,
            burst_size: 32,
            use_rss: true,
            rss_hf: ETH_RSS_NONFRAG_IPV4_TCP | ETH_RSS_NONFRAG_IPV4_UDP | ETH_RSS_L4_DST_ONLY,
            use_cpu_affinity: true,
            rss_key: None,
            use_huge_pages: true,
            socket_mem: Some(socket_mem),
            huge_dir: None,
            data_room_size: 2048,
            use_numa_on_socket: true,
            use_jumbo_frames: false,
            max_rx_pkt_len: 1518,
            use_hw_checksum: true,
            use_flow_director: false,
            use_tso: false,
            use_lro: false,
            use_udp_tso: false,
            use_gro: false,
            max_tso_segment_size: 1460,
            max_gro_size: 65535,
        }
    }
}

impl DpdkConfig {
    /// Jumbo frames of up to `mtu` bytes of payload: frames of `mtu + 18`
    /// bytes (Ethernet header and VLAN tag), buffers 128 bytes larger.
    pub fn with_jumbo_frames(self, mtu: u32) -> (r: Self)
        requires
            mtu + 146 <= u16::MAX,
        ensures
            r == (DpdkConfig {
                use_jumbo_frames: true,
                max_rx_pkt_len: (mtu + 18) as u32,
                data_room_size: (mtu + 146) as u16,
                ..self
            }),
    {
        let mut c = self;
        c.use_jumbo_frames = true;
        c.max_rx_pkt_len = mtu + 18;
        c.data_room_size = (c.max_rx_pkt_len + 128) as u16;
        c
    }

    /// `mb_per_node` megabytes of hugepage memory on each of `num_nodes` nodes.
    pub fn with_numa_allocation(self, num_nodes: usize, mb_per_node: u32) -> (r: Self)
        ensures
            r.socket_mem is Some,
            r.socket_mem->0@ == Seq::new(num_nodes as nat, |i: int| mb_per_node),
            r == (DpdkConfig { socket_mem: r.socket_mem, use_numa_on_socket: true, ..self }),
    {
        let mut mem: Vec<u32> = Vec::new();
        for i in 0..num_nodes
            invariant
                mem@ == Seq::new(i as nat, |k: int| mb_per_node),
        {
            mem.push(mb_per_node);
            assert(mem@ =~= Seq::new((i + 1) as nat, |k: int| mb_per_node));
        }
        let mut c = self;
        c.socket_mem = Some(mem);
        c.use_numa_on_socket = true;
        c
    }

    /// Queues and pools without NUMA placement.
    pub fn without_numa(self) -> (r: Self)
        ensures
            r == (DpdkConfig { use_numa_on_socket: false, ..self }),
    {
        let mut c = self;
        c.use_numa_on_socket = false;
        c
    }

    /// TCP segmentation offload, with `max_segment_size` as the MSS if given.
    pub fn with_tso(self, max_segment_size: Option<u16>) -> (r: Self)
        ensures
            r == (DpdkConfig {
                use_tso: true,
                max_tso_segment_size: match max_segment_size {
                    Some(m) => m,
                    None => self.max_tso_segment_size,
                },
                ..self
            }),
    {
        let mut c = self;
        c.use_tso = true;
        if let Some(mss) = max_segment_size {
            c.max_tso_segment_size = mss;
        }
        c
    }

    /// Large receive offload.
    pub fn with_lro(self) -> (r: Self)
        ensures
            r == (DpdkConfig { use_lro: true, ..self }),
    {
        let mut c = self;
        c.use_lro = true;
        c
    }

    /// UDP segmentation offload, with `max_segment_size` as the segment size if given.
    pub fn with_udp_tso(self, max_segment_size: Option<u16>) -> (r: Self)
        ensures
            r == (DpdkConfig {
                use_udp_tso: true,
                max_tso_segment_size: match max_segment_size {
                    Some(m) => m,
                    None => self.max_tso_segment_size,
                },
                ..self
            }),
    {
        let mut c = self;
        c.use_udp_tso = true;
        if let Some(mss) = max_segment_size {
            c.max_tso_segment_size = mss;
        }
        c
    }
}

/// The default settings.
pub fn default_dpdk_config() -> (r: DpdkConfig)
    ensures
        is_default_config(r),
{
    DpdkConfig::default()
}

/// RSS settings of a device: the hash key (if any) and hash functions.
#[derive(Clone, Debug)]
pub struct RteEthRssConf {
    pub rss_key: Option<Vec<u8>>,
    pub rss_key_len: u8,
    pub rss_hf: u64,
}

#[derive(Clone, Copy, Debug, PartialEq, Eq)]
pub struct RteEthRxMode {
    pub mq_mode: u32,
    pub max_rx_pkt_len: u32,
    pub split_hdr_size: u16,
    pub offloads: u64,
}

#[derive(Clone, Copy, Debug, PartialEq, Eq)]
pub struct RteEthTxMode {
    pub mq_mode: u32,
    pub pvid: u16,
    pub offloads: u64,
}

#[derive(Clone, Debug)]
pub struct RteEthRxAdvConf {
    pub rss_conf: RteEthRssConf,
}

#[derive(Clone, Copy, Debug, PartialEq, Eq)]
pub struct RteEthTxAdvConf {}

#[derive(Clone, Copy, Debug, PartialEq, Eq)]
pub struct RteEthFdirConf {}

#[derive(Clone, Copy, Debug, PartialEq, Eq)]
pub struct RteEthIntrConf {}

/// Device configuration handed to the driver's configure call.
#[derive(Clone, Debug)]
pub struct RteEthConf {
    pub rxmode: RteEthRxMode,
    pub txmode: RteEthTxMode,
    pub lpbk_mode: u32,
    pub rx_adv_conf: RteEthRxAdvConf,
    pub tx_adv_conf: RteEthTxAdvConf,
    pub dcb_capability_en: u32,
    pub fdir_conf: RteEthFdirConf,
    pub intr_conf: RteEthIntrConf,
}

/// A device configuration with every mode off and every field zero.
pub fn default_eth_config() -> (r: RteEthConf)
    ensures
        r.rxmode == (RteEthRxMode { mq_mode: 0, max_rx_pkt_len: 0, split_hdr_size: 0, offloads: 0 }),
        r.txmode == (RteEthTxMode { mq_mode: 0, pvid: 0, offloads: 0 }),
        r.lpbk_mode == 0,
        r.rx_adv_conf.rss_conf.rss_key is None,
        r.rx_adv_conf.rss_conf.rss_key_len == 0,
        r.rx_adv_conf.rss_conf.rss_hf == 0,
        r.dcb_capability_en == 0,
{
    RteEthConf {
        rxmode: RteEthRxMode { mq_mode: 0, max_rx_pkt_len: 0, split_hdr_size: 0, offloads: 0 },
        txmode: RteEthTxMode { mq_mode: 0, pvid: 0, offloads: 0 },
        lpbk_mode: 0,
        rx_adv_conf: RteEthRxAdvConf {
            rss_conf: RteEthRssConf { rss_key: None, rss_key_len: 0, rss_hf: 0 },
        },
        tx_adv_conf: RteEthTxAdvConf {},
        dcb_capability_en: 0,
        fdir_conf: RteEthFdirConf {},
        intr_conf: RteEthIntrConf {},
    }
}

/// RSS is used when it is asked for and there is more than one RX queue.
pub open spec fn rss_enabled(c: DpdkConfig) -> bool {
    c.use_rss && c.num_rx_queues > 1
}

/// The hash functions asked for, or the default set when none are.
pub open spec fn rss_hash_functions(c: DpdkConfig) -> u64 {
    if c.rss_hf == 0 {
        DEFAULT_RSS_HF
    } else {
        c.rss_hf
    }
}

pub open spec fn rx_offloads(c: DpdkConfig) -> u64 {
    (if c.use_jumbo_frames { DEV_RX_OFFLOAD_SCATTER } else { 0 }) | (if c.use_hw_checksum {
        DEV_RX_OFFLOAD_CHECKSUM
    } else {
        0
    }) | (if c.use_lro { DEV_RX_OFFLOAD_TCP_LRO } else { 0 }) | (if c.use_gro {
        DEV_RX_OFFLOAD_TCP_GRO | DEV_RX_OFFLOAD_SCATTER
    } else {
        0
    })
}

pub open spec fn tx_offloads(c: DpdkConfig) -> u64 {
    (if c.use_hw_checksum {
        DEV_TX_OFFLOAD_IPV4_CKSUM | DEV_TX_OFFLOAD_UDP_CKSUM | DEV_TX_OFFLOAD_TCP_CKSUM
    } else {
        0
    }) | (if c.use_tso { DEV_TX_OFFLOAD_TCP_TSO | DEV_TX_OFFLOAD_MULTI_SEGS } else { 0 }) | (
    if c.use_udp_tso {
        DEV_TX_OFFLOAD_UDP_TSO | DEV_TX_OFFLOAD_MULTI_SEGS
    } else {
        0
    })
}

/// The device configuration for a port under `config`: RSS over the
/// configured (or default) hash functions when RSS is enabled, the jumbo
/// frame length, and the offloads the configuration turns on.
pub fn port_eth_config(config: &DpdkConfig) -> (r: RteEthConf)
    requires
        config.rss_key is Some ==> config.rss_key->0@.len() <= 255,
    ensures
        r.rxmode.mq_mode == if rss_enabled(*config) { ETH_MQ_RX_RSS } else { ETH_MQ_RX_NONE },
        r.rx_adv_conf.rss_conf.rss_hf == if rss_enabled(*config) {
            rss_hash_functions(*config)
        } else {
            0
        },
        rss_enabled(*config) && config.rss_key is Some ==> r.rx_adv_conf.rss_conf.rss_key is Some
            && r.rx_adv_conf.rss_conf.rss_key->0@ == config.rss_key->0@
            && r.rx_adv_conf.rss_conf.rss_key_len == config.rss_key->0@.len(),
        !(rss_enabled(*config) && config.rss_key is Some) ==> r.rx_adv_conf.rss_conf.rss_key is None
            && r.rx_adv_conf.rss_conf.rss_key_len == 0,
        r.rxmode.max_rx_pkt_len == if config.use_jumbo_frames { config.max_rx_pkt_len } else { 0 },
        r.rxmode.offloads == rx_offloads(*config),
        r.txmode.offloads == tx_offloads(*config),
        r.rxmode.split_hdr_size == 0,
        r.txmode.mq_mode == 0,
        r.txmode.pvid == 0,
{
    let mut conf = default_eth_config();
    if config.use_rss && config.num_rx_queues > 1 {
        conf.rxmode.mq_mode = ETH_MQ_RX_RSS;
        conf.rx_adv_conf.rss_conf.rss_hf = if config.rss_hf == 0 {
            DEFAULT_RSS_HF
        } else {
            config.rss_hf
        };
        match &config.rss_key {
            Some(key) => {
                let len = key.len() as u8;
                conf.rx_adv_conf.rss_conf.rss_key = Some(key.clone());
                conf.rx_adv_conf.rss_conf.rss_key_len = len;
            },
            None => {},
        }
    }
    if config.use_jumbo_frames {
        conf.rxmode.max_rx_pkt_len = config.max_rx_pkt_len;
    }
    conf.rxmode.offloads = (if config.use_jumbo_frames {
        DEV_RX_OFFLOAD_SCATTER
    } else {
        0
    }) | (if config.use_hw_checksum {
        DEV_RX_OFFLOAD_CHECKSUM
    } else {
        0
    }) | (if config.use_lro {
        DEV_RX_OFFLOAD_TCP_LRO
    } else {
        0
    }) | (if config.use_gro {
        DEV_RX_OFFLOAD_TCP_GRO | DEV_RX_OFFLOAD_SCATTER
    } else {
        0
    });
    conf.txmode.offloads = (if config.use_hw_checksum {
        DEV_TX_OFFLOAD_IPV4_CKSUM | DEV_TX_OFFLOAD_UDP_CKSUM | DEV_TX_OFFLOAD_TCP_CKSUM
    } else {
        0
    }) | (if config.use_tso {
        DEV_TX_OFFLOAD_TCP_TSO | DEV_TX_OFFLOAD_MULTI_SEGS
    } else {
        0
    }) | (if config.use_udp_tso {
        DEV_TX_OFFLOAD_UDP_TSO | DEV_TX_OFFLOAD_MULTI_SEGS
    } else {
        0
    });
    conf
}

/// Socket for a port's queues: the port's own when NUMA placement is on,
/// any socket (-1) otherwise.
pub fn queue_socket_id(config: &DpdkConfig, port_socket_id: i32) -> (r: i32)
    ensures
        r == if config.use_numa_on_socket { port_socket_id } else { -1i32 },
{
    if config.use_numa_on_socket {
        port_socket_id
    } else {
        -1
    }
}

/// Failures of the driver layer.
#[derive(Clone, Copy, Debug, PartialEq, Eq)]
pub enum DpdkError {
    Success,
    InitError,
    PortConfigError,
    MemoryError,
    RunningError,
    NotInitialized,
}

/// The driver calls that set up a port, in the order they are made.
#[derive(Clone, Copy, Debug, PartialEq, Eq)]
pub enum PortStep {
    Configure,
    RxQueueSetup(u16),
    TxQueueSetup(u16),
    Start,
    Promiscuous,
}

/// Why a port could not be set up.
#[derive(Clone, Copy, Debug, PartialEq, Eq)]
pub enum PortError {
    /// The driver does not know the port.
    PortInvalid(u16),
    /// The port sits on another node than the one setting it up.
    WrongNode { port_id: u16, port_socket_id: i32, node_id: usize },
    /// No packet buffer pool could be made for the port.
    PoolCreation,
    /// A setup call returned the given negative status.
    PortConfigFailed(PortStep, i32),
}

/// The socket a port reports, with any negative value read as -1 (unknown).
pub open spec fn known_socket(port_socket_id: i32) -> i32 {
    if port_socket_id >= 0 {
        port_socket_id
    } else {
        -1i32
    }
}

/// Checks that the driver knows the port (`is_valid != 0`) and, with NUMA
/// placement on, that a port on a known socket sits on `node_id`; returns
/// the port's socket.
pub fn check_port_placement(
    port_id: u16,
    is_valid: i32,
    port_socket_id: i32,
    node_id: usize,
    config: &DpdkConfig,
) -> (r: Result<i32, PortError>)
    ensures
        is_valid == 0 ==> r == Err::<i32, PortError>(PortError::PortInvalid(port_id)),
        is_valid != 0 && known_socket(port_socket_id) >= 0 && known_socket(port_socket_id) as int
            != node_id as int && config.use_numa_on_socket ==> r == Err::<i32, PortError>(
            PortError::WrongNode { port_id, port_socket_id: known_socket(port_socket_id), node_id },
        ),
        is_valid != 0 && !(known_socket(port_socket_id) >= 0 && known_socket(port_socket_id) as int
            != node_id as int && config.use_numa_on_socket) ==> r == Ok::<i32, PortError>(
            known_socket(port_socket_id),
        ),
{
    if is_valid == 0 {
        return Err(PortError::PortInvalid(port_id));
    }
    let socket = if port_socket_id >= 0 {
        port_socket_id
    } else {
        -1
    };
    if socket >= 0 && socket as usize != node_id && config.use_numa_on_socket {
        return Err(PortError::WrongNode { port_id, port_socket_id: socket, node_id });
    }
    Ok(socket)
}

/// The setup calls for a port: configure, each RX queue, each TX queue,
/// start, and promiscuous mode when asked for.
pub open spec fn setup_steps(config: DpdkConfig) -> Seq<PortStep> {
    seq![PortStep::Configure] + Seq::new(
        config.num_rx_queues as nat,
        |q: int| PortStep::RxQueueSetup(q as u16),
    ) + Seq::new(config.num_tx_queues as nat, |q: int| PortStep::TxQueueSetup(q as u16)) + seq![
        PortStep::Start,
    ] + if config.promiscuous {
        seq![PortStep::Promiscuous]
    } else {
        Seq::empty()
    }
}

pub fn port_setup_steps(config: &DpdkConfig) -> (r: Vec<PortStep>)
    ensures
        r@ == setup_steps(*config),
{
    let mut steps: Vec<PortStep> = Vec::new();
    steps.push(PortStep::Configure);
    let ghost head = steps@;
    for q in 0..config.num_rx_queues
        invariant
            steps@ == head + Seq::new(q as nat, |k: int| PortStep::RxQueueSetup(k as u16)),
    {
        steps.push(PortStep::RxQueueSetup(q));
        assert(steps@ =~= head + Seq::new((q + 1) as nat, |k: int| PortStep::RxQueueSetup(k as u16)));
    }
    let ghost mid = steps@;
    for q in 0..config.num_tx_queues
        invariant
            steps@ == mid + Seq::new(q as nat, |k: int| PortStep::TxQueueSetup(k as u16)),
    {
        steps.push(PortStep::TxQueueSetup(q));
        assert(steps@ =~= mid + Seq::new((q + 1) as nat, |k: int| PortStep::TxQueueSetup(k as u16)));
    }
    steps.push(PortStep::Start);
    if config.promiscuous {
        steps.push(PortStep::Promiscuous);
    }
    assert(steps@ =~= setup_steps(*config));
    steps
}

/// A setup call's status: negative is a failure of that step.
pub fn step_result(step: PortStep, ret: i32) -> (r: Result<(), PortError>)
    ensures
        ret < 0 ==> r == Err::<(), PortError>(PortError::PortConfigFailed(step, ret)),
        ret >= 0 ==> r is Ok,
{
    if ret < 0 {
        Err(PortError::PortConfigFailed(step, ret))
    } else {
        Ok(())
    }
}

/// The packet buffer pool for a port: named after its node and placed on
/// it, or the default pool on any socket (-1) when the node is unknown.
pub fn mbuf_pool_for(port_numa_node: Option<usize>) -> (r: (String, i32))
    requires
        port_numa_node is Some ==> port_numa_node->0 <= i32::MAX,
    ensures
        port_numa_node is Some ==> r.0@ == "mbuf_pool_node"@ + dec_digits(port_numa_node->0 as nat)
            && r.1 == port_numa_node->0 as i32,
        port_numa_node is None ==> r.0@ == "mbuf_pool_default"@ && r.1 == -1i32,
{
    match port_numa_node {
        Some(node) => {
            let name = String::from_str("mbuf_pool_node").concat(decimal_string(node).as_str());
            (name, node as i32)
        },
        None => (String::from_str("mbuf_pool_default"), -1),
    }
}

} // verus!
