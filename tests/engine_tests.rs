use std::cell::RefCell;

use hfeec::batch::{fill_descriptor, initial_prefetch_count, is_extraction_ok, prefetch_index, Extraction, PacketBatch};
use hfeec::config::{
    check_port_placement, default_dpdk_config, default_eth_config, mbuf_pool_for, port_eth_config,
    port_setup_steps, queue_socket_id, step_result, DpdkConfig, PortError, PortStep,
    DEV_RX_OFFLOAD_CHECKSUM, DEV_RX_OFFLOAD_SCATTER, DEV_RX_OFFLOAD_TCP_GRO, DEV_RX_OFFLOAD_TCP_LRO,
    DEV_TX_OFFLOAD_IPV4_CKSUM, DEV_TX_OFFLOAD_MULTI_SEGS, DEV_TX_OFFLOAD_TCP_CKSUM,
    DEV_TX_OFFLOAD_TCP_TSO, DEV_TX_OFFLOAD_UDP_CKSUM, DEV_TX_OFFLOAD_UDP_TSO, ETH_MQ_RX_RSS,
    ETH_RSS_L4_DST_ONLY, ETH_RSS_NONFRAG_IPV4_TCP, ETH_RSS_NONFRAG_IPV4_UDP,
};
use hfeec::hugepages::recommend_hugepage_config;
use hfeec::mbuf::{SendableMbufBuffer, SendableMbufPtr};
use hfeec::packet::PacketData;
use hfeec::pool::PacketDataPool;

#[test]
fn rss_default_mask_with_several_queues() {
    let c = default_dpdk_config();
    assert_eq!(c.num_rx_queues, 4);
    let conf = port_eth_config(&c);
    assert_eq!(conf.rxmode.mq_mode, ETH_MQ_RX_RSS);
    assert_eq!(
        conf.rx_adv_conf.rss_conf.rss_hf,
        ETH_RSS_NONFRAG_IPV4_TCP | ETH_RSS_NONFRAG_IPV4_UDP | ETH_RSS_L4_DST_ONLY
    );
    let mut unspecified = default_dpdk_config();
    unspecified.rss_hf = 0;
    let conf = port_eth_config(&unspecified);
    assert_eq!(
        conf.rx_adv_conf.rss_conf.rss_hf,
        ETH_RSS_NONFRAG_IPV4_TCP | ETH_RSS_NONFRAG_IPV4_UDP | ETH_RSS_L4_DST_ONLY
    );
}

#[test]
fn rss_off_with_one_queue() {
    let mut c = default_dpdk_config();
    c.num_rx_queues = 1;
    assert!(c.use_rss);
    let conf = port_eth_config(&c);
    assert_eq!(conf.rxmode.mq_mode, 0);
    assert_eq!(conf.rx_adv_conf.rss_conf.rss_hf, 0);
}

#[test]
fn rss_key_is_programmed() {
    let mut c = default_dpdk_config();
    c.rss_key = Some(vec![7u8; 40]);
    let conf = port_eth_config(&c);
    assert_eq!(conf.rx_adv_conf.rss_conf.rss_key, Some(vec![7u8; 40]));
    assert_eq!(conf.rx_adv_conf.rss_conf.rss_key_len, 40);
}

#[test]
fn offloads_follow_the_config() {
    let c = default_dpdk_config();
    let conf = port_eth_config(&c);
    assert_eq!(conf.rxmode.offloads, DEV_RX_OFFLOAD_CHECKSUM);
    assert_eq!(
        conf.txmode.offloads,
        DEV_TX_OFFLOAD_IPV4_CKSUM | DEV_TX_OFFLOAD_UDP_CKSUM | DEV_TX_OFFLOAD_TCP_CKSUM
    );
    let mut c = default_dpdk_config().with_jumbo_frames(9000).with_tso(None).with_lro().with_udp_tso(Some(1200));
    c.use_hw_checksum = false;
    c.use_gro = true;
    let conf = port_eth_config(&c);
    assert_eq!(conf.rxmode.max_rx_pkt_len, 9018);
    assert_eq!(
        conf.rxmode.offloads,
        DEV_RX_OFFLOAD_SCATTER | DEV_RX_OFFLOAD_TCP_LRO | DEV_RX_OFFLOAD_TCP_GRO
    );
    assert_eq!(
        conf.txmode.offloads,
        DEV_TX_OFFLOAD_TCP_TSO | DEV_TX_OFFLOAD_UDP_TSO | DEV_TX_OFFLOAD_MULTI_SEGS
    );
    assert_eq!(c.max_tso_segment_size, 1200);
    let d = default_eth_config();
    assert_eq!(d.rxmode.offloads, 0);
    assert_eq!(d.rx_adv_conf.rss_conf.rss_key, None);
}

#[test]
fn config_builders() {
    let c: DpdkConfig = Default::default();
    assert_eq!(c.socket_mem, Some(vec![1024, 1024]));
    assert_eq!(c.data_room_size, 2048);
    let c = c.with_jumbo_frames(9000);
    assert!(c.use_jumbo_frames);
    assert_eq!(c.max_rx_pkt_len, 9018);
    assert_eq!(c.data_room_size, 9146);
    let c = c.with_numa_allocation(3, 512);
    assert_eq!(c.socket_mem, Some(vec![512, 512, 512]));
    assert!(c.use_numa_on_socket);
    let c = c.without_numa();
    assert!(!c.use_numa_on_socket);
    let c = c.with_tso(Some(1000));
    assert!(c.use_tso);
    assert_eq!(c.max_tso_segment_size, 1000);
    let c = c.with_tso(None);
    assert_eq!(c.max_tso_segment_size, 1000);
    assert_eq!(queue_socket_id(&c, 1), -1);
    assert_eq!(queue_socket_id(&default_dpdk_config(), 1), 1);
}

#[test]
fn port_setup_plan_and_errors() {
    let mut c = default_dpdk_config();
    c.num_rx_queues = 2;
    c.num_tx_queues = 1;
    assert_eq!(
        port_setup_steps(&c),
        vec![
            PortStep::Configure,
            PortStep::RxQueueSetup(0),
            PortStep::RxQueueSetup(1),
            PortStep::TxQueueSetup(0),
            PortStep::Start,
            PortStep::Promiscuous
        ]
    );
    c.promiscuous = false;
    assert_eq!(port_setup_steps(&c).last(), Some(&PortStep::Start));
    assert_eq!(check_port_placement(3, 0, 0, 0, &c), Err(PortError::PortInvalid(3)));
    assert_eq!(
        check_port_placement(3, 1, 1, 0, &c),
        Err(PortError::WrongNode { port_id: 3, port_socket_id: 1, node_id: 0 })
    );
    assert_eq!(check_port_placement(3, 1, -5, 0, &c), Ok(-1));
    assert_eq!(check_port_placement(3, 1, 0, 0, &c), Ok(0));
    assert_eq!(check_port_placement(3, 1, 1, 0, &c.clone().without_numa()), Ok(1));
    assert_eq!(step_result(PortStep::Start, -22), Err(PortError::PortConfigFailed(PortStep::Start, -22)));
    assert_eq!(step_result(PortStep::Start, 0), Ok(()));
    assert_eq!(mbuf_pool_for(Some(1)), ("mbuf_pool_node1".to_string(), 1));
    assert_eq!(mbuf_pool_for(None), ("mbuf_pool_default".to_string(), -1));
}

#[test]
fn pool_acquire_and_release() {
    let mut pool = PacketDataPool::new(3, Some(0));
    assert_eq!(pool.available(), 3);
    assert_eq!(pool.capacity(), 3);
    assert_eq!(pool.get_numa_node(), Some(0));
    let a = pool.acquire();
    let b = pool.acquire();
    let c = pool.acquire();
    assert_eq!(pool.available(), 0);
    // empty pool: a new blank descriptor
    let d = pool.acquire();
    assert_eq!(d, PacketData::new());
    assert_eq!(pool.available(), 0);
    pool.release(a);
    pool.release(b);
    pool.release(c);
    assert_eq!(pool.available(), 3);
    // full pool drops the extra one
    pool.release(d);
    assert_eq!(pool.available(), 3);
}

#[test]
fn pool_conservation_sequence() {
    let cap = 4;
    let mut pool = PacketDataPool::new(cap, None);
    let mut held = Vec::new();
    for round in 0..3 {
        for _ in 0..(round + 2) {
            held.push(pool.acquire());
            assert!(pool.available() + held.len() >= cap);
        }
        while let Some(p) = held.pop() {
            pool.release(p);
            assert!(pool.available() + held.len() >= cap);
        }
        assert_eq!(pool.available(), cap);
    }
}

#[test]
fn release_clears_descriptor() {
    let mut pool = PacketDataPool::new(1, None);
    let mut p = pool.acquire();
    p.data_ptr = 0x1000;
    p.data_len = 64;
    p.source_ip_ptr = 0x1010;
    p.source_ip_len = 4;
    p.dest_ip_ptr = 0x1014;
    p.dest_ip_len = 16;
    p.mbuf_ptr = 0x2000;
    p.source_port = 5;
    pool.release(p);
    let q = pool.acquire();
    assert_eq!(q.data_ptr, 0);
    assert_eq!(q.data_len, 0);
    assert_eq!(q.source_ip_ptr, 0);
    assert_eq!(q.source_ip_len, 0);
    assert_eq!(q.dest_ip_ptr, 0);
    assert_eq!(q.dest_ip_len, 0);
    assert_eq!(q.mbuf_ptr, 0);
    let mut r = p;
    r._padding = 7;
    r.reset();
    assert_eq!(r._padding, 7);
    r._padding = 0;
    assert_eq!(r, PacketData::new());
    assert_eq!(p.get_data(), (0x1000, 64));
    assert_eq!(p.get_source_ip(), (0x1010, 4));
    assert_eq!(p.get_dest_ip(), (0x1014, 16));
}

fn extracted(src_port: u16, dst_port: u16, data_ptr: usize, data_len: u32) -> Extraction {
    Extraction {
        ret: 0,
        src_ip_ptr: data_ptr - 20,
        src_ip_len: 4,
        dst_ip_ptr: data_ptr - 16,
        dst_ip_len: 4,
        src_port,
        dst_port,
        data_ptr,
        data_len,
    }
}

#[test]
fn worker_cycle_delivers_in_order_and_frees_each_buffer_once() {
    let mut pool = PacketDataPool::new(32, Some(0));
    let mut batch = PacketBatch::new(32);
    let mbufs = vec![0xa000, 0xb000, 0xc000];
    let mut failed = extracted(0, 0, 0xc100, 1);
    failed.ret = -1;
    let ex = vec![extracted(1111, 2222, 0xa100, 2), extracted(3333, 2222, 0xb100, 1), failed];
    let mut freed = batch.fill_from_rx_burst(&mbufs, &ex, 0, &mut pool);
    assert_eq!(freed, vec![0xc000]);
    assert_eq!(batch.size(), 2);
    assert_eq!(pool.available(), 30);
    let seen = RefCell::new(Vec::new());
    batch.process_all(|q: u16, p: &PacketData| seen.borrow_mut().push((q, p.data_ptr, p.data_len, p.source_port)));
    assert_eq!(seen.into_inner(), vec![(0, 0xa100, 2, 1111), (0, 0xb100, 1, 3333)]);
    assert_eq!(batch.get(0).map(|p| p.mbuf_ptr), Some(0xa000));
    assert!(batch.get(2).is_none());
    freed.extend(batch.release(&mut pool));
    freed.sort();
    assert_eq!(freed, vec![0xa000, 0xb000, 0xc000]);
    assert!(batch.is_empty());
    assert_eq!(pool.available(), 32);
}

#[test]
fn empty_payload_counts_as_failure() {
    let mut pool = PacketDataPool::new(4, None);
    let mut batch = PacketBatch::new(4);
    let ex = vec![extracted(1, 2, 0x100, 0)];
    let freed = batch.fill_from_rx_burst(&vec![0x9000], &ex, 3, &mut pool);
    assert_eq!(freed, vec![0x9000]);
    assert!(batch.is_empty());
    assert_eq!(pool.available(), 4);
}

#[test]
fn prefetch_window() {
    assert_eq!(initial_prefetch_count(2), 2);
    assert_eq!(initial_prefetch_count(32), 4);
    assert_eq!(prefetch_index(0, 32), Some(4));
    assert_eq!(prefetch_index(27, 32), Some(31));
    assert_eq!(prefetch_index(28, 32), None);
}

#[test]
fn mbuf_handles() {
    let p = SendableMbufPtr::new(0x10);
    assert!(!p.is_null());
    assert_eq!(p.as_ptr(), 0x10);
    assert!(SendableMbufPtr::new(0).is_null());
    assert!(SendableMbufPtr::default().is_null());
    let mut b = SendableMbufBuffer::new(4);
    assert_eq!(b.capacity(), 4);
    assert_eq!(b.get(2), 0);
    b.set(2, 0x20);
    assert_eq!(b.get(2), 0x20);
    b.as_mut_ptr()[1] = 0x30;
    assert_eq!(b.get(1), 0x30);
}

#[test]
fn hugepage_recommendation() {
    let (pages_2mb, pages_1gb, args) = recommend_hugepage_config(2, 32768);
    assert_eq!((pages_2mb, pages_1gb), (0, 16));
    assert_eq!(args, vec!["--socket-mem=8192,8192".to_string(), "--huge-unlink".to_string()]);
    let (pages_2mb, pages_1gb, args) = recommend_hugepage_config(1, 8192);
    assert_eq!((pages_2mb, pages_1gb), (2048, 0));
    assert_eq!(args, vec!["--socket-mem=4096".to_string(), "--huge-unlink".to_string()]);
}

#[test]
fn per_packet_cycle_calls_handler_in_order() {
    let mut pool = PacketDataPool::new(8, Some(0));
    let mut failed = extracted(0, 0, 0xc100, 1);
    failed.ret = -1;
    let burst = vec![
        (0xa000usize, extracted(1111, 2222, 0xa100, 2)),
        (0xb000usize, extracted(3333, 2222, 0xb100, 1)),
        (0xc000usize, failed),
    ];
    let mut seen = Vec::new();
    let mut freed = Vec::new();
    for (mbuf, e) in &burst {
        if is_extraction_ok(e) {
            let mut d = pool.acquire();
            fill_descriptor(&mut d, e, 0, *mbuf);
            seen.push((d.get_data(), d.source_port, d.dest_port, d.queue_id));
            freed.push(d.mbuf_ptr);
            pool.release(d);
        } else {
            freed.push(*mbuf);
        }
    }
    assert_eq!(seen, vec![((0xa100, 2), 1111, 2222, 0), ((0xb100, 1), 3333, 2222, 0)]);
    assert_eq!(freed, vec![0xa000, 0xb000, 0xc000]);
    assert_eq!(pool.available(), 8);
}
