//! One burst of received packets on one queue: which packets reach the
//! handler, in which order, and which buffers are freed when.
use vstd::prelude::*;

use crate::packet::PacketData;
use crate::pool::PacketDataPool;

verus! {

/// How many packets ahead of the one being processed are prefetched.
pub const PREFETCH_AHEAD: usize = 4;

/// What the extraction helper reported for one packet buffer.
#[derive(Clone, Copy, Debug, PartialEq, Eq)]
pub struct Extraction {
    pub ret: i32,
    pub src_ip_ptr: usize,
    pub src_ip_len: u32,
    pub dst_ip_ptr: usize,
    pub dst_ip_len: u32,
    pub src_port: u16,
    pub dst_port: u16,
    pub data_ptr: usize,
    pub data_len: u32,
}

/// Extraction succeeded and found a non-empty payload.
pub open spec fn extraction_ok(e: Extraction) -> bool {
    e.ret == 0 && e.data_ptr != 0 && e.data_len > 0
}

/// The descriptor handed to the handler for a packet.
pub open spec fn descriptor_for(e: Extraction, queue_id: u16, mbuf: usize) -> PacketData {
    PacketData {
        data_ptr: e.data_ptr,
        data_len: e.data_len as usize,
        source_port: e.src_port,
        dest_port: e.dst_port,
        queue_id,
        _padding: 0,
        source_ip_ptr: e.src_ip_ptr,
        source_ip_len: e.src_ip_len as usize,
        dest_ip_ptr: e.dst_ip_ptr,
        dest_ip_len: e.dst_ip_len as usize,
        mbuf_ptr: mbuf,
    }
}

/// The descriptors of the packets whose extraction succeeded, in the order received.
pub open spec fn delivered(mbufs: Seq<usize>, ex: Seq<Extraction>, queue_id: u16) -> Seq<PacketData>
    decreases ex.len(),
{
    if ex.len() == 0 {
        Seq::empty()
    } else {
        let r = delivered(mbufs, ex.drop_last(), queue_id);
        let i = ex.len() - 1;
        if extraction_ok(ex[i]) {
            r.push(descriptor_for(ex[i], queue_id, mbufs[i]))
        } else {
            r
        }
    }
}

/// The buffers of the packets whose extraction failed, in the order received.
pub open spec fn dropped(mbufs: Seq<usize>, ex: Seq<Extraction>) -> Seq<usize>
    decreases ex.len(),
{
    if ex.len() == 0 {
        Seq::empty()
    } else {
        let r = dropped(mbufs, ex.drop_last());
        let i = ex.len() - 1;
        if extraction_ok(ex[i]) {
            r
        } else {
            r.push(mbufs[i])
        }
    }
}

/// Number of descriptors left in a pool holding `n` after `k` acquires.
pub open spec fn after_acquires(n: nat, k: nat) -> nat {
    if n >= k {
        (n - k) as nat
    } else {
        0
    }
}

/// Positions, in the burst, of the packets whose extraction succeeded.
pub open spec fn ok_positions(ex: Seq<Extraction>) -> Seq<int>
    decreases ex.len(),
{
    if ex.len() == 0 {
        Seq::empty()
    } else {
        let r = ok_positions(ex.drop_last());
        if extraction_ok(ex.last()) {
            r.push(ex.len() - 1)
        } else {
            r
        }
    }
}

/// FIFO within a burst: the k-th descriptor delivered is that of the k-th
/// successfully extracted packet, and these come in the order received;
/// no such packet is left out.
pub proof fn lemma_burst_fifo(mbufs: Seq<usize>, ex: Seq<Extraction>, queue_id: u16)
    requires
        mbufs.len() >= ex.len(),
    ensures
        delivered(mbufs, ex, queue_id).len() == ok_positions(ex).len(),
        forall|k: int|
            0 <= k < ok_positions(ex).len() ==> 0 <= #[trigger] ok_positions(ex)[k] < ex.len()
                && extraction_ok(ex[ok_positions(ex)[k]]) && delivered(mbufs, ex, queue_id)[k]
                == descriptor_for(ex[ok_positions(ex)[k]], queue_id, mbufs[ok_positions(ex)[k]]),
        forall|a: int, b: int|
            0 <= a < b < ok_positions(ex).len() ==> ok_positions(ex)[a] < ok_positions(ex)[b],
        forall|i: int| 0 <= i < ex.len() && extraction_ok(#[trigger] ex[i]) ==> ok_positions(ex).contains(i),
    decreases ex.len(),
{
    if ex.len() > 0 {
        let pre = ex.drop_last();
        lemma_burst_fifo(mbufs, pre, queue_id);
        let r = ok_positions(pre);
        assert forall|k: int| 0 <= k < r.len() implies 0 <= #[trigger] r[k] < pre.len() by {}
        assert forall|i: int| 0 <= i < ex.len() && extraction_ok(#[trigger] ex[i]) implies ok_positions(ex).contains(i) by {
            if i < ex.len() - 1 {
                assert(pre[i] == ex[i]);
                let k = choose|k: int| 0 <= k < r.len() && r[k] == i;
                assert(ok_positions(ex)[k] == i);
            } else {
                assert(ok_positions(ex)[r.len() as int] == i);
            }
        }
    }
}

/// Whether the helper's report counts as a successful extraction.
pub fn is_extraction_ok(e: &Extraction) -> (r: bool)
    ensures
        r == extraction_ok(*e),
{
    e.ret == 0 && e.data_ptr != 0 && e.data_len > 0
}

/// Fills `desc` with what was extracted from buffer `mbuf` on `queue_id`.
pub fn fill_descriptor(desc: &mut PacketData, e: &Extraction, queue_id: u16, mbuf: usize)
    ensures
        *final(desc) == descriptor_for(*e, queue_id, mbuf),
{
    desc.data_ptr = e.data_ptr;
    desc.data_len = e.data_len as usize;
    desc.source_port = e.src_port;
    desc.dest_port = e.dst_port;
    desc.queue_id = queue_id;
    desc._padding = 0;
    desc.source_ip_ptr = e.src_ip_ptr;
    desc.source_ip_len = e.src_ip_len as usize;
    desc.dest_ip_ptr = e.dst_ip_ptr;
    desc.dest_ip_len = e.dst_ip_len as usize;
    desc.mbuf_ptr = mbuf;
}

/// How many packets of a burst of `n` are prefetched before processing starts.
pub fn initial_prefetch_count(n: usize) -> (r: usize)
    ensures
        r == if n < PREFETCH_AHEAD { n } else { PREFETCH_AHEAD },
{
    if n < PREFETCH_AHEAD {
        n
    } else {
        PREFETCH_AHEAD
    }
}

/// The packet to prefetch while processing packet `i` of a burst of `n`.
pub fn prefetch_index(i: usize, n: usize) -> (r: Option<usize>)
    requires
        i < n,
    ensures
        r == if i + PREFETCH_AHEAD < n { Some((i + PREFETCH_AHEAD) as usize) } else { None::<usize> },
{
    if n - i > PREFETCH_AHEAD {
        Some(i + PREFETCH_AHEAD)
    } else {
        None
    }
}

/// The packets of one burst that reach the handler, as descriptors taken
/// from a pool.
pub struct PacketBatch {
    capacity: usize,
    packets: Vec<PacketData>,
}

impl PacketBatch {
    /// The descriptors to hand to the handler, in order.
    pub closed spec fn view_packets(&self) -> Seq<PacketData> {
        self.packets@
    }

    pub closed spec fn capacity_spec(&self) -> nat {
        self.capacity as nat
    }

    /// An empty batch for bursts of up to `capacity` packets.
    pub fn new(capacity: usize) -> (r: PacketBatch)
        ensures
            r.view_packets() == Seq::<PacketData>::empty(),
            r.capacity_spec() == capacity,
    {
        PacketBatch { capacity, packets: Vec::new() }
    }

    /// Takes in a burst: `mbufs[i]` is the i-th buffer received and `ex[i]`
    /// what extraction found in it. Each packet whose extraction succeeded
    /// gets a descriptor from `pool` and joins the batch, in the order
    /// received; the buffers of the others are returned, to be freed now.
    pub fn fill_from_rx_burst(
        &mut self,
        mbufs: &Vec<usize>,
        ex: &Vec<Extraction>,
        queue_id: u16,
        pool: &mut PacketDataPool,
    ) -> (freed: Vec<usize>)
        requires
            mbufs@.len() == ex@.len(),
            ex@.len() <= old(self).capacity_spec(),
            old(self).view_packets().len() == 0,
            old(pool).wf(),
        ensures
            final(self).view_packets() == delivered(mbufs@, ex@, queue_id),
            final(self).capacity_spec() == old(self).capacity_spec(),
            freed@ == dropped(mbufs@, ex@),
            final(pool).wf(),
            final(pool).capacity_spec() == old(pool).capacity_spec(),
            final(pool).contents().len() == after_acquires(
                old(pool).contents().len(),
                delivered(mbufs@, ex@, queue_id).len(),
            ),
    {
        let mut freed: Vec<usize> = Vec::new();
        let ghost pool0 = pool.contents().len();
        for i in 0..ex.len()
            invariant
                mbufs@.len() == ex@.len(),
                self.capacity == old(self).capacity,
                self.packets@ == delivered(mbufs@, ex@.subrange(0, i as int), queue_id),
                freed@ == dropped(mbufs@, ex@.subrange(0, i as int)),
                pool.wf(),
                pool.capacity_spec() == old(pool).capacity_spec(),
                pool.contents().len() == after_acquires(pool0, self.packets@.len() as nat),
        {
            let ghost sub = ex@.subrange(0, i + 1);
            assert(sub.drop_last() =~= ex@.subrange(0, i as int));
            assert(sub[i as int] == ex@[i as int]);
            let e = &ex[i];
            if is_extraction_ok(e) {
                let mut desc = pool.acquire();
                fill_descriptor(&mut desc, e, queue_id, mbufs[i]);
                self.packets.push(desc);
            } else {
                freed.push(mbufs[i]);
            }
        }
        assert(ex@.subrange(0, ex@.len() as int) =~= ex@);
        freed
    }

    /// Calls `handler(queue_id, descriptor)` on each descriptor of the batch,
    /// in order.
    pub fn process_all<F: Fn(u16, &PacketData)>(&self, handler: F)
        requires
            forall|q: u16, p: &PacketData| #[trigger] handler.requires((q, p)),
    {
        for i in 0..self.packets.len()
            invariant
                forall|q: u16, p: &PacketData| #[trigger] handler.requires((q, p)),
        {
            let p = &self.packets[i];
            handler(p.queue_id, p);
        }
    }

    /// Empties the batch: each descriptor goes back to `pool`, cleared, and
    /// the buffers of the delivered packets are returned, to be freed now.
    pub fn release(&mut self, pool: &mut PacketDataPool) -> (freed: Vec<usize>)
        requires
            old(pool).wf(),
        ensures
            final(self).view_packets() == Seq::<PacketData>::empty(),
            final(self).capacity_spec() == old(self).capacity_spec(),
            freed@ == old(self).view_packets().map_values(|p: PacketData| p.mbuf_ptr),
            final(pool).wf(),
            final(pool).capacity_spec() == old(pool).capacity_spec(),
            final(pool).contents().len() == released_len(
                old(pool).capacity_spec(),
                old(pool).contents().len(),
                old(self).view_packets().len(),
            ),
    {
        let mut freed: Vec<usize> = Vec::new();
        let ghost pool0 = pool.contents().len();
        let ghost ps = self.packets@;
        for i in 0..self.packets.len()
            invariant
                self.packets@ == ps,
                freed@ == ps.subrange(0, i as int).map_values(|p: PacketData| p.mbuf_ptr),
                pool.wf(),
                pool.capacity_spec() == old(pool).capacity_spec(),
                pool.contents().len() == released_len(pool.capacity_spec(), pool0, i as nat),
        {
            let p = self.packets[i];
            freed.push(p.mbuf_ptr);
            pool.release(p);
            assert(ps.subrange(0, i + 1).map_values(|p: PacketData| p.mbuf_ptr) =~= freed@);
        }
        assert(ps.subrange(0, ps.len() as int) =~= ps);
        self.packets = Vec::new();
        freed
    }

    /// Number of descriptors in the batch.
    pub fn size(&self) -> (r: usize)
        ensures
            r == self.view_packets().len(),
    {
        self.packets.len()
    }

    pub fn is_empty(&self) -> (r: bool)
        ensures
            r == (self.view_packets().len() == 0),
    {
        self.packets.len() == 0
    }

    /// The i-th descriptor, if there is one.
    pub fn get(&self, i: usize) -> (r: Option<&PacketData>)
        ensures
            i < self.view_packets().len() ==> r == Some(&self.view_packets()[i as int]),
            i >= self.view_packets().len() ==> r is None,
    {
        if i < self.packets.len() {
            Some(&self.packets[i])
        } else {
            None
        }
    }
}

/// Number of descriptors in a pool of capacity `cap` holding `n` after `k` releases.
pub open spec fn released_len(cap: nat, n: nat, k: nat) -> nat {
    if n + k <= cap {
        n + k
    } else {
        cap
    }
}

} // verus!
