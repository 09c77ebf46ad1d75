//! Packet metadata descriptors. Addresses into a packet buffer are held as
//! plain numbers, 0 standing for none.
use vstd::prelude::*;

verus! {

/// Metadata of one received packet: where its payload and addresses lie in
/// the packet buffer, its ports, its queue, and the buffer itself.
#[derive(Clone, Copy, Debug, PartialEq, Eq)]
pub struct PacketData {
    pub data_ptr: usize,
    pub data_len: usize,
    pub source_port: u16,
    pub dest_port: u16,
    pub queue_id: u16,
    pub _padding: u16,
    pub source_ip_ptr: usize,
    pub source_ip_len: usize,
    pub dest_ip_ptr: usize,
    pub dest_ip_len: usize,
    pub mbuf_ptr: usize,
}

/// The descriptor with every field zero.
pub open spec fn blank_packet() -> PacketData {
    PacketData {
        data_ptr: 0,
        data_len: 0,
        source_port: 0,
        dest_port: 0,
        queue_id: 0,
        _padding: 0,
        source_ip_ptr: 0,
        source_ip_len: 0,
        dest_ip_ptr: 0,
        dest_ip_len: 0,
        mbuf_ptr: 0,
    }
}

/// `p` as it returns to a pool: addresses, lengths, ports and queue
/// cleared, the padding left as it was.
pub open spec fn cleared(p: PacketData) -> PacketData {
    PacketData { _padding: p._padding, ..blank_packet() }
}

/// Every address of `p` is null and every length 0.
pub open spec fn is_cleared(p: PacketData) -> bool {
    &&& p.data_ptr == 0
    &&& p.data_len == 0
    &&& p.source_ip_ptr == 0
    &&& p.source_ip_len == 0
    &&& p.dest_ip_ptr == 0
    &&& p.dest_ip_len == 0
    &&& p.mbuf_ptr == 0
}

impl PacketData {
    pub fn new() -> (r: PacketData)
        ensures
            r == blank_packet(),
    {
        PacketData {
            data_ptr: 0,
            data_len: 0,
            source_port: 0,
            dest_port: 0,
            queue_id: 0,
            _padding: 0,
            source_ip_ptr: 0,
            source_ip_len: 0,
            dest_ip_ptr: 0,
            dest_ip_len: 0,
            mbuf_ptr: 0,
        }
    }

    /// Back to the blank descriptor, as when it returns to its pool.
    pub fn reset(&mut self)
        ensures
            *final(self) == cleared(*old(self)),
            final(self)._padding == old(self)._padding,
            is_cleared(*final(self)),
    {
        self.data_ptr = 0;
        self.data_len = 0;
        self.source_port = 0;
        self.dest_port = 0;
        self.queue_id = 0;
        self.source_ip_ptr = 0;
        self.source_ip_len = 0;
        self.dest_ip_ptr = 0;
        self.dest_ip_len = 0;
        self.mbuf_ptr = 0;
    }

    /// Where the source address lies: its address and length.
    pub fn get_source_ip(&self) -> (r: (usize, usize))
        ensures
            r == (self.source_ip_ptr, self.source_ip_len),
    {
        (self.source_ip_ptr, self.source_ip_len)
    }

    /// Where the destination address lies: its address and length.
    pub fn get_dest_ip(&self) -> (r: (usize, usize))
        ensures
            r == (self.dest_ip_ptr, self.dest_ip_len),
    {
        (self.dest_ip_ptr, self.dest_ip_len)
    }

    /// Where the payload lies: its address and length.
    pub fn get_data(&self) -> (r: (usize, usize))
        ensures
            r == (self.data_ptr, self.data_len),
    {
        (self.data_ptr, self.data_len)
    }
}

} // verus!
