//! The descriptor pool: a bounded FIFO of preallocated descriptors, held in
//! crossbeam's `ArrayQueue`.
use crossbeam::queue::ArrayQueue;
use vstd::prelude::*;

use crate::packet::{blank_packet, cleared, is_cleared, PacketData};

verus! {

#[verifier::external_type_specification]
#[verifier::external_body]
#[verifier::reject_recursive_types(T)]
pub struct ExArrayQueue<T>(ArrayQueue<T>);

/// The descriptors in a queue, from head to tail.
pub uninterp spec fn queued(q: ArrayQueue<PacketData>) -> Seq<PacketData>;

/// The capacity a queue was made with.
pub uninterp spec fn queue_capacity(q: ArrayQueue<PacketData>) -> nat;

/// Largest pool this library makes.
pub const MAX_POOL_CAPACITY: usize = 0x4000_0000;

/// Relies on `ArrayQueue::new`: an empty queue of capacity `cap` (it
/// panics on 0 or on a capacity too large for its index arithmetic).
#[verifier::external_body]
fn queue_new(cap: usize) -> (q: ArrayQueue<PacketData>)
    requires
        0 < cap <= MAX_POOL_CAPACITY,
    ensures
        queued(q) == Seq::<PacketData>::empty(),
        queue_capacity(q) == cap,
{
    ArrayQueue::new(cap)
}

/// Relies on `ArrayQueue::push_mut`: appends at the tail unless the queue is
/// full, and hands the item back when it is.
#[verifier::external_body]
fn queue_push(q: &mut ArrayQueue<PacketData>, v: PacketData) -> (r: Result<(), PacketData>)
    requires
        queued(*old(q)).len() <= queue_capacity(*old(q)),
    ensures
        queue_capacity(*final(q)) == queue_capacity(*old(q)),
        queued(*old(q)).len() < queue_capacity(*old(q)) ==> r is Ok && queued(*final(q)) == queued(
            *old(q),
        ).push(v),
        queued(*old(q)).len() == queue_capacity(*old(q)) ==> r is Err && r->Err_0 == v
            && queued(*final(q)) == queued(*old(q)),
{
    q.push_mut(v)
}

/// Relies on `ArrayQueue::pop_mut`: removes and returns the head item, or
/// `None` when the queue is empty.
#[verifier::external_body]
fn queue_pop(q: &mut ArrayQueue<PacketData>) -> (r: Option<PacketData>)
    ensures
        queue_capacity(*final(q)) == queue_capacity(*old(q)),
        queued(*old(q)).len() == 0 ==> r is None && queued(*final(q)) == queued(*old(q)),
        queued(*old(q)).len() > 0 ==> r == Some(queued(*old(q))[0]) && queued(*final(q)) == queued(
            *old(q),
        ).drop_first(),
{
    q.pop_mut()
}

/// Relies on `ArrayQueue::len`: the number of items in the queue.
#[verifier::external_body]
fn queue_len(q: &ArrayQueue<PacketData>) -> (r: usize)
    ensures
        r == queued(*q).len(),
{
    q.len()
}

/// Number of descriptors in a pool of capacity `cap` holding `n`, after one
/// acquire (`true`) or release (`false`).
pub open spec fn pool_step(cap: nat, n: nat, acquire: bool) -> nat {
    if acquire {
        if n > 0 {
            (n - 1) as nat
        } else {
            0
        }
    } else {
        if n < cap {
            n + 1
        } else {
            cap
        }
    }
}

/// Number of descriptors in a full pool of capacity `cap` after the calls `ops`.
pub open spec fn pool_len_after(cap: nat, ops: Seq<bool>) -> nat
    decreases ops.len(),
{
    if ops.len() == 0 {
        cap
    } else {
        pool_step(cap, pool_len_after(cap, ops.drop_last()), ops.last())
    }
}

/// Descriptors held by callers after `ops`: acquires minus releases.
pub open spec fn held_after(ops: Seq<bool>) -> int
    decreases ops.len(),
{
    if ops.len() == 0 {
        0
    } else {
        held_after(ops.drop_last()) + if ops.last() {
            1int
        } else {
            -1int
        }
    }
}

/// Callers only release descriptors they hold.
pub open spec fn releases_held(ops: Seq<bool>) -> bool {
    forall|k: int| 0 <= k <= ops.len() ==> #[trigger] held_after(ops.subrange(0, k)) >= 0
}

/// Conservation: whatever the order in which callers (on any number of
/// threads) acquire and release, as long as they only release what they
/// hold, the pool holds at least its capacity less what is held, never more
/// than its capacity, and exactly its capacity once everything is back.
pub proof fn lemma_pool_conservation(cap: nat, ops: Seq<bool>)
    requires
        releases_held(ops),
    ensures
        pool_len_after(cap, ops) >= cap - held_after(ops),
        pool_len_after(cap, ops) <= cap,
        held_after(ops) == 0 ==> pool_len_after(cap, ops) == cap,
    decreases ops.len(),
{
    if ops.len() > 0 {
        let pre = ops.drop_last();
        assert forall|k: int| 0 <= k <= pre.len() implies #[trigger] held_after(pre.subrange(0, k))
            >= 0 by {
            assert(pre.subrange(0, k) =~= ops.subrange(0, k));
        }
        lemma_pool_conservation(cap, pre);
        assert(ops.subrange(0, ops.len() as int) =~= ops);
        assert(held_after(ops.subrange(0, ops.len() as int)) >= 0);
    }
}

/// A bounded pool of descriptors recycled without allocation on the hot path.
pub struct PacketDataPool {
    queue: ArrayQueue<PacketData>,
    numa_node: Option<usize>,
    history: Ghost<Seq<bool>>,
}

impl PacketDataPool {
    /// The descriptors in the pool, from the next to be handed out.
    pub closed spec fn contents(&self) -> Seq<PacketData> {
        queued(self.queue)
    }

    pub closed spec fn capacity_spec(&self) -> nat {
        queue_capacity(self.queue)
    }

    pub closed spec fn node_spec(&self) -> Option<usize> {
        self.numa_node
    }

    /// The calls made on the pool so far: `true` for an acquire, `false`
    /// for a release.
    pub closed spec fn history(&self) -> Seq<bool> {
        self.history@
    }

    /// The pool holds what its capacity and its calls so far leave in it.
    pub open spec fn wf(&self) -> bool {
        &&& self.contents().len() <= self.capacity_spec()
        &&& self.contents().len() == pool_len_after(self.capacity_spec(), self.history())
    }

    /// A full pool of `capacity` blank descriptors, meant for node `numa_node`.
    pub fn new(capacity: usize, numa_node: Option<usize>) -> (r: PacketDataPool)
        requires
            0 < capacity <= MAX_POOL_CAPACITY,
        ensures
            r.wf(),
            r.capacity_spec() == capacity,
            r.contents() == Seq::new(capacity as nat, |i: int| blank_packet()),
            r.node_spec() == numa_node,
            r.history() == Seq::<bool>::empty(),
    {
        let mut queue = queue_new(capacity);
        for i in 0..capacity
            invariant
                queue_capacity(queue) == capacity,
                queued(queue) == Seq::new(i as nat, |k: int| blank_packet()),
        {
            let r = queue_push(&mut queue, PacketData::new());
            assert(queued(queue) =~= Seq::new((i + 1) as nat, |k: int| blank_packet()));
        }
        PacketDataPool { queue, numa_node, history: Ghost(Seq::empty()) }
    }

    /// Takes the next descriptor; when the pool is empty, a new blank one.
    pub fn acquire(&mut self) -> (r: PacketData)
        requires
            old(self).wf(),
        ensures
            final(self).wf(),
            final(self).capacity_spec() == old(self).capacity_spec(),
            final(self).node_spec() == old(self).node_spec(),
            final(self).contents().len() == pool_step(
                old(self).capacity_spec(),
                old(self).contents().len(),
                true,
            ),
            old(self).contents().len() > 0 ==> r == old(self).contents()[0] && final(self).contents()
                == old(self).contents().drop_first(),
            old(self).contents().len() == 0 ==> r == blank_packet() && final(self).contents()
                == old(self).contents(),
            final(self).history() == old(self).history().push(true),
    {
        let r = match queue_pop(&mut self.queue) {
            Some(p) => p,
            None => PacketData::new(),
        };
        proof {
            let h = self.history@;
            assert(h.push(true).drop_last() =~= h);
            self.history = Ghost(h.push(true));
        }
        r
    }

    /// Clears the descriptor and puts it back at the tail; a full pool drops it.
    pub fn release(&mut self, packet: PacketData)
        requires
            old(self).wf(),
        ensures
            final(self).wf(),
            final(self).capacity_spec() == old(self).capacity_spec(),
            final(self).node_spec() == old(self).node_spec(),
            final(self).contents().len() == pool_step(
                old(self).capacity_spec(),
                old(self).contents().len(),
                false,
            ),
            old(self).contents().len() < old(self).capacity_spec() ==> final(self).contents()
                == old(self).contents().push(cleared(packet)),
            old(self).contents().len() == old(self).capacity_spec() ==> final(self).contents()
                == old(self).contents(),
            forall|i: int|
                0 <= i < final(self).contents().len() && old(self).contents().len() <= i ==> is_cleared(
                    #[trigger] final(self).contents()[i],
                ),
            final(self).history() == old(self).history().push(false),
    {
        let mut p = packet;
        p.reset();
        let _ = queue_push(&mut self.queue, p);
        proof {
            let h = self.history@;
            assert(h.push(false).drop_last() =~= h);
            self.history = Ghost(h.push(false));
        }
    }

    /// Number of descriptors in the pool now.
    pub fn available(&self) -> (r: usize)
        ensures
            r == self.contents().len(),
    {
        queue_len(&self.queue)
    }

    pub fn capacity(&self) -> (r: usize)
        requires
            self.capacity_spec() <= usize::MAX,
        ensures
            r == self.capacity_spec(),
    {
        capacity_of(&self.queue)
    }

    /// The node the pool was made for.
    pub fn get_numa_node(&self) -> (r: Option<usize>)
        ensures
            r == self.node_spec(),
    {
        self.numa_node
    }
}

/// Conservation for a pool: after any calls in which callers only release
/// descriptors they hold, the pool holds at least its capacity less what is
/// held, at most its capacity, and exactly its capacity once all is back.
pub proof fn lemma_pool_holds(p: &PacketDataPool)
    requires
        p.wf(),
        releases_held(p.history()),
    ensures
        p.contents().len() >= p.capacity_spec() - held_after(p.history()),
        p.contents().len() <= p.capacity_spec(),
        held_after(p.history()) == 0 ==> p.contents().len() == p.capacity_spec(),
{
    lemma_pool_conservation(p.capacity_spec(), p.history());
}

/// Relies on `ArrayQueue::capacity`: the capacity the queue was made with.
#[verifier::external_body]
fn capacity_of(q: &ArrayQueue<PacketData>) -> (r: usize)
    ensures
        r == queue_capacity(*q),
{
    q.capacity()
}

} // verus!
