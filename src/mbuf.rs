//! Packet buffer handles, as the driver hands them out: addresses held as
//! plain numbers, 0 standing for none.
use vstd::prelude::*;

verus! {

/// A handle on one packet buffer.
#[derive(Clone, Copy, Debug, PartialEq, Eq)]
pub struct SendableMbufPtr {
    ptr: usize,
}

impl Default for SendableMbufPtr {
    /// The null handle.
    fn default() -> (r: Self)
        ensures
            r.addr() == 0,
    {
        SendableMbufPtr { ptr: 0 }
    }
}

impl SendableMbufPtr {
    pub closed spec fn addr(&self) -> usize {
        self.ptr
    }

    pub fn new(ptr: usize) -> (r: SendableMbufPtr)
        ensures
            r.addr() == ptr,
    {
        SendableMbufPtr { ptr }
    }

    pub fn as_ptr(&self) -> (r: usize)
        ensures
            r == self.addr(),
    {
        self.ptr
    }

    pub fn is_null(&self) -> (r: bool)
        ensures
            r == (self.addr() == 0),
    {
        self.ptr == 0
    }
}

/// A fixed number of buffer slots, filled by a receive call.
pub struct SendableMbufBuffer {
    slots: Vec<usize>,
}

impl SendableMbufBuffer {
    pub closed spec fn view_slots(&self) -> Seq<usize> {
        self.slots@
    }

    /// `capacity` empty slots.
    pub fn new(capacity: usize) -> (r: SendableMbufBuffer)
        ensures
            r.view_slots() == Seq::new(capacity as nat, |i: int| 0usize),
    {
        let mut slots: Vec<usize> = Vec::new();
        for i in 0..capacity
            invariant
                slots@ == Seq::new(i as nat, |k: int| 0usize),
        {
            slots.push(0);
            assert(slots@ =~= Seq::new((i + 1) as nat, |k: int| 0usize));
        }
        SendableMbufBuffer { slots }
    }

    /// The slots, for a receive call to fill.
    pub fn as_mut_ptr(&mut self) -> (r: &mut Vec<usize>)
        ensures
            r@ == old(self).view_slots(),
            final(self).view_slots() == final(r)@,
    {
        &mut self.slots
    }

    pub fn get(&self, index: usize) -> (r: usize)
        requires
            index < self.view_slots().len(),
        ensures
            r == self.view_slots()[index as int],
    {
        self.slots[index]
    }

    pub fn set(&mut self, index: usize, mbuf: usize)
        requires
            index < old(self).view_slots().len(),
        ensures
            final(self).view_slots() == old(self).view_slots().update(index as int, mbuf),
    {
        self.slots.set(index, mbuf);
    }

    pub fn capacity(&self) -> (r: usize)
        ensures
            r == self.view_slots().len(),
    {
        self.slots.len()
    }
}

} // verus!
