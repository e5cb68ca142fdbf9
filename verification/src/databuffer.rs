use vstd::prelude::*;
use vstd::slice::slice_to_vec;

verus! {

/// A growable byte queue: bytes are appended at the back and taken from the front.
pub struct DataBuffer {
    start: u64,
    end: u64,
    index: u64,
    capacity: usize,
    buffer: Vec<u8>,
}

/// The abstract state of a `DataBuffer`.
pub struct BufferState {
    /// The queued bytes, oldest first.
    pub queue: Seq<u8>,
    /// The start counter.
    pub start: u64,
    /// The end counter.
    pub end: u64,
    /// The index counter.
    pub index: u64,
    /// The capacity counter.
    pub capacity: usize,
}

impl View for DataBuffer {
    type V = BufferState;

    closed spec fn view(&self) -> BufferState {
        BufferState {
            queue: self.buffer@,
            start: self.start,
            end: self.end,
            index: self.index,
            capacity: self.capacity,
        }
    }
}

impl DataBuffer {
    pub fn new() -> (r: Self)
        ensures
            r@ == (BufferState { queue: Seq::empty(), start: 0, end: 0, index: 0, capacity: 0 }),
    {
        Self { start: 0, end: 0, index: 0, capacity: 0, buffer: Vec::new() }
    }

    /// Appends `data`.
    pub fn push(&mut self, data: &mut [u8])
        ensures
            final(self)@ == (BufferState { queue: old(self)@.queue + old(data)@, ..old(self)@ }),
            final(data)@ == old(data)@,
    {
        let mut tail = slice_to_vec(data);
        self.buffer.append(&mut tail);
    }

    /// Takes the `size` oldest bytes.
    pub fn pop(&mut self, size: u64) -> (r: Vec<u8>)
        requires
            size <= old(self)@.queue.len(),
        ensures
            r@ == old(self)@.queue.subrange(0, size as int),
            final(self)@ == (BufferState {
                queue: old(self)@.queue.subrange(size as int, old(self)@.queue.len() as int),
                ..old(self)@
            }),
            old(self)@.queue == r@ + final(self)@.queue,
    {
        // The length is a usize, so `size` fits one.
        let _len = self.buffer.len();
        let mut taken = self.buffer.split_off(size as usize);
        std::mem::swap(&mut taken, &mut self.buffer);
        assert(old(self)@.queue =~= taken@ + self.buffer@);
        taken
    }

    /// Whether no byte is queued.
    pub fn is_empty(&self) -> (r: bool)
        ensures
            r == (self@.queue.len() == 0),
    {
        self.buffer.is_empty()
    }

    /// The number of queued bytes.
    pub fn len(&self) -> (r: usize)
        ensures
            r == self@.queue.len(),
    {
        self.buffer.len()
    }
}

} // verus!
