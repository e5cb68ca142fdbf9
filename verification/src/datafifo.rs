use vstd::prelude::*;

use crate::MAX_BUFFER_SIZE;

verus! {

/// Where position `pos` of the byte stream lands in a ring of `cap` bytes.
pub open spec fn ring_slot(pos: int, cap: int) -> int {
    pos % cap
}

/// The `n` bytes of the ring `buf` that start at stream position `pos`:
/// from slot `pos % cap` to the end of the ring, then again from slot 0.
pub open spec fn ring_read(buf: Seq<u8>, pos: int, n: int) -> Seq<u8> {
    let s = ring_slot(pos, buf.len() as int);
    Seq::new(
        n as nat,
        |k: int|
            if s + k < buf.len() {
                buf[s + k]
            } else {
                buf[s + k - buf.len()]
            },
    )
}

/// The ring `buf` after `data` is copied in at stream position `pos`: the part that fits
/// before the end of the ring goes to slot `pos % cap` onwards, the rest goes to slot 0
/// onwards and, being written last, wins where the two overlap.
pub open spec fn ring_write(buf: Seq<u8>, pos: int, data: Seq<u8>) -> Seq<u8> {
    let cap = buf.len() as int;
    let s = ring_slot(pos, cap);
    Seq::new(
        buf.len(),
        |j: int|
            if j < s + data.len() - cap {
                data[j + cap - s]
            } else if s <= j < s + data.len() {
                data[j - s]
            } else {
                buf[j]
            },
    )
}

/// A copy of `n` bytes at `pos` stays within one wrap of the ring.
pub open spec fn ring_fits(cap: int, pos: int, n: int) -> bool {
    ring_slot(pos, cap) + n <= 2 * cap
}

/// The abstract state of a `DataFIFO`.
pub struct FifoState {
    /// The ring storage.
    pub buffer: Seq<u8>,
    /// The ring size the FIFO was made with.
    pub capacity: nat,
    /// Stream position up to which data has been handed out as slices.
    pub slicebase: nat,
    /// Stream position of the oldest byte not yet taken out.
    pub startpoint: nat,
    /// Stream position one past the newest byte put in.
    pub endpoint: nat,
    /// Whether the producer has closed the FIFO.
    pub closed: bool,
}

impl FifoState {
    /// The ring storage is in place: it has the capacity the FIFO was made with.
    pub open spec fn wf(self) -> bool {
        &&& self.capacity > 0
        &&& self.buffer.len() == self.capacity
    }

    /// The bytes between the start point and the end point, oldest first.
    pub open spec fn pending(self) -> Seq<u8> {
        ring_read(self.buffer, self.startpoint as int, self.endpoint - self.startpoint)
    }
}

/// How one call of a `DataFIFO` method may change its state: the readers change nothing;
/// `push` and `set` write the ring and may move the end point; `pop` and `drain` move the
/// start point; `reserve` and `assign` move the slice base and end point; `clear` drops the
/// ring; and only `close` touches the closed flag, which it sets.
pub open spec fn fifo_step(a: FifoState, b: FifoState) -> bool {
    ||| b == a
    ||| b == FifoState { buffer: b.buffer, endpoint: b.endpoint, ..a }
    ||| b == FifoState { startpoint: b.startpoint, ..a }
    ||| b == FifoState { slicebase: b.slicebase, endpoint: b.endpoint, ..a }
    ||| b == FifoState { closed: true, ..a }
}

/// A closed FIFO stays closed: along any run of `DataFIFO` calls, once the FIFO is closed
/// every later state is closed too.
pub proof fn lemma_closed_stays_closed(states: Seq<FifoState>)
    requires
        states.len() > 0,
        states[0].closed,
        forall|i: int| 0 <= i < states.len() - 1 ==> #[trigger] fifo_step(states[i], states[i + 1]),
    ensures
        forall|i: int| 0 <= i < states.len() ==> #[trigger] states[i].closed,
    decreases states.len(),
{
    if states.len() > 1 {
        let prefix = states.drop_last();
        assert forall|i: int| 0 <= i < prefix.len() - 1 implies #[trigger] fifo_step(
            prefix[i],
            prefix[i + 1],
        ) by {
            assert(fifo_step(states[i], states[i + 1]));
        }
        lemma_closed_stays_closed(prefix);
        let k = states.len() - 2;
        assert(fifo_step(states[k], states[k + 1]));
        assert(prefix[k].closed);
        assert forall|i: int| 0 <= i < states.len() implies #[trigger] states[i].closed by {
            if i < states.len() - 1 {
                assert(prefix[i].closed);
            }
        }
    }
}

/// A byte FIFO over a fixed ring buffer, addressed by absolute stream positions.
pub struct DataFIFO {
    buffer: Vec<u8>,
    capacity: usize,
    slicebase: usize,
    startpoint: usize,
    endpoint: usize,
    close: bool,
}

impl View for DataFIFO {
    type V = FifoState;

    closed spec fn view(&self) -> FifoState {
        FifoState {
            buffer: self.buffer@,
            capacity: self.capacity as nat,
            slicebase: self.slicebase as nat,
            startpoint: self.startpoint as nat,
            endpoint: self.endpoint as nat,
            closed: self.close,
        }
    }
}

/// `(q + delta) % cap` in terms of `q % cap`, for a step of at most one ring.
proof fn lemma_slot_advance(q: int, delta: int, cap: int)
    requires
        cap > 0,
        q >= 0,
        0 <= delta <= cap,
    ensures
        ring_slot(q + delta, cap) == if ring_slot(q, cap) + delta < cap {
            ring_slot(q, cap) + delta
        } else {
            ring_slot(q, cap) + delta - cap
        },
{
    vstd::arithmetic::div_mod::lemma_fundamental_div_mod(q, cap);
    vstd::arithmetic::div_mod::lemma_mod_pos_bound(q, cap);
    let t = q / cap;
    let r = q % cap;
    assert(cap * t == t * cap) by (nonlinear_arith);
    if r + delta < cap {
        vstd::arithmetic::div_mod::lemma_fundamental_div_mod_converse(q + delta, cap, t, r + delta);
    } else {
        assert((t + 1) * cap == t * cap + cap) by (nonlinear_arith);
        vstd::arithmetic::div_mod::lemma_fundamental_div_mod_converse(
            q + delta,
            cap,
            t + 1,
            r + delta - cap,
        );
    }
}

/// Reading back a write at the same position gives the written bytes.
pub proof fn lemma_ring_read_after_write(buf: Seq<u8>, pos: int, data: Seq<u8>)
    requires
        buf.len() > 0,
        data.len() <= buf.len(),
    ensures
        ring_read(ring_write(buf, pos, data), pos, data.len() as int) == data,
{
    let cap = buf.len() as int;
    if pos % cap < 0 {
    }
    assert(ring_read(ring_write(buf, pos, data), pos, data.len() as int) =~= data);
}

/// A write does not disturb the bytes of a window that it does not overlap on the ring:
/// the window `[q, q + n)` ends before the write starts at `p`, and the write ends no more
/// than one ring after `q`.
pub proof fn lemma_ring_write_frame(buf: Seq<u8>, p: int, data: Seq<u8>, q: int, n: int)
    requires
        buf.len() > 0,
        0 <= q,
        0 <= n,
        q + n <= p,
        p + data.len() <= q + buf.len(),
    ensures
        ring_read(ring_write(buf, p, data), q, n) == ring_read(buf, q, n),
{
    let cap = buf.len() as int;
    let delta = p - q;
    lemma_slot_advance(q, delta, cap);
    assert(ring_read(ring_write(buf, p, data), q, n) =~= ring_read(buf, q, n));
}

/// Reading `n + m` bytes at `q` is reading `n` bytes at `q` and then `m` bytes at `q + n`.
pub proof fn lemma_ring_read_split(buf: Seq<u8>, q: int, n: int, m: int)
    requires
        buf.len() > 0,
        0 <= q,
        0 <= n,
        0 <= m,
        n + m <= buf.len(),
    ensures
        ring_read(buf, q, n + m) == ring_read(buf, q, n) + ring_read(buf, q + n, m),
{
    let cap = buf.len() as int;
    lemma_slot_advance(q, n, cap);
    assert(ring_read(buf, q, n + m) =~= ring_read(buf, q, n) + ring_read(buf, q + n, m));
}

/// The FIFO law of the ring: writing `data` at the end of a window of pending bytes, when
/// the whole still fits in the ring, appends `data` to the pending bytes.
pub proof fn lemma_ring_append(buf: Seq<u8>, start: int, end: int, data: Seq<u8>)
    requires
        buf.len() > 0,
        0 <= start <= end,
        end - start + data.len() <= buf.len(),
    ensures
        ring_read(ring_write(buf, end, data), start, end - start + data.len()) == ring_read(
            buf,
            start,
            end - start,
        ) + data,
{
    let nb = ring_write(buf, end, data);
    lemma_ring_read_split(nb, start, end - start, data.len() as int);
    lemma_ring_write_frame(buf, end, data, start, end - start);
    lemma_ring_read_after_write(buf, end, data);
}

/// Copies `data` into the ring `buffer` at stream position `pos`.
fn ring_copy_in(buffer: &mut Vec<u8>, pos: usize, data: &[u8])
    requires
        old(buffer)@.len() > 0,
        ring_fits(old(buffer)@.len() as int, pos as int, data@.len() as int),
        (pos as int) % (old(buffer)@.len() as int) + data@.len() <= usize::MAX,
    ensures
        final(buffer)@ == ring_write(old(buffer)@, pos as int, data@),
{
    let cap = buffer.len();
    let size = data.len();
    let start = pos % cap;
    let end = start + size;
    let split = cap - start;
    let ghost old_buf = buffer@;
    if end <= cap {
        let mut k: usize = 0;
        while k < size
            invariant
                buffer@.len() == cap,
                start + size <= cap,
                size == data@.len(),
                k <= size,
                forall|j: int|
                    0 <= j < cap ==> #[trigger] buffer@[j] == if start <= j < start + k {
                        data@[j - start]
                    } else {
                        old_buf[j]
                    },
            decreases size - k,
        {
            buffer[start + k] = data[k];
            k += 1;
        }
    } else {
        let mut k: usize = 0;
        while k < split
            invariant
                buffer@.len() == cap,
                start + split == cap,
                split < size,
                size == data@.len(),
                k <= split,
                forall|j: int|
                    0 <= j < cap ==> #[trigger] buffer@[j] == if start <= j < start + k {
                        data@[j - start]
                    } else {
                        old_buf[j]
                    },
            decreases split - k,
        {
            buffer[start + k] = data[k];
            k += 1;
        }
        let rest = size - split;
        let mut k: usize = 0;
        while k < rest
            invariant
                buffer@.len() == cap,
                start + split == cap,
                rest + split == size,
                rest <= cap,
                size == data@.len(),
                k <= rest,
                forall|j: int|
                    0 <= j < cap ==> #[trigger] buffer@[j] == if j < k {
                        data@[split + j]
                    } else if start <= j < cap {
                        data@[j - start]
                    } else {
                        old_buf[j]
                    },
            decreases rest - k,
        {
            buffer[k] = data[split + k];
            k += 1;
        }
    }
    assert(buffer@ =~= ring_write(old_buf, pos as int, data@));
}

/// Copies `size` bytes out of the ring `buffer` from stream position `pos`.
fn ring_copy_out(buffer: &Vec<u8>, pos: usize, size: usize) -> (r: Vec<u8>)
    requires
        buffer@.len() > 0,
        ring_fits(buffer@.len() as int, pos as int, size as int),
        (pos as int) % (buffer@.len() as int) + size <= usize::MAX,
    ensures
        r@ == ring_read(buffer@, pos as int, size as int),
{
    let cap = buffer.len();
    let start = pos % cap;
    let mut data: Vec<u8> = Vec::new();
    let mut k: usize = 0;
    while k < size
        invariant
            buffer@.len() == cap,
            cap > 0,
            start == (pos as int) % (cap as int),
            start + size <= 2 * cap,
            start + size <= usize::MAX,
            k <= size,
            data@ == ring_read(buffer@, pos as int, k as int),
        decreases size - k,
    {
        let idx = if start + k < cap {
            start + k
        } else {
            start + k - cap
        };
        data.push(buffer[idx]);
        k += 1;
        assert(data@ =~= ring_read(buffer@, pos as int, k as int));
    }
    data
}

impl DataFIFO {
    /// A FIFO whose ring holds `capacity` bytes, and at least `MAX_BUFFER_SIZE`.
    pub fn new(capacity: usize) -> (r: Self)
        ensures
            r@.wf(),
            r@.capacity == if capacity < MAX_BUFFER_SIZE {
                MAX_BUFFER_SIZE
            } else {
                capacity
            },
            r@.buffer == Seq::new(r@.capacity, |i: int| 0u8),
            r@.slicebase == 0,
            r@.startpoint == 0,
            r@.endpoint == 0,
            !r@.closed,
    {
        let mut capacity = capacity;
        if capacity < MAX_BUFFER_SIZE {
            capacity = MAX_BUFFER_SIZE;
        }
        let buffer = vec![0u8; capacity];
        let r = Self { buffer, capacity, slicebase: 0, startpoint: 0, endpoint: 0, close: false };
        assert(r@.buffer =~= Seq::new(r@.capacity, |i: int| 0u8));
        r
    }

    /// Appends `data` at the end point.
    pub fn push(&mut self, data: &mut [u8]) -> (r: &mut Self)
        requires
            old(self)@.wf(),
            ring_fits(old(self)@.capacity as int, old(self)@.endpoint as int, old(data)@.len() as int),
            old(self)@.endpoint % old(self)@.capacity + old(data)@.len() <= usize::MAX,
            old(self)@.endpoint + old(data)@.len() <= usize::MAX,
        ensures
            r@ == (FifoState {
                buffer: ring_write(old(self)@.buffer, old(self)@.endpoint as int, old(data)@),
                endpoint: old(self)@.endpoint + old(data)@.len(),
                ..old(self)@
            }),
            old(self)@.startpoint <= old(self)@.endpoint && old(self)@.endpoint
                - old(self)@.startpoint + old(data)@.len() <= old(self)@.capacity ==> r@.pending()
                == old(self)@.pending() + old(data)@,
            final(data)@ == old(data)@,
            *final(self) == *final(r),
            fifo_step(old(self)@, r@),
    {
        let size = data.len();
        ring_copy_in(&mut self.buffer, self.endpoint, data);
        self.endpoint = self.endpoint + size;
        proof {
            if old(self)@.startpoint <= old(self)@.endpoint && old(self)@.endpoint
                - old(self)@.startpoint + data@.len() <= old(self)@.capacity {
                lemma_ring_append(
                    old(self)@.buffer,
                    old(self)@.startpoint as int,
                    old(self)@.endpoint as int,
                    data@,
                );
            }
        }
        self
    }

    /// Takes `size` bytes from the start point.
    pub fn pop(&mut self, size: usize) -> (r: Option<Vec<u8>>)
        requires
            old(self)@.wf(),
            ring_fits(old(self)@.capacity as int, old(self)@.startpoint as int, size as int),
            old(self)@.startpoint % old(self)@.capacity + size <= usize::MAX,
            old(self)@.startpoint + size <= usize::MAX,
        ensures
            r is Some,
            r.unwrap()@ == ring_read(old(self)@.buffer, old(self)@.startpoint as int, size as int),
            final(self)@ == (FifoState {
                startpoint: (old(self)@.startpoint + size) as nat,
                ..old(self)@
            }),
            old(self)@.startpoint + size <= old(self)@.endpoint && old(self)@.endpoint
                - old(self)@.startpoint <= old(self)@.capacity ==> {
                &&& old(self)@.pending() == r.unwrap()@ + final(self)@.pending()
            },
            fifo_step(old(self)@, final(self)@),
    {
        let data = ring_copy_out(&self.buffer, self.startpoint, size);
        self.startpoint = self.startpoint + size;
        proof {
            let s = old(self)@;
            if s.startpoint + size <= s.endpoint && s.endpoint - s.startpoint <= s.capacity {
                lemma_ring_read_split(
                    s.buffer,
                    s.startpoint as int,
                    size as int,
                    s.endpoint - s.startpoint - size,
                );
            }
        }
        Some(data)
    }

    /// Writes `data` at stream position `pos` without moving any marker.
    pub fn set(&mut self, pos: usize, data: &[u8]) -> (r: &mut Self)
        requires
            old(self)@.wf(),
            ring_fits(old(self)@.capacity as int, pos as int, data@.len() as int),
            (pos as int) % (old(self)@.capacity as int) + data@.len() <= usize::MAX,
        ensures
            r@ == (FifoState {
                buffer: ring_write(old(self)@.buffer, pos as int, data@),
                ..old(self)@
            }),
            *final(self) == *final(r),
            fifo_step(old(self)@, r@),
    {
        ring_copy_in(&mut self.buffer, pos, data);
        self
    }

    /// Reads `size` bytes at stream position `pos`, cut short at the end point.
    pub fn get(&mut self, pos: usize, size: u32) -> (r: Vec<u8>)
        requires
            old(self)@.wf(),
            pos <= old(self)@.endpoint,
            pos + size <= usize::MAX,
            ring_fits(
                old(self)@.capacity as int,
                pos as int,
                if pos + size > old(self)@.endpoint {
                    old(self)@.endpoint - pos
                } else {
                    size as int
                },
            ),
            (pos as int) % (old(self)@.capacity as int) + size <= usize::MAX,
        ensures
            r@ == ring_read(
                old(self)@.buffer,
                pos as int,
                if pos + size > old(self)@.endpoint {
                    old(self)@.endpoint - pos
                } else {
                    size as int
                },
            ),
            *final(self) == *old(self),
            fifo_step(old(self)@, final(self)@),
    {
        let mut size = size as usize;
        if pos + size > self.endpoint {
            size = self.endpoint - pos;
        }
        ring_copy_out(&self.buffer, pos, size)
    }

    /// Reserves `size` bytes for a slice arriving from the sender: the end point moves to the
    /// old slice base, which is returned, and the slice base moves past the reservation.
    pub fn reserve(&mut self, size: u32) -> (r: usize)
        requires
            old(self)@.slicebase + size <= usize::MAX,
        ensures
            r == old(self)@.slicebase,
            final(self)@ == (FifoState {
                slicebase: (old(self)@.slicebase + size) as nat,
                endpoint: old(self)@.slicebase,
                ..old(self)@
            }),
            fifo_step(old(self)@, final(self)@),
    {
        let base = self.slicebase;
        self.slicebase = self.slicebase + size as usize;
        self.endpoint = base;
        base
    }

    /// Hands out the next `size` bytes after the slice base as a slice, no further than the
    /// end point, and returns where the slice starts.
    pub fn assign(&mut self, size: u32) -> (r: usize)
        requires
            old(self)@.slicebase + size <= usize::MAX,
        ensures
            r == old(self)@.slicebase,
            final(self)@ == (FifoState {
                slicebase: if old(self)@.slicebase + size > old(self)@.endpoint {
                    old(self)@.endpoint
                } else {
                    (old(self)@.slicebase + size) as nat
                },
                ..old(self)@
            }),
            fifo_step(old(self)@, final(self)@),
    {
        let base = self.slicebase;
        self.slicebase = self.slicebase + size as usize;
        if self.slicebase > self.endpoint {
            self.slicebase = self.endpoint;
        }
        base
    }

    /// Moves the start point forward by `size` bytes without reading them.
    pub fn drain(&mut self, size: usize) -> (r: &mut Self)
        requires
            old(self)@.startpoint + size <= usize::MAX,
        ensures
            r@ == (FifoState { startpoint: (old(self)@.startpoint + size) as nat, ..old(self)@ }),
            *final(self) == *final(r),
            fifo_step(old(self)@, r@),
    {
        self.startpoint = self.startpoint + size;
        self
    }

    /// Bytes taken out so far: the start point.
    pub fn written_bytes(&self) -> (r: usize)
        ensures
            r == self@.startpoint,
    {
        self.startpoint
    }

    /// Whether the ring storage is empty.
    pub fn is_empty(&self) -> (r: bool)
        ensures
            r == (self@.buffer.len() == 0),
    {
        self.buffer.is_empty()
    }

    /// Drops the ring storage.
    pub fn clear(&mut self) -> (r: &mut Self)
        ensures
            r@ == (FifoState { buffer: Seq::empty(), ..old(self)@ }),
            *final(self) == *final(r),
            fifo_step(old(self)@, r@),
    {
        self.buffer.clear();
        self
    }

    /// Bytes between the start point and the end point.
    pub fn len(&self) -> (r: usize)
        requires
            self@.startpoint <= self@.endpoint,
        ensures
            r == self@.endpoint - self@.startpoint,
    {
        self.endpoint - self.startpoint
    }

    /// Bytes between the slice base and the end point.
    pub fn remain(&self) -> (r: usize)
        requires
            self@.slicebase <= self@.endpoint,
        ensures
            r == self@.endpoint - self@.slicebase,
            self@.endpoint <= usize::MAX,
    {
        self.endpoint - self.slicebase
    }

    /// The slice base.
    pub fn slicebase(&self) -> (r: usize)
        ensures
            r == self@.slicebase,
    {
        self.slicebase
    }

    /// The end point.
    pub fn endpoint(&self) -> (r: usize)
        ensures
            r == self@.endpoint,
    {
        self.endpoint
    }

    /// Marks the FIFO closed.
    pub fn close(&mut self) -> (r: &mut Self)
        ensures
            r@ == (FifoState { closed: true, ..old(self)@ }),
            old(self)@.closed ==> r@ == old(self)@,
            *final(self) == *final(r),
            fifo_step(old(self)@, r@),
    {
        self.close = true;
        self
    }

    /// Whether the FIFO is closed.
    pub fn is_closed(&self) -> (r: bool)
        ensures
            r == self@.closed,
    {
        self.close
    }
}

} // verus!
