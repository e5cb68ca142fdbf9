use vstd::prelude::*;

use std::time::Instant;

verus! {

#[verifier::external_type_specification]
#[verifier::external_body]
pub struct ExInstant(Instant);

/// The current time.
/// Trusted: calls `std::time::Instant::now`; nothing is stated of the value it returns.
#[verifier::external_body]
fn instant_now() -> Instant {
    Instant::now()
}

/// The longest latency a `std::time::Duration` can hold, in nanoseconds.
pub const MAX_LATENCY_NANOS: u128 = 18_446_744_073_709_551_615u128 * 1_000_000_000u128
    + 999_999_999u128;

/// Accumulated input/output work: total latency in nanoseconds, bytes moved and operations.
#[derive(Debug, Clone, Copy)]
pub struct Amount {
    pub latency: u128,
    pub bytes: usize,
    pub counts: usize,
}

impl Amount {
    /// The sum of two amounts can be formed.
    pub open spec fn can_add(self, rhs: Amount) -> bool {
        &&& self.latency + rhs.latency <= MAX_LATENCY_NANOS
        &&& self.bytes + rhs.bytes <= usize::MAX
        &&& self.counts + rhs.counts <= usize::MAX
    }

    /// The difference of two amounts can be formed.
    pub open spec fn can_sub(self, rhs: Amount) -> bool {
        &&& rhs.latency <= self.latency
        &&& rhs.bytes <= self.bytes
        &&& rhs.counts <= self.counts
    }

    /// Field by field sum.
    pub fn add(self, rhs: Amount) -> (r: Amount)
        requires
            self.can_add(rhs),
        ensures
            r.latency == self.latency + rhs.latency,
            r.bytes == self.bytes + rhs.bytes,
            r.counts == self.counts + rhs.counts,
    {
        Amount {
            latency: self.latency + rhs.latency,
            bytes: self.bytes + rhs.bytes,
            counts: self.counts + rhs.counts,
        }
    }

    /// Adds `rhs` field by field.
    pub fn add_assign(&mut self, rhs: Amount)
        requires
            old(self).can_add(rhs),
        ensures
            final(self).latency == old(self).latency + rhs.latency,
            final(self).bytes == old(self).bytes + rhs.bytes,
            final(self).counts == old(self).counts + rhs.counts,
    {
        self.latency = self.latency + rhs.latency;
        self.bytes = self.bytes + rhs.bytes;
        self.counts = self.counts + rhs.counts;
    }

    /// Field by field difference.
    pub fn sub(self, rhs: Amount) -> (r: Amount)
        requires
            self.can_sub(rhs),
        ensures
            r.latency == self.latency - rhs.latency,
            r.bytes == self.bytes - rhs.bytes,
            r.counts == self.counts - rhs.counts,
    {
        Amount {
            latency: self.latency - rhs.latency,
            bytes: self.bytes - rhs.bytes,
            counts: self.counts - rhs.counts,
        }
    }

    /// Subtracts `rhs` field by field.
    pub fn sub_assign(&mut self, rhs: Amount)
        requires
            old(self).can_sub(rhs),
        ensures
            final(self).latency == old(self).latency - rhs.latency,
            final(self).bytes == old(self).bytes - rhs.bytes,
            final(self).counts == old(self).counts - rhs.counts,
    {
        self.latency = self.latency - rhs.latency;
        self.bytes = self.bytes - rhs.bytes;
        self.counts = self.counts - rhs.counts;
    }
}

impl Default for Amount {
    fn default() -> (r: Self)
        ensures
            r.latency == 0,
            r.bytes == 0,
            r.counts == 0,
    {
        Amount { latency: 0, bytes: 0, counts: 0 }
    }
}

/// A snapshot of the disk and network work done, taken at `time`.
#[derive(Debug, Clone, Copy)]
pub struct State {
    pub time: Instant,
    pub disk_io: Amount,
    pub sock_io: Amount,
}

impl Default for State {
    fn default() -> (r: Self)
        ensures
            r.disk_io == (Amount { latency: 0, bytes: 0, counts: 0 }),
            r.sock_io == (Amount { latency: 0, bytes: 0, counts: 0 }),
    {
        Self { time: instant_now(), disk_io: Amount::default(), sock_io: Amount::default() }
    }
}

impl State {
    /// The same amounts, stamped with the current time.
    pub fn now(&self) -> (r: State)
        ensures
            r.disk_io == self.disk_io,
            r.sock_io == self.sock_io,
    {
        State { time: instant_now(), disk_io: self.disk_io, sock_io: self.sock_io }
    }

    /// Records one disk operation of `bytes` bytes that took `latency` nanoseconds.
    pub fn add_io(&mut self, latency: u128, bytes: usize)
        requires
            old(self).disk_io.can_add(Amount { latency, bytes, counts: 1 }),
        ensures
            final(self).disk_io == (Amount {
                latency: (old(self).disk_io.latency + latency) as u128,
                bytes: (old(self).disk_io.bytes + bytes) as usize,
                counts: (old(self).disk_io.counts + 1) as usize,
            }),
            final(self).sock_io == old(self).sock_io,
            final(self).time == old(self).time,
    {
        self.disk_io.add_assign(Amount { latency, bytes, counts: 1 });
    }

    /// Records one network operation of `bytes` bytes that took `latency` nanoseconds.
    pub fn add_net(&mut self, latency: u128, bytes: usize)
        requires
            old(self).sock_io.can_add(Amount { latency, bytes, counts: 1 }),
        ensures
            final(self).sock_io == (Amount {
                latency: (old(self).sock_io.latency + latency) as u128,
                bytes: (old(self).sock_io.bytes + bytes) as usize,
                counts: (old(self).sock_io.counts + 1) as usize,
            }),
            final(self).disk_io == old(self).disk_io,
            final(self).time == old(self).time,
    {
        self.sock_io.add_assign(Amount { latency, bytes, counts: 1 });
    }

    /// The work done since `rhs`, stamped with the current time.
    pub fn sub(self, rhs: State) -> (r: State)
        requires
            self.disk_io.can_sub(rhs.disk_io),
            self.sock_io.can_sub(rhs.sock_io),
        ensures
            r.disk_io == (Amount {
                latency: (self.disk_io.latency - rhs.disk_io.latency) as u128,
                bytes: (self.disk_io.bytes - rhs.disk_io.bytes) as usize,
                counts: (self.disk_io.counts - rhs.disk_io.counts) as usize,
            }),
            r.sock_io == (Amount {
                latency: (self.sock_io.latency - rhs.sock_io.latency) as u128,
                bytes: (self.sock_io.bytes - rhs.sock_io.bytes) as usize,
                counts: (self.sock_io.counts - rhs.sock_io.counts) as usize,
            }),
    {
        State {
            time: instant_now(),
            disk_io: self.disk_io.sub(rhs.disk_io),
            sock_io: self.sock_io.sub(rhs.sock_io),
        }
    }
}

/// Progress statistics of a transfer.
pub struct Statistics {
    start_time: Instant,
    state: State,
    elaps: Vec<State>,
    written_elaps: u128,
}

impl Statistics {
    /// The current totals.
    pub closed spec fn state(&self) -> State {
        self.state
    }

    /// The snapshots taken so far.
    pub closed spec fn elaps(&self) -> Seq<State> {
        self.elaps@
    }

    /// Bytes written at the last progress report.
    pub closed spec fn written_elaps(&self) -> u128 {
        self.written_elaps
    }

    /// The time the transfer started.
    pub closed spec fn start_time(&self) -> Instant {
        self.start_time
    }

    pub fn new() -> (r: Self)
        ensures
            r.state().disk_io == (Amount { latency: 0, bytes: 0, counts: 0 }),
            r.state().sock_io == (Amount { latency: 0, bytes: 0, counts: 0 }),
            r.elaps() == Seq::<State>::empty(),
            r.written_elaps() == 0,
    {
        Self {
            start_time: instant_now(),
            state: State::default(),
            elaps: Vec::new(),
            written_elaps: 0,
        }
    }

    /// Restarts the clock; the totals are kept.
    pub fn start(&mut self)
        ensures
            final(self).state() == old(self).state(),
            final(self).elaps() == old(self).elaps(),
            final(self).written_elaps() == old(self).written_elaps(),
    {
        self.start_time = instant_now();
    }
}

} // verus!
