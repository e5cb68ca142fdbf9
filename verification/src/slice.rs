use vstd::prelude::*;

use crate::bitarray::{byte_len_for, BitArray};
use crate::packet::{MsgReqAck, MsgRetransmit, Retransmit};
use crate::MAX_CLIENTS;

verus! {

/// How many of the bits `0 .. n` of `map` are set.
pub open spec fn count_set(map: BitArray, n: nat) -> nat
    decreases n,
{
    if n == 0 {
        0
    } else {
        count_set(map, (n - 1) as nat) + if map.bit(n - 1) {
            1nat
        } else {
            0nat
        }
    }
}

/// Setting one bit that was clear adds one to the count of set bits at and above it, and
/// changes no count below it.
pub proof fn lemma_count_set_one_more(a: BitArray, b: BitArray, k: int, n: nat)
    requires
        0 <= k,
        !a.bit(k),
        b.bit(k),
        forall|j: int| 0 <= j < n && j != k ==> #[trigger] b.bit(j) == a.bit(j),
    ensures
        count_set(b, n) == count_set(a, n) + if k < n {
            1nat
        } else {
            0nat
        },
    decreases n,
{
    if n > 0 {
        lemma_count_set_one_more(a, b, k, (n - 1) as nat);
    }
}

/// Two maps that agree on bits `0 .. n` count the same number of set bits there.
pub proof fn lemma_count_set_same(a: BitArray, b: BitArray, n: nat)
    requires
        forall|j: int| 0 <= j < n ==> #[trigger] b.bit(j) == a.bit(j),
    ensures
        count_set(b, n) == count_set(a, n),
    decreases n,
{
    if n > 0 {
        lemma_count_set_same(a, b, (n - 1) as nat);
    }
}

/// One slice of the transfer: a run of blocks that is sent, acknowledged and retransmitted
/// as a unit.
#[derive(Debug)]
pub struct Slice {
    pub slice_no: u32,
    pub bytes: u32,
    pub block_size: u32,
    pub base: usize,
    pub blocks_in_slice: u32,
    pub blocks_transferred: u32,
    pub retransmit: Retransmit,
    pub reqack: MsgReqAck,
    pub ready_set: BitArray,
    pub rxmit_id: u32,
    pub need_rxmit: bool,
    pub nr_answered: u32,
    pub last_good_block: u32,
    /// Time spent on the slice, in nanoseconds.
    pub duration: u128,
}

impl Slice {
    /// The number of blocks of `block_size` bytes needed for `bytes` bytes.
    pub open spec fn blocks_for(bytes: u32, block_size: u32) -> int {
        (bytes + block_size - 1) / (block_size as int)
    }

    /// The slice as `new` makes it: no block received, no receiver answered, no round of
    /// requests yet.
    pub open spec fn is_new(
        self,
        slice_no: u32,
        bytes: u32,
        block_size: u32,
        base: usize,
        max_slice: u32,
    ) -> bool {
        &&& self.slice_no == slice_no
        &&& self.bytes == bytes
        &&& self.block_size == block_size
        &&& self.base == base
        &&& self.blocks_in_slice == Self::blocks_for(bytes, block_size)
        &&& self.blocks_transferred == 0
        &&& self.retransmit.msg == (MsgRetransmit { reserved: 0, sliceno: slice_no, rxmit: 0 })
        &&& self.retransmit.map.size() == max_slice
        &&& self.retransmit.map.bytes() == Seq::new(
            byte_len_for(max_slice as int) as nat,
            |i: int| 0u8,
        )
        &&& self.reqack == (MsgReqAck { reserved: 0, sliceno: slice_no, bytes, rxmit: 0 })
        &&& self.ready_set.size() == MAX_CLIENTS
        &&& self.ready_set.bytes() == Seq::new(byte_len_for(MAX_CLIENTS as int) as nat, |i: int| 0u8)
        &&& self.rxmit_id == 0
        &&& !self.need_rxmit
        &&& self.nr_answered == 0
        &&& self.last_good_block == 0
        &&& self.duration == 0
    }

    /// How `update_block(block_no)` takes slice `old` to slice `new`: the block is marked
    /// received, no other mark changes, and the count of received blocks goes up by one when
    /// the block was new.
    pub open spec fn updated_by(old: Slice, block_no: u32, new: Slice) -> bool {
        &&& new.retransmit.map.size() == old.retransmit.map.size()
        &&& new.retransmit.map.bit(block_no as int)
        &&& forall|j: int|
            0 <= j < old.retransmit.map.size() && j != block_no ==> #[trigger] new.retransmit.map.bit(
                j,
            ) == old.retransmit.map.bit(j)
        &&& new.blocks_transferred == old.blocks_transferred + if old.retransmit.map.bit(
            block_no as int,
        ) {
            0int
        } else {
            1int
        }
        &&& new.blocks_in_slice == old.blocks_in_slice
    }

    /// The received-block map counts exactly the blocks received.
    pub open spec fn counts_received(&self) -> bool {
        self.blocks_transferred == count_set(self.retransmit.map, self.retransmit.map.size())
    }

    pub fn new(slice_no: u32, bytes: u32, block_size: u32, base: usize, max_slice: u32) -> (r:
        Self)
        requires
            block_size > 0,
            bytes + block_size <= u32::MAX,
        ensures
            r.is_new(slice_no, bytes, block_size, base, max_slice),
            forall|i: int| 0 <= i < max_slice ==> !#[trigger] r.retransmit.map.bit(i),
            forall|i: int| 0 <= i < MAX_CLIENTS ==> !#[trigger] r.ready_set.bit(i),
            r.counts_received(),
    {
        let r = Self {
            slice_no,
            bytes,
            block_size,
            base,
            blocks_in_slice: ((bytes + block_size - 1) / block_size),
            blocks_transferred: 0,
            retransmit: Retransmit::new(slice_no, 0, max_slice),
            reqack: MsgReqAck::new(slice_no, bytes, 0),
            ready_set: BitArray::new(MAX_CLIENTS as usize),
            rxmit_id: 0,
            need_rxmit: false,
            nr_answered: 0,
            last_good_block: 0,
            duration: 0,
        };
        proof {
            let m = r.retransmit.map;
            assert forall|n: nat| n <= m.size() implies count_set(m, n) == 0 by {
                lemma_count_zero(m, n);
            }
        }
        r
    }

    /// Records block `block_no` as received; returns whether it was new.
    pub fn update_block(&mut self, block_no: u32) -> (r: bool)
        requires
            block_no < old(self).retransmit.map.size(),
            !old(self).retransmit.map.bit(block_no as int) ==> old(self).blocks_transferred
                < u32::MAX,
        ensures
            r == !old(self).retransmit.map.bit(block_no as int),
            final(self).retransmit.map.size() == old(self).retransmit.map.size(),
            final(self).retransmit.map.bit(block_no as int),
            forall|j: int|
                0 <= j < old(self).retransmit.map.size() && j != block_no
                    ==> #[trigger] final(self).retransmit.map.bit(j) == old(self).retransmit.map.bit(j),
            final(self).blocks_transferred == old(self).blocks_transferred + if r {
                1int
            } else {
                0int
            },
            count_set(final(self).retransmit.map, final(self).retransmit.map.size()) == count_set(
                old(self).retransmit.map,
                old(self).retransmit.map.size(),
            ) + if r {
                1nat
            } else {
                0nat
            },
            old(self).counts_received() ==> final(self).counts_received(),
            Slice::updated_by(*old(self), block_no, *final(self)),
            !r ==> *final(self) == *old(self),
            *final(self) == (Slice {
                retransmit: Retransmit { map: final(self).retransmit.map, ..old(self).retransmit },
                blocks_transferred: final(self).blocks_transferred,
                ..*old(self)
            }),
    {
        if self.retransmit.map.get(block_no as usize) {
            proof {
                lemma_count_set_same(old(self).retransmit.map, self.retransmit.map, self.retransmit.map.size());
            }
            return false;
        }
        self.retransmit.map.set(block_no as usize, true);
        self.blocks_transferred += 1;
        proof {
            lemma_count_set_one_more(
                old(self).retransmit.map,
                self.retransmit.map,
                block_no as int,
                self.retransmit.map.size(),
            );
        }
        true
    }

    /// Stream position of block `block_no`.
    pub fn get_block_pos(&mut self, block_no: u32) -> (r: usize)
        requires
            old(self).block_size * block_no <= u32::MAX,
            old(self).base + old(self).block_size * block_no <= usize::MAX,
        ensures
            r == old(self).base + old(self).block_size * block_no,
            *final(self) == *old(self),
    {
        self.base + (self.block_size * block_no) as usize
    }

    /// Whether every block of the slice has been received.
    pub fn is_completed(&self) -> (r: bool)
        ensures
            r == (self.blocks_in_slice == self.blocks_transferred),
    {
        self.blocks_in_slice == self.blocks_transferred
    }

    /// Offset of block `block_no` within the slice.
    pub fn get_pos(&mut self, block_no: u32) -> (r: usize)
        requires
            old(self).block_size * block_no <= u32::MAX,
        ensures
            r == old(self).block_size * block_no,
            *final(self) == *old(self),
    {
        (self.block_size * block_no) as usize
    }
}

/// At most `n` of the bits `0 .. n` are set, and exactly `n` when all of them are.
pub proof fn lemma_count_set_bound(m: BitArray, n: nat)
    ensures
        count_set(m, n) <= n,
        count_set(m, n) == n <==> forall|j: int| 0 <= j < n ==> #[trigger] m.bit(j),
    decreases n,
{
    if n > 0 {
        lemma_count_set_bound(m, (n - 1) as nat);
        if count_set(m, n) == n {
            assert forall|j: int| 0 <= j < n implies #[trigger] m.bit(j) by {
                if j < n - 1 {
                    assert(m.bit(j));
                }
            }
        }
    }
}

/// Bits that are clear from `n` up to `k` add nothing to the count.
proof fn lemma_count_set_clear_above(m: BitArray, n: nat, k: nat)
    requires
        n <= k,
        forall|j: int| n <= j < k ==> !#[trigger] m.bit(j),
    ensures
        count_set(m, k) == count_set(m, n),
    decreases k,
{
    if k > n {
        lemma_count_set_clear_above(m, n, (k - 1) as nat);
    }
}

/// A slice whose block count is kept by `update_block`, and whose map marks no block past
/// its end, is complete exactly when every one of its blocks has been received.
pub proof fn lemma_completed_iff_all_received(s: Slice)
    requires
        s.counts_received(),
        s.blocks_in_slice <= s.retransmit.map.size(),
        forall|j: int|
            s.blocks_in_slice <= j < s.retransmit.map.size() ==> !#[trigger] s.retransmit.map.bit(
                j,
            ),
    ensures
        s.blocks_transferred == s.blocks_in_slice <==> forall|j: int|
            0 <= j < s.blocks_in_slice ==> #[trigger] s.retransmit.map.bit(j),
{
    lemma_count_set_clear_above(
        s.retransmit.map,
        s.blocks_in_slice as nat,
        s.retransmit.map.size(),
    );
    lemma_count_set_bound(s.retransmit.map, s.blocks_in_slice as nat);
}

/// After `update_block` has been called on a slice with nothing received, once for each of
/// `blocks` in turn (each below the size of the map), the slice has received exactly the
/// distinct blocks among them: a block is marked exactly when it occurs in `blocks`, the count
/// of received blocks is the number of distinct blocks, and the slice is complete exactly when
/// that number is its block count. `states[k]` is the slice before the `k`-th call.
pub proof fn lemma_update_sequence(states: Seq<Slice>, blocks: Seq<u32>)
    requires
        states.len() == blocks.len() + 1,
        states[0].blocks_transferred == 0,
        forall|j: int|
            0 <= j < states[0].retransmit.map.size() ==> !#[trigger] states[0].retransmit.map.bit(
                j,
            ),
        forall|k: int| 0 <= k < blocks.len() ==> #[trigger] blocks[k] < states[0].retransmit.map.size(),
        forall|k: int|
            0 <= k < blocks.len() ==> #[trigger] Slice::updated_by(states[k], blocks[k], states[k + 1]),
    ensures
        ({
            let last = states[blocks.len() as int];
            &&& last.blocks_transferred == blocks.to_set().len()
            &&& forall|j: int|
                0 <= j < last.retransmit.map.size() ==> (#[trigger] last.retransmit.map.bit(j)
                    <==> exists|k: int| 0 <= k < blocks.len() && blocks[k] == j)
            &&& (last.blocks_transferred == last.blocks_in_slice) <==> blocks.to_set().len()
                == states[0].blocks_in_slice
        }),
{
    lemma_update_prefix(states, blocks, blocks.len());
    assert(blocks.subrange(0, blocks.len() as int) =~= blocks);
}

/// The first `n` calls of the sequence in `lemma_update_sequence`.
proof fn lemma_update_prefix(states: Seq<Slice>, blocks: Seq<u32>, n: nat)
    requires
        n <= blocks.len(),
        states.len() == blocks.len() + 1,
        states[0].blocks_transferred == 0,
        forall|j: int|
            0 <= j < states[0].retransmit.map.size() ==> !#[trigger] states[0].retransmit.map.bit(
                j,
            ),
        forall|k: int| 0 <= k < blocks.len() ==> #[trigger] blocks[k] < states[0].retransmit.map.size(),
        forall|k: int|
            0 <= k < blocks.len() ==> #[trigger] Slice::updated_by(states[k], blocks[k], states[k + 1]),
    ensures
        states[n as int].retransmit.map.size() == states[0].retransmit.map.size(),
        states[n as int].blocks_in_slice == states[0].blocks_in_slice,
        states[n as int].blocks_transferred == blocks.subrange(0, n as int).to_set().len(),
        forall|j: int|
            0 <= j < states[0].retransmit.map.size() ==> (#[trigger] states[n as int].retransmit.map.bit(
                j,
            ) <==> exists|k: int| 0 <= k < n && blocks[k] == j),
    decreases n,
{
    broadcast use vstd::seq_lib::seq_to_set_is_finite;
    broadcast use vstd::set::group_set_axioms;
    if n == 0 {
        assert(blocks.subrange(0, 0).to_set() =~= Set::<u32>::empty());
    } else {
        let m = (n - 1) as nat;
        lemma_update_prefix(states, blocks, m);
        let b = blocks[m as int];
        let before = blocks.subrange(0, m as int);
        let after = blocks.subrange(0, n as int);
        assert(Slice::updated_by(states[m as int], blocks[m as int], states[m + 1int]));
        assert(after.to_set() =~= before.to_set().insert(b)) by {
            assert forall|x: u32| after.to_set().contains(x) <==> before.to_set().insert(b).contains(
                x,
            ) by {
                if after.to_set().contains(x) {
                    let k = choose|k: int| 0 <= k < after.len() && after[k] == x;
                    if k < m {
                        assert(before[k] == x);
                    }
                }
                if before.to_set().contains(x) {
                    let k = choose|k: int| 0 <= k < before.len() && before[k] == x;
                    assert(after[k] == x);
                }
                if x == b {
                    assert(after[m as int] == x);
                }
            }
        }
        assert(states[m as int].retransmit.map.bit(b as int) <==> before.to_set().contains(b)) by {
            if before.to_set().contains(b) {
                let k = choose|k: int| 0 <= k < before.len() && before[k] == b;
                assert(blocks[k] == b);
            }
            if states[m as int].retransmit.map.bit(b as int) {
                let k = choose|k: int| 0 <= k < m && blocks[k] == b;
                assert(before[k] == b);
            }
        }
        assert forall|j: int| 0 <= j < states[0].retransmit.map.size() implies (
        #[trigger] states[n as int].retransmit.map.bit(j) <==> exists|k: int|
            0 <= k < n && blocks[k] == j) by {
            if j == b {
                assert(blocks[m as int] == j);
            } else {
                if exists|k: int| 0 <= k < n && blocks[k] == j {
                    let k = choose|k: int| 0 <= k < n && blocks[k] == j;
                    assert(k < m);
                }
            }
        }
    }
}

/// A map with no bit set counts none.
proof fn lemma_count_zero(m: BitArray, n: nat)
    requires
        n <= m.size(),
        forall|i: int| 0 <= i < m.size() ==> !#[trigger] m.bit(i),
    ensures
        count_set(m, n) == 0,
    decreases n,
{
    if n > 0 {
        lemma_count_zero(m, (n - 1) as nat);
    }
}

} // verus!
