use vstd::prelude::*;

use std::collections::HashMap;
use vstd::std_specs::hash::{spec_keys_iter, spec_values_iter};
use vstd::std_specs::iter::IteratorSpec;

use crate::bitarray::BitArray;
use crate::datafifo::{ring_fits, ring_read, DataFIFO, FifoState};
use crate::packet::{DataBlock, Message, MsgReqAck, MsgRetransmit, Retransmit};
use crate::slice::Slice;
use crate::{MAX_BUFFER_SIZE, MAX_CLIENTS};

verus! {

/// The slice size, in blocks, the sender uses next: it grows by a quarter, up to
/// `max_slices`, after a slice that needed no retransmission; it shrinks after a slice that
/// was received only up to block `last_good_block`, to half the size when that block lies in
/// the first half and to that block otherwise; and it is never below 32.
pub open spec fn spec_next_slice_size(
    slice_size: u32,
    max_slices: u32,
    retransmits: u32,
    last_good_block: u32,
    blocks_in_slice: u32,
) -> int {
    let grown = if retransmits == 0 {
        if slice_size + slice_size / 4 > max_slices {
            max_slices as int
        } else {
            slice_size + slice_size / 4
        }
    } else {
        slice_size as int
    };
    let shrunk = if 0 < last_good_block < blocks_in_slice {
        if last_good_block < grown / 2 {
            grown / 2
        } else {
            last_good_block as int
        }
    } else {
        grown
    };
    if shrunk < 32 {
        32
    } else {
        shrunk
    }
}

/// How the slice size adapts, in blocks, never below 32. After a clean slice (no
/// retransmission, no block reported as the last good one inside the slice) it grows by a
/// quarter, up to `max_slices`; after retransmissions without such a report it stays. When
/// a receiver got the slice only up to block `last_good_block`, the size becomes that block,
/// but not less than half of what it would otherwise have been.
pub proof fn lemma_next_slice_size(
    slice_size: u32,
    max_slices: u32,
    retransmits: u32,
    last_good_block: u32,
    blocks_in_slice: u32,
)
    ensures
        ({
            let r = spec_next_slice_size(
                slice_size,
                max_slices,
                retransmits,
                last_good_block,
                blocks_in_slice,
            );
            let quarter_up = slice_size + slice_size / 4;
            let g = if retransmits == 0 {
                vstd::math::min(quarter_up, max_slices as int)
            } else {
                slice_size as int
            };
            let lost = 0 < last_good_block < blocks_in_slice;
            &&& r >= 32
            &&& !lost ==> r == vstd::math::max(32, g)
            &&& lost ==> r == vstd::math::max(32, vstd::math::max(last_good_block as int, g / 2))
        }),
{
}

/// The slice size, in blocks, for the slice after one that was just acknowledged.
pub fn next_slice_size(
    slice_size: u32,
    max_slices: u32,
    retransmits: u32,
    last_good_block: u32,
    blocks_in_slice: u32,
) -> (r: u32)
    requires
        retransmits == 0 ==> slice_size + slice_size / 4 <= u32::MAX,
    ensures
        r == spec_next_slice_size(
            slice_size,
            max_slices,
            retransmits,
            last_good_block,
            blocks_in_slice,
        ),
        r >= 32,
        !(0 < last_good_block < blocks_in_slice) && retransmits == 0 ==> r == vstd::math::max(
            32,
            vstd::math::min(slice_size + slice_size / 4, max_slices as int),
        ),
        !(0 < last_good_block < blocks_in_slice) && retransmits != 0 ==> r == vstd::math::max(
            32,
            slice_size as int,
        ),
        0 < last_good_block < blocks_in_slice ==> r >= last_good_block,
{
    proof {
        lemma_next_slice_size(slice_size, max_slices, retransmits, last_good_block, blocks_in_slice);
    }
    let mut size = slice_size;
    if retransmits == 0 {
        size = size + size / 4;
        if size > max_slices {
            size = max_slices;
        }
    }
    if last_good_block > 0 && last_good_block < blocks_in_slice {
        if last_good_block < size / 2 {
            size = size / 2;
        } else {
            size = last_good_block;
        }
    }
    if size < 32 {
        size = 32;
    }
    size
}

/// The bytes left for a slice, as the sender's 32-bit arithmetic sees them.
pub open spec fn remain32(remain: usize) -> u32 {
    #[verifier::truncate]
    (remain as u32)
}

/// The byte size of the next slice: `slice_size` blocks, or as many whole blocks as remain,
/// or, when not even one whole block remains, whatever remains.
pub open spec fn spec_slice_len(block_size: u32, slice_size: u32, remain: usize) -> int {
    let rem = remain32(remain);
    let blocks = if block_size * slice_size > rem {
        (rem / block_size) as int
    } else {
        slice_size as int
    };
    if block_size * blocks == 0 {
        rem as int
    } else {
        block_size * blocks
    }
}

/// The next slice takes as many whole blocks as remain, up to `slice_size` of them, and,
/// when no whole block (or no block at all) is asked for, everything that remains. Only the
/// low 32 bits of `remain` count.
pub proof fn lemma_slice_len(block_size: u32, slice_size: u32, remain: usize)
    requires
        block_size > 0,
        block_size * slice_size <= u32::MAX,
    ensures
        ({
            let rem = remain as int % 0x1_0000_0000;
            let r = spec_slice_len(block_size, slice_size, remain);
            &&& 0 <= r <= rem
            &&& rem < block_size ==> r == rem
            &&& slice_size == 0 ==> r == rem
            &&& 0 < block_size * slice_size <= rem ==> r == block_size * slice_size
            &&& block_size <= rem < block_size * slice_size ==> {
                &&& r % (block_size as int) == 0
                &&& rem - r < block_size
            }
        }),
{
    let rem = remain32(remain);
    assert(rem == remain as int % 0x1_0000_0000) by (bit_vector)
        requires
            rem == #[verifier::truncate] (remain as u32),
    ;
    let b = block_size as int;
    let ri = rem as int;
    if block_size * slice_size > rem {
        let q = ri / b;
        vstd::arithmetic::div_mod::lemma_fundamental_div_mod(ri, b);
        vstd::arithmetic::div_mod::lemma_mod_pos_bound(ri, b);
        assert((rem / block_size) as int == q);
        assert(b * q <= ri) by (nonlinear_arith)
            requires
                b > 0,
                q == ri / b,
                ri >= 0,
        ;
        if rem >= block_size {
            assert(q >= 1) by (nonlinear_arith)
                requires
                    b > 0,
                    q == ri / b,
                    ri >= b,
            ;
            assert(b * q > 0) by (nonlinear_arith)
                requires
                    b > 0,
                    q >= 1,
            ;
            vstd::arithmetic::div_mod::lemma_mod_multiples_basic(q as int, b);
            assert(b * q == q * b) by (nonlinear_arith);
        } else {
            assert(q == 0) by (nonlinear_arith)
                requires
                    b > 0,
                    q == ri / b,
                    0 <= ri < b,
            ;
            assert(b * q == 0) by (nonlinear_arith)
                requires
                    q == 0,
            ;
        }
    } else {
        if slice_size > 0 {
            assert(b * slice_size >= b) by (nonlinear_arith)
                requires
                    b > 0,
                    slice_size > 0,
            ;
        } else {
            assert(b * slice_size == 0) by (nonlinear_arith)
                requires
                    slice_size == 0,
            ;
        }
    }
}

/// The byte size of the next slice, given the bytes between the slice base and the end point.
pub fn slice_len(block_size: u32, slice_size: u32, remain: usize) -> (r: u32)
    requires
        block_size > 0,
        block_size * slice_size <= u32::MAX,
    ensures
        r == spec_slice_len(block_size, slice_size, remain),
        r <= remain32(remain),
        r <= remain as int % 0x1_0000_0000,
        remain as int % 0x1_0000_0000 < block_size ==> r == remain as int % 0x1_0000_0000,
        0 < block_size * slice_size <= remain as int % 0x1_0000_0000 ==> r == block_size
            * slice_size,
        block_size <= remain as int % 0x1_0000_0000 < block_size * slice_size ==> {
            &&& r % block_size == 0
            &&& remain as int % 0x1_0000_0000 - r < block_size
        },
{
    proof {
        lemma_slice_len(block_size, slice_size, remain);
    }
    let rem = #[verifier::truncate] (remain as u32);
    let mut blocks = slice_size;
    if block_size * slice_size > rem {
        blocks = rem / block_size;
        proof {
            assert(block_size * blocks <= rem) by (nonlinear_arith)
                requires
                    block_size > 0,
                    blocks == rem / block_size,
            ;
        }
    }
    let mut size = block_size * blocks;
    if size == 0 {
        size = rem;
    }
    size
}

/// The bytes between the slice base and the end point.
pub open spec fn fifo_remain(s: FifoState) -> usize {
    #[verifier::truncate]
    ((s.endpoint - s.slicebase) as usize)
}

/// Cuts the next slice out of the data between the slice base and the end point of the FIFO.
pub fn make_slice(
    fifo: &mut DataFIFO,
    slice_no: u32,
    block_size: u32,
    slice_size: u32,
    max_slices: u32,
) -> (r: Slice)
    requires
        old(fifo)@.slicebase <= old(fifo)@.endpoint,
        block_size > 0,
        block_size * slice_size <= u32::MAX,
        spec_slice_len(block_size, slice_size, fifo_remain(old(fifo)@)) + block_size <= u32::MAX,
    ensures
        ({
            let size = spec_slice_len(block_size, slice_size, fifo_remain(old(fifo)@));
            &&& r.is_new(slice_no, size as u32, block_size, old(fifo)@.slicebase as usize, max_slices)
            &&& final(fifo)@ == (FifoState {
                slicebase: if old(fifo)@.slicebase + size > old(fifo)@.endpoint {
                    old(fifo)@.endpoint
                } else {
                    (old(fifo)@.slicebase + size) as nat
                },
                ..old(fifo)@
            })
        }),
{
    let remain = fifo.remain();
    let size = slice_len(block_size, slice_size, remain);
    let base = fifo.slicebase();
    let slice = Slice::new(slice_no, size, block_size, base, max_slices);
    proof {
        assert((#[verifier::truncate] (remain as u32)) as usize <= remain) by (bit_vector);
    }
    fifo.assign(size);
    slice
}

/// The number of bytes the sender reads next: enough to fill the FIFO up to
/// `MAX_BUFFER_SIZE`, rounded down to whole read chunks.
pub fn read_request(fifo_len: usize, read_chunk: usize) -> (r: usize)
    requires
        fifo_len <= MAX_BUFFER_SIZE,
        read_chunk > 0,
    ensures
        r == (MAX_BUFFER_SIZE - fifo_len) - (MAX_BUFFER_SIZE - fifo_len) % (read_chunk as int),
        r % read_chunk == 0,
        fifo_len + r <= MAX_BUFFER_SIZE,
        MAX_BUFFER_SIZE - fifo_len - r < read_chunk,
{
    let mut required: usize = MAX_BUFFER_SIZE - fifo_len;
    proof {
        vstd::arithmetic::div_mod::lemma_mod_decreases(required as nat, read_chunk as nat);
    }
    if (required % read_chunk) != 0 {
        required -= required % read_chunk;
    }
    proof {
        let q = (MAX_BUFFER_SIZE - fifo_len) as int;
        let c = read_chunk as int;
        vstd::arithmetic::div_mod::lemma_fundamental_div_mod(q, c);
        vstd::arithmetic::div_mod::lemma_mod_multiples_basic(q / c, c);
        assert((c * (q / c)) % c == 0) by (nonlinear_arith)
            requires
                ((q / c) * c) % c == 0,
        ;
    }
    required
}

/// What the sender does next in its transfer loop.
#[derive(Debug, PartialEq, Eq)]
pub enum TransferStep {
    /// Not every receiver has answered and a second has passed: ask again.
    ResendReqAck,
    /// Not every receiver has answered after ten requests: drop the silent ones.
    DropClients,
    /// Not every receiver has answered yet: keep listening.
    Wait,
    /// Every receiver has answered and some reported missing blocks: send them again.
    Retransmit,
    /// The current slice is done, or there is none: release it and send the next one.
    NextSlice,
}

/// The sender's decision in its transfer loop, from the state of the slice in flight.
pub open spec fn spec_transfer_step(
    has_slice: bool,
    nr_answered: u32,
    clients: u32,
    waited_secs: u64,
    rxmit_id: u32,
    need_rxmit: bool,
) -> TransferStep {
    if !has_slice {
        TransferStep::NextSlice
    } else if nr_answered < clients {
        if waited_secs > 0 {
            TransferStep::ResendReqAck
        } else if rxmit_id > 10 {
            TransferStep::DropClients
        } else {
            TransferStep::Wait
        }
    } else if need_rxmit {
        TransferStep::Retransmit
    } else {
        TransferStep::NextSlice
    }
}

/// The transfer loop waits for every receiver: while some receiver has not answered the
/// slice in flight, the sender asks again after a second, drops the silent receivers after
/// ten requests, and otherwise listens; it never retransmits nor moves on before all have
/// answered. Once all have, it retransmits exactly when a receiver reported missing blocks,
/// and moves on otherwise. With no slice in flight it sends the next one.
pub proof fn lemma_transfer_step(
    has_slice: bool,
    nr_answered: u32,
    clients: u32,
    waited_secs: u64,
    rxmit_id: u32,
    need_rxmit: bool,
)
    ensures
        ({
            let r = spec_transfer_step(
                has_slice,
                nr_answered,
                clients,
                waited_secs,
                rxmit_id,
                need_rxmit,
            );
            &&& !has_slice ==> r == TransferStep::NextSlice
            &&& has_slice && nr_answered < clients ==> {
                &&& r != TransferStep::Retransmit
                &&& r != TransferStep::NextSlice
                &&& (r == TransferStep::ResendReqAck <==> waited_secs > 0)
                &&& (r == TransferStep::DropClients <==> waited_secs == 0 && rxmit_id > 10)
                &&& (r == TransferStep::Wait <==> waited_secs == 0 && rxmit_id <= 10)
            }
            &&& has_slice && nr_answered >= clients ==> {
                &&& (r == TransferStep::Retransmit <==> need_rxmit)
                &&& (r == TransferStep::NextSlice <==> !need_rxmit)
            }
            &&& r == TransferStep::Retransmit ==> has_slice && nr_answered >= clients && need_rxmit
        }),
{
}

/// Decides the next step of the transfer loop.
pub fn transfer_step(
    has_slice: bool,
    nr_answered: u32,
    clients: u32,
    waited_secs: u64,
    rxmit_id: u32,
    need_rxmit: bool,
) -> (r: TransferStep)
    ensures
        r == spec_transfer_step(has_slice, nr_answered, clients, waited_secs, rxmit_id, need_rxmit),
        !has_slice ==> r == TransferStep::NextSlice,
        has_slice && nr_answered < clients ==> r != TransferStep::Retransmit && r
            != TransferStep::NextSlice,
        r == TransferStep::Retransmit ==> has_slice && nr_answered >= clients && need_rxmit,
        r == TransferStep::Wait ==> has_slice && nr_answered < clients && waited_secs == 0
            && rxmit_id <= 10,
        r == TransferStep::ResendReqAck ==> has_slice && nr_answered < clients && waited_secs > 0,
        r == TransferStep::DropClients ==> has_slice && nr_answered < clients && waited_secs == 0
            && rxmit_id > 10,
        r == TransferStep::NextSlice ==> !has_slice || (nr_answered >= clients && !need_rxmit),
{
    if has_slice {
        if nr_answered < clients {
            if waited_secs > 0 {
                return TransferStep::ResendReqAck;
            }
            if rxmit_id > 10 {
                return TransferStep::DropClients;
            }
            return TransferStep::Wait;
        }
        if need_rxmit {
            return TransferStep::Retransmit;
        }
    }
    TransferStep::NextSlice
}

/// `last_good_block` raised to the highest block below `n` that the map marks as received,
/// when retransmitting; the blocks are visited in order.
pub open spec fn raised_last_good(last_good: int, map: BitArray, rxmit: bool, n: nat) -> int
    decreases n,
{
    if n == 0 {
        last_good
    } else {
        let m = raised_last_good(last_good, map, rxmit, (n - 1) as nat);
        if rxmit && map.bit(n - 1) && n - 1 > m {
            n - 1
        } else {
            m
        }
    }
}

/// Whether block `b` is sent: always on a first pass, and on a retransmission pass only when
/// no receiver has it.
pub open spec fn wanted(map: BitArray, rxmit: bool, b: int) -> bool {
    !(rxmit && map.bit(b))
}

/// The datagram of a data block: the encoded header, then the block's bytes.
pub open spec fn spec_data_datagram(slice: Slice, blockno: u32, payload: Seq<u8>) -> Seq<u8> {
    Message::CmdData(
        DataBlock {
            reserved: 0,
            sliceno: slice.slice_no,
            blockno: blockno as u16,
            reserved2: 0,
            bytes: slice.bytes,
        },
    ).spec_encode() + payload
}

impl Slice {
    /// The blocks to send on a pass over the slice, in order; on a retransmission pass the
    /// received ones are skipped and the highest of them is kept as the last good block.
    pub fn blocks_to_send(&mut self, rxmit: bool) -> (r: Vec<u32>)
        requires
            rxmit ==> old(self).blocks_in_slice <= old(self).retransmit.map.size(),
        ensures
            forall|i: int|
                0 <= i < r@.len() ==> #[trigger] r@[i] < old(self).blocks_in_slice && wanted(
                    old(self).retransmit.map,
                    rxmit,
                    r@[i] as int,
                ),
            forall|i: int, j: int| 0 <= i < j < r@.len() ==> r@[i] < r@[j],
            forall|b: u32|
                b < old(self).blocks_in_slice && wanted(old(self).retransmit.map, rxmit, b as int)
                    ==> #[trigger] r@.contains(b),
            final(self).last_good_block == raised_last_good(
                old(self).last_good_block as int,
                old(self).retransmit.map,
                rxmit,
                old(self).blocks_in_slice as nat,
            ),
            *final(self) == (Slice {
                last_good_block: final(self).last_good_block,
                need_rxmit: false,
                ..*old(self)
            }),
    {
        let mut blocklist: Vec<u32> = Vec::new();
        let mut block_no: u32 = 0;
        let n = self.blocks_in_slice;
        while block_no < n
            invariant
                n == old(self).blocks_in_slice,
                block_no <= n,
                rxmit ==> n <= self.retransmit.map.size(),
                *self == (Slice { last_good_block: self.last_good_block, ..*old(self) }),
                self.last_good_block == raised_last_good(
                    old(self).last_good_block as int,
                    old(self).retransmit.map,
                    rxmit,
                    block_no as nat,
                ),
                forall|i: int|
                    0 <= i < blocklist@.len() ==> #[trigger] blocklist@[i] < block_no && wanted(
                        old(self).retransmit.map,
                        rxmit,
                        blocklist@[i] as int,
                    ),
                forall|i: int, j: int|
                    0 <= i < j < blocklist@.len() ==> blocklist@[i] < blocklist@[j],
                forall|b: u32|
                    b < block_no && wanted(old(self).retransmit.map, rxmit, b as int)
                        ==> #[trigger] blocklist@.contains(b),
            decreases n - block_no,
        {
            if rxmit && self.retransmit.map.get(block_no as usize) {
                if block_no > self.last_good_block {
                    self.last_good_block = block_no;
                }
                block_no += 1;
                continue;
            }
            let ghost before = blocklist@;
            blocklist.push(block_no);
            proof {
                assert forall|b: u32|
                    b < block_no + 1 && wanted(old(self).retransmit.map, rxmit, b as int)
                        implies #[trigger] blocklist@.contains(b) by {
                    if b < block_no {
                        assert(before.contains(b));
                        let k = choose|k: int| 0 <= k < before.len() && before[k] == b;
                        assert(blocklist@[k] == b);
                    } else {
                        assert(blocklist@[blocklist@.len() - 1] == b);
                    }
                }
            }
            block_no += 1;
        }
        self.need_rxmit = false;
        blocklist
    }

    /// Records the acknowledgement of receiver `client_no`.
    pub fn handle_ok(&mut self, client_no: usize)
        requires
            client_no < old(self).ready_set.size(),
            old(self).nr_answered < u32::MAX,
        ensures
            final(self).ready_set.size() == old(self).ready_set.size(),
            final(self).ready_set.bit(client_no as int),
            forall|j: int|
                0 <= j < old(self).ready_set.size() && j != client_no ==> #[trigger] final(
                    self).ready_set.bit(j) == old(self).ready_set.bit(j),
            *final(self) == (Slice {
                ready_set: final(self).ready_set,
                nr_answered: (old(self).nr_answered + 1) as u32,
                ..*old(self)
            }),
    {
        self.ready_set.set(client_no, true);
        self.nr_answered += 1;
    }

    /// Withdraws receiver `client_no`, which had answered, from the slice.
    pub fn remove_client(&mut self, client_no: usize)
        requires
            client_no < old(self).ready_set.size(),
            old(self).nr_answered >= 1,
        ensures
            final(self).ready_set.size() == old(self).ready_set.size(),
            !final(self).ready_set.bit(client_no as int),
            forall|j: int|
                0 <= j < old(self).ready_set.size() && j != client_no ==> #[trigger] final(
                    self).ready_set.bit(j) == old(self).ready_set.bit(j),
            *final(self) == (Slice {
                ready_set: final(self).ready_set,
                nr_answered: (old(self).nr_answered - 1) as u32,
                ..*old(self)
            }),
    {
        self.ready_set.set(client_no, false);
        self.nr_answered -= 1;
    }

    /// Records a receiver's retransmit request: it counts as an answer, and unless it answers
    /// an older request its map of received blocks is merged into the slice's map.
    pub fn handle_retransmit(&mut self, msg: &MsgRetransmit, map: Vec<u8>) -> (r: bool)
        requires
            old(self).nr_answered < u32::MAX,
            msg.rxmit >= old(self).rxmit_id ==> map@.len()
                == old(self).retransmit.map.bytes().len(),
        ensures
            r,
            msg.rxmit < old(self).rxmit_id ==> *final(self) == (Slice {
                nr_answered: (old(self).nr_answered + 1) as u32,
                ..*old(self)
            }),
            msg.rxmit >= old(self).rxmit_id ==> {
                &&& *final(self) == (Slice {
                    nr_answered: (old(self).nr_answered + 1) as u32,
                    need_rxmit: true,
                    retransmit: Retransmit { map: final(self).retransmit.map, ..old(self).retransmit },
                    ..*old(self)
                })
                &&& final(self).retransmit.map.size() == old(self).retransmit.map.size()
                &&& final(self).retransmit.map.bytes().len() == map@.len()
                &&& forall|i: int|
                    0 <= i < map@.len() ==> #[trigger] final(self).retransmit.map.bytes()[i] == (
                    old(self).retransmit.map.bytes()[i] | map@[i])
            },
    {
        self.nr_answered += 1;
        if msg.rxmit < self.rxmit_id {
            return true;
        }
        let received = BitArray::from(map);
        proof {
            crate::bitarray::lemma_from_bytes(map);
        }
        self.retransmit.map.bitor_assign(received);
        self.need_rxmit = true;
        true
    }

    /// Opens a new round of requests for the slice.
    pub fn next_rxmit(&mut self)
        requires
            old(self).rxmit_id < u32::MAX,
        ensures
            *final(self) == (Slice { rxmit_id: (old(self).rxmit_id + 1) as u32, ..*old(self) }),
    {
        self.rxmit_id += 1;
    }

    /// The acknowledgement request for the slice: the request, stamped with the current
    /// round, followed by the map of receivers that have answered. The last good block is reset.
    pub fn reqack_datagram(&mut self) -> (r: Vec<u8>)
        ensures
            *final(self) == (Slice {
                reqack: MsgReqAck { rxmit: old(self).rxmit_id, ..old(self).reqack },
                last_good_block: 0,
                ..*old(self)
            }),
            r@ == Message::CmdReqack(final(self).reqack).spec_encode() + old(
                self,
            ).ready_set.bytes(),
    {
        self.reqack.rxmit = self.rxmit_id;
        self.last_good_block = 0;
        let mut msg = Message::CmdReqack(self.reqack).encode();
        let mut bits = self.ready_set.bits();
        msg.append(&mut bits);
        msg
    }
}

/// The datagram of block `blockno` of `slice`: its header, then up to `blocksize` bytes of
/// the FIFO from the block's position, cut short at the end point.
pub fn data_datagram(slice: &mut Slice, fifo: &mut DataFIFO, blockno: u32, blocksize: u32) -> (r:
    Vec<u8>)
    requires
        old(slice).block_size * blockno <= u32::MAX,
        old(slice).base + old(slice).block_size * blockno <= usize::MAX,
        ({
            let pos = old(slice).base + old(slice).block_size * blockno;
            let n = if pos + blocksize > old(fifo)@.endpoint {
                old(fifo)@.endpoint - pos
            } else {
                blocksize as int
            };
            &&& old(fifo)@.wf()
            &&& pos <= old(fifo)@.endpoint
            &&& pos + blocksize <= usize::MAX
            &&& ring_fits(old(fifo)@.capacity as int, pos, n)
            &&& pos % (old(fifo)@.capacity as int) + blocksize <= usize::MAX
        }),
    ensures
        ({
            let pos = old(slice).base + old(slice).block_size * blockno;
            let n = if pos + blocksize > old(fifo)@.endpoint {
                old(fifo)@.endpoint - pos
            } else {
                blocksize as int
            };
            r@ == spec_data_datagram(*old(slice), blockno, ring_read(old(fifo)@.buffer, pos, n))
        }),
        *final(slice) == *old(slice),
        *final(fifo) == *old(fifo),
{
    #[verifier::truncate]
    let blockno16 = blockno as u16;
    let mut msg = Message::CmdData(DataBlock::new(slice.slice_no, blockno16, slice.bytes)).encode();
    let pos = slice.get_block_pos(blockno);
    let mut data = fifo.get(pos, blocksize);
    msg.append(&mut data);
    msg
}

/// The datagram that tells a receiver the transfer is over: an acknowledgement request for
/// slice `slice_no` with no bytes and no round, followed by an empty map of receivers.
pub fn disconnect_datagram(slice_no: u32) -> (r: Vec<u8>)
    ensures
        r@ == Message::CmdReqack(MsgReqAck { reserved: 0, sliceno: slice_no, bytes: 0, rxmit: 0 }).spec_encode()
            + Seq::new(128, |i: int| 0u8),
{
    let reqack = MsgReqAck::new(slice_no, 0, 0);
    let mut msg = Message::CmdReqack(reqack).encode();
    let mut ready_set = BitArray::new(MAX_CLIENTS as usize);
    let mut bits = ready_set.bits();
    msg.append(&mut bits);
    msg
}

/// What the sender keeps of a client: its number, capabilities and receive buffer size.
pub type ClientInfo = (usize, u32, u32);

/// Keys of client addresses stay below this bound.
pub const KEY_LIMIT: u64 = 0x1_0000_0000_0000;

/// The key under which the client at `addr` (IPv4 address as a big-endian integer, and UDP
/// port) is kept: the address above the port.
pub open spec fn client_key(addr: (u32, u16)) -> u64 {
    (addr.0 * 0x1_0000 + addr.1) as u64
}

/// The client address a key stands for.
pub open spec fn key_addr(k: u64) -> (u32, u16) {
    ((k / 0x1_0000) as u32, (k % 0x1_0000) as u16)
}

/// Every address has a key below `KEY_LIMIT`, from which the address is read back.
pub proof fn lemma_client_key(addr: (u32, u16))
    ensures
        client_key(addr) < KEY_LIMIT,
        key_addr(client_key(addr)) == addr,
{
    let a = addr.0 as int;
    let p = addr.1 as int;
    assert(0 <= a * 0x1_0000 + p < KEY_LIMIT) by (nonlinear_arith)
        requires
            0 <= a <= u32::MAX,
            0 <= p <= u16::MAX,
    ;
    vstd::arithmetic::div_mod::lemma_fundamental_div_mod_converse(a * 0x1_0000 + p, 0x1_0000, a, p);
}

/// Every key below `KEY_LIMIT` is the key of the address it stands for.
pub proof fn lemma_key_addr(k: u64)
    requires
        k < KEY_LIMIT,
    ensures
        client_key(key_addr(k)) == k,
{
    assert(k / 0x1_0000 < 0x1_0000_0000) by (nonlinear_arith)
        requires
            k < KEY_LIMIT,
    ;
    vstd::arithmetic::div_mod::lemma_fundamental_div_mod(k as int, 0x1_0000);
}

/// The key of the client at `addr`.
fn key_of(addr: (u32, u16)) -> (r: u64)
    ensures
        r == client_key(addr),
{
    proof {
        lemma_client_key(addr);
    }
    let a = addr.0 as u64;
    assert(a * 0x1_0000 + addr.1 <= u64::MAX) by (nonlinear_arith)
        requires
            a <= u32::MAX,
            addr.1 <= u16::MAX,
    ;
    a * 0x1_0000 + addr.1 as u64
}

/// The client address a key below `KEY_LIMIT` stands for.
fn addr_of(k: u64) -> (r: (u32, u16))
    requires
        k < KEY_LIMIT,
    ensures
        r == key_addr(k),
        client_key(r) == k,
{
    proof {
        lemma_key_addr(k);
    }
    assert(k / 0x1_0000 < 0x1_0000_0000) by (nonlinear_arith)
        requires
            k < KEY_LIMIT,
    ;
    ((k / 0x1_0000) as u32, (k % 0x1_0000) as u16)
}

/// Whether the client under key `k` is in `m` and has not answered, by `ready`, the map of
/// receivers that have.
pub open spec fn unanswered_key(m: Map<u64, ClientInfo>, ready: BitArray, k: u64) -> bool {
    m.contains_key(k) && !ready.bit(m[k].0 as int)
}

/// The receivers known to the sender, by the key of their address.
#[derive(Debug)]
pub struct ClientList {
    clients: HashMap<u64, ClientInfo>,
}

impl View for ClientList {
    type V = Map<u64, ClientInfo>;

    closed spec fn view(&self) -> Map<u64, ClientInfo> {
        self.clients@
    }
}

impl ClientList {
    #[verifier::type_invariant]
    spec fn inv(self) -> bool {
        forall|k: u64| #[trigger] self.clients@.contains_key(k) ==> k < KEY_LIMIT
    }

    /// No client yet.
    pub fn new() -> (r: Self)
        ensures
            r@ == Map::<u64, ClientInfo>::empty(),
    {
        ClientList { clients: HashMap::new() }
    }

    /// The number of clients.
    pub fn len(&self) -> (r: usize)
        ensures
            r == self@.len(),
            self@.dom().finite(),
    {
        broadcast use vstd::std_specs::hash::group_hash_axioms;

        self.clients.len()
    }

    /// What the list holds for the client at `addr`.
    pub fn get(&self, addr: (u32, u16)) -> (r: Option<ClientInfo>)
        ensures
            r == if self@.contains_key(client_key(addr)) {
                Some(self@[client_key(addr)])
            } else {
                None
            },
    {
        broadcast use vstd::std_specs::hash::group_hash_axioms;

        let k = key_of(addr);
        match self.clients.get(&k) {
            Some(info) => Some(*info),
            None => None,
        }
    }

    /// Whether the client at `addr` is in the list.
    pub fn contains(&self, addr: (u32, u16)) -> (r: bool)
        ensures
            r == self@.contains_key(client_key(addr)),
    {
        broadcast use vstd::std_specs::hash::group_hash_axioms;

        let k = key_of(addr);
        self.clients.contains_key(&k)
    }

    /// Removes the client at `addr`, if it is there.
    pub fn remove(&mut self, addr: (u32, u16))
        ensures
            final(self)@ == old(self)@.remove(client_key(addr)),
    {
        broadcast use vstd::std_specs::hash::group_hash_axioms;

        proof {
            use_type_invariant(&*self);
        }
        let k = key_of(addr);
        let mut taken = ClientList::new();
        std::mem::swap(self, &mut taken);
        let mut clients = taken.clients;
        clients.remove(&k);
        *self = ClientList { clients };
    }

    /// Whether every client's number is below `bound`.
    pub fn numbered_below(&self, bound: usize) -> (r: bool)
        ensures
            r == forall|k: u64| #[trigger] self@.contains_key(k) ==> self@[k].0 < bound,
    {
        broadcast use vstd::std_specs::hash::group_hash_axioms;

        let values = self.clients.values();
        let ghost seq = values.remaining();
        for v in it: values
            invariant
                seq == spec_values_iter(&self.clients).remaining(),
                it.seq() == seq,
                forall|j: int| 0 <= j < it.index() ==> (#[trigger] seq[j]).0 < bound,
        {
            let ghost idx = it.index();
            if v.0 >= bound {
                proof {
                    assert(v == it.seq()[idx]);
                    assert(seq.unref()[idx] == *seq[idx]);
                    assert(seq.unref().to_set().contains(*v));
                    assert(self.clients@.values().contains(*v));
                    let k = choose|k: u64| #[trigger] self.clients@.contains_key(k)
                        && self.clients@[k] == *v;
                    assert(self@.contains_key(k));
                }
                return false;
            }
            proof {
                assert(v == it.seq()[idx]);
            }
        }
        proof {
            assert forall|k: u64| #[trigger] self@.contains_key(k) implies self@[k].0 < bound by {
                assert(self.clients@.values().contains(self.clients@[k]));
                assert(seq.unref().to_set().contains(self.clients@[k]));
                let j = seq.unref().index_of(self.clients@[k]);
                assert(*seq[j] == self.clients@[k]);
            }
        }
        true
    }

    /// The addresses of the clients that have not answered, by `ready`, the map of receivers
    /// that have; each address once.
    pub fn unanswered(&self, ready: &BitArray) -> (r: Vec<(u32, u16)>)
        requires
            forall|k: u64| #[trigger] self@.contains_key(k) ==> self@[k].0 < ready.size(),
        ensures
            forall|a: (u32, u16)| #[trigger]
                r@.contains(a) <==> unanswered_key(self@, *ready, client_key(a)),
            r@.no_duplicates(),
    {
        broadcast use vstd::std_specs::hash::group_hash_axioms;

        proof {
            use_type_invariant(self);
        }
        let mut out: Vec<(u32, u16)> = Vec::new();
        let keys = self.clients.keys();
        let ghost seq = keys.remaining();
        for k in it: keys
            invariant
                seq == spec_keys_iter(&self.clients).remaining(),
                it.seq() == seq,
                forall|k: u64| #[trigger] self.clients@.contains_key(k) ==> k < KEY_LIMIT,
                forall|k: u64| #[trigger] self@.contains_key(k) ==> self@[k].0 < ready.size(),
                forall|a: (u32, u16)| #[trigger]
                    out@.contains(a) <==> (exists|j: int|
                        0 <= j < it.index() && *it.seq()[j] == client_key(a))
                        && unanswered_key(self@, *ready, client_key(a)),
                out@.no_duplicates(),
        {
            let ghost idx = it.index();
            proof {
                assert(k == it.seq()[idx]);
                assert(seq.unref()[idx] == *seq[idx]);
                assert(seq.unref().to_set().contains(*k));
                assert(self.clients@.contains_key(*k));
            }
            let addr = addr_of(*k);
            let info = *self.clients.get(k).unwrap();
            proof {
                assert(self@.contains_key(*k));
                assert(info == self@[*k]);
            }
            let ghost before = out@;
            let answered = ready.get(info.0);
            if !answered {
                proof {
                    assert forall|j: int| 0 <= j < idx implies *it.seq()[j] != *k by {
                        assert(seq.no_duplicates());
                    }
                    assert(!out@.contains(addr));
                }
                out.push(addr);
            }
            proof {
                assert forall|a: (u32, u16)| #[trigger]
                    out@.contains(a) <==> (exists|j: int|
                        0 <= j < idx + 1 && *it.seq()[j] == client_key(a))
                        && unanswered_key(self@, *ready, client_key(a)) by {
                    lemma_client_key(a);
                    if !answered {
                        assert(out@ == before.push(addr));
                        if before.contains(a) {
                            let w = choose|w: int| 0 <= w < before.len() && before[w] == a;
                            assert(out@[w] == a);
                        }
                        if out@.contains(a) && a != addr {
                            let w = choose|w: int| 0 <= w < out@.len() && out@[w] == a;
                            assert(before[w] == a);
                        }
                        assert(out@[before.len() as int] == addr);
                    }
                    if client_key(a) == *k {
                        assert(a == addr);
                        assert(*it.seq()[idx] == client_key(a));
                    } else {
                        if exists|j: int| 0 <= j < idx + 1 && *it.seq()[j] == client_key(a) {
                            let j = choose|j: int| 0 <= j < idx + 1 && *it.seq()[j] == client_key(a);
                            assert(j < idx);
                        }
                    }
                }
            }
        }
        proof {
            assert forall|a: (u32, u16)| #[trigger]
                out@.contains(a) <==> unanswered_key(self@, *ready, client_key(a)) by {
                if unanswered_key(self@, *ready, client_key(a)) {
                    assert(seq.unref().to_set().contains(client_key(a)));
                    let j = seq.unref().index_of(client_key(a));
                    assert(*seq[j] == client_key(a));
                }
            }
        }
        out
    }

    /// Adds the client at `addr` with `info`.
    fn add(&mut self, addr: (u32, u16), info: ClientInfo)
        ensures
            final(self)@ == old(self)@.insert(client_key(addr), info),
    {
        broadcast use vstd::std_specs::hash::group_hash_axioms;

        proof {
            use_type_invariant(&*self);
            lemma_client_key(addr);
        }
        let k = key_of(addr);
        let mut taken = ClientList::new();
        std::mem::swap(self, &mut taken);
        let mut clients = taken.clients;
        clients.insert(k, info);
        *self = ClientList { clients };
    }
}

/// The clients after a connect request from `addr`: an address not yet known is added,
/// numbered by the count of clients so far.
pub open spec fn after_connect(
    m: Map<u64, ClientInfo>,
    addr: (u32, u16),
    capabilities: u32,
    rcvbuf: u32,
) -> Map<u64, ClientInfo> {
    if m.contains_key(client_key(addr)) {
        m
    } else {
        m.insert(client_key(addr), (m.len() as usize, capabilities, rcvbuf))
    }
}

/// Every client has a number below the count of clients, and no two share one.
pub open spec fn numbered_apart(m: Map<u64, ClientInfo>) -> bool {
    &&& forall|k: u64| #[trigger] m.contains_key(k) ==> m[k].0 < m.len()
    &&& forall|k1: u64, k2: u64|
        #![trigger m[k1], m[k2]]
        m.contains_key(k1) && m.contains_key(k2) && k1 != k2 ==> m[k1].0 != m[k2].0
}

/// While no receiver leaves, each one has its own number: connect requests keep the clients
/// numbered apart, and no clients at all are numbered apart.
pub proof fn lemma_connect_numbers_apart(
    m: Map<u64, ClientInfo>,
    addr: (u32, u16),
    capabilities: u32,
    rcvbuf: u32,
)
    requires
        m.dom().finite(),
        m.len() < usize::MAX,
        numbered_apart(m),
    ensures
        numbered_apart(Map::<u64, ClientInfo>::empty()),
        numbered_apart(after_connect(m, addr, capabilities, rcvbuf)),
        after_connect(m, addr, capabilities, rcvbuf).dom().finite(),
{
    let k = client_key(addr);
    if !m.contains_key(k) {
        let n = m.insert(k, (m.len() as usize, capabilities, rcvbuf));
        assert(n.len() == m.len() + 1);
        assert forall|k1: u64, k2: u64|
            n.contains_key(k1) && n.contains_key(k2) && k1 != k2 implies #[trigger] n[k1].0
            != #[trigger] n[k2].0 by {
            if k1 != k && k2 != k {
                assert(m[k1].0 != m[k2].0);
            } else if k1 == k {
                assert(m.contains_key(k2));
            } else {
                assert(m.contains_key(k1));
            }
        }
    }
}

/// What the sender hears while it waits for receivers.
#[derive(Debug, Clone, Copy, PartialEq, Eq)]
pub enum EnumEvent {
    /// A receiver at `addr` asks to join.
    ConnectReq { addr: (u32, u16), capabilities: u32, rcvbuf: u32 },
    /// The receiver at `addr` leaves.
    Disconnect { addr: (u32, u16) },
    /// A receiver asks to start now.
    Go,
    /// Any other message.
    Other,
}

/// What the sender does about it.
#[derive(Debug, Clone, Copy, PartialEq, Eq)]
pub enum EnumAction {
    /// Answer the receiver with its client number.
    Reply { clnr: u32 },
    /// Stop waiting and start the transfer.
    Stop,
    /// Keep waiting.
    Continue,
}

/// One step of the sender's wait for receivers: a new receiver is numbered by the count of
/// clients so far and every connect request is answered with the requester's number; a
/// disconnect removes the client; a go ends the wait.
pub fn enumerate_step(clients: &mut ClientList, ev: EnumEvent) -> (r: EnumAction)
    ensures
        match ev {
            EnumEvent::ConnectReq { addr, capabilities, rcvbuf } => {
                let k = client_key(addr);
                let known = old(clients)@.contains_key(k);
                &&& final(clients)@ == after_connect(old(clients)@, addr, capabilities, rcvbuf)
                &&& r == EnumAction::Reply {
                    clnr: (if known {
                        old(clients)@[k].0
                    } else {
                        old(clients)@.len() as usize
                    }) as u32,
                }
            },
            EnumEvent::Disconnect { addr } => {
                &&& final(clients)@ == old(clients)@.remove(client_key(addr))
                &&& r == EnumAction::Continue
            },
            EnumEvent::Go => final(clients)@ == old(clients)@ && r == EnumAction::Stop,
            EnumEvent::Other => final(clients)@ == old(clients)@ && r == EnumAction::Continue,
        },
{
    match ev {
        EnumEvent::ConnectReq { addr, capabilities, rcvbuf } => {
            let client_no = match clients.get(addr) {
                Some(client) => client.0,
                None => {
                    let client_no = clients.len();
                    clients.add(addr, (client_no, capabilities, rcvbuf));
                    client_no
                },
            };
            EnumAction::Reply { clnr: #[verifier::truncate] (client_no as u32) }
        },
        EnumEvent::Disconnect { addr } => {
            clients.remove(addr);
            EnumAction::Continue
        },
        EnumEvent::Go => EnumAction::Stop,
        EnumEvent::Other => EnumAction::Continue,
    }
}

/// The sender found no receiver.
#[derive(Debug, Clone, Copy, PartialEq, Eq)]
pub enum EnumError {
    NoClients,
}

/// The outcome of the sender's wait: how many receivers joined, and whether the transfer goes
/// straight to the only receiver instead of the multicast group.
#[derive(Debug, Clone, Copy, PartialEq, Eq)]
pub struct EnumReady {
    pub clients: usize,
    pub direct: bool,
}

/// The end of the wait for receivers: with `n` receivers the transfer starts, sent straight to
/// the receiver when point-to-point was asked and there is exactly one; with none it fails.
pub fn enumerate_result(n: usize, p2p: bool) -> (r: Result<EnumReady, EnumError>)
    ensures
        r == if n > 0 {
            Ok(EnumReady { clients: n, direct: p2p && n == 1 })
        } else {
            Err(EnumError::NoClients)
        },
{
    if n > 0 {
        Ok(EnumReady { clients: n, direct: n == 1 && p2p })
    } else {
        Err(EnumError::NoClients)
    }
}

/// The key that stops the sender after the slice in flight.
pub const QUIT_KEY: char = 'q';

/// Whether the key pressed, if any, asks the sender to stop once the current slice is through.
pub fn quit_requested(key: Option<char>) -> (r: bool)
    ensures
        r == (key == Some(QUIT_KEY)),
{
    match key {
        Some(c) => c == QUIT_KEY,
        None => false,
    }
}

/// Whether the transfer is over: the slice just made holds no data, as nothing is left to send.
pub fn transfer_over(next: &Slice) -> (r: bool)
    ensures
        r == (next.bytes == 0),
{
    next.bytes == 0
}

} // verus!
