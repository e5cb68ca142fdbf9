use vstd::prelude::*;

use crate::bitarray::{packed_bit, BitArray};
use crate::datafifo::{ring_fits, ring_write, DataFIFO, FifoState};
use crate::packet::{Message, MsgReqAck, MsgRetransmit, Retransmit};
use crate::wire::from_be32;
use crate::slice::Slice;
use crate::RUNNING;

verus! {

/// Largest amount the disk writer takes out of the FIFO at once.
pub const MAX_WRITE_SIZE: usize = 20 * 1024 * 1024;

/// Whether receiver `client_number` is marked in the map of receivers that have answered,
/// the map being read as one addressable bit per byte it holds.
pub fn already_acknowledged(ready_set: Vec<u8>, client_number: u32) -> (r: bool)
    requires
        client_number < ready_set@.len(),
    ensures
        r == packed_bit(ready_set@, client_number as int),
        r <==> ready_set@[client_number as int / 8] & (1u8 << ((client_number as int % 8) as u8)) != 0,
{
    proof {
        crate::bitarray::lemma_packed_bit_mask(ready_set@, client_number as int);
    }
    let ghost v = ready_set;
    let bits = BitArray::from(ready_set);
    proof {
        crate::bitarray::lemma_from_bytes(v);
    }
    bits.get(client_number as usize)
}

/// What the receiver does with an acknowledgement request it has not answered yet.
#[derive(Debug, PartialEq, Eq)]
pub enum ReqAckAction {
    /// The request for no bytes in no round ends the transfer: close the FIFO, acknowledge.
    Finish,
    /// The slice is complete: acknowledge it.
    Acknowledge,
    /// Blocks are missing: ask for them.
    RequestRetransmit,
}

/// The receiver's answer to an acknowledgement request, given whether its slice is complete.
pub open spec fn spec_reqack_action(msg: MsgReqAck, completed: bool) -> ReqAckAction {
    if msg.rxmit == 0 && msg.bytes == 0 {
        ReqAckAction::Finish
    } else if completed {
        ReqAckAction::Acknowledge
    } else {
        ReqAckAction::RequestRetransmit
    }
}

/// A receiver finishes on the request for no bytes in round zero, which ends the transfer;
/// to any other request it answers with an acknowledgement exactly when its slice is
/// complete, and asks for the missing blocks exactly when it is not.
pub proof fn lemma_reqack_action(msg: MsgReqAck, completed: bool)
    ensures
        msg.rxmit == 0 && msg.bytes == 0 ==> spec_reqack_action(msg, completed)
            == ReqAckAction::Finish,
        msg.rxmit != 0 || msg.bytes != 0 ==> {
            &&& (spec_reqack_action(msg, completed) == ReqAckAction::Acknowledge <==> completed)
            &&& (spec_reqack_action(msg, completed) == ReqAckAction::RequestRetransmit
                <==> !completed)
        },
        spec_reqack_action(msg, completed) == ReqAckAction::Acknowledge ==> completed,
{
}

/// Decides the answer to an acknowledgement request.
pub fn reqack_action(msg: &MsgReqAck, completed: bool) -> (r: ReqAckAction)
    ensures
        r == spec_reqack_action(*msg, completed),
        r == ReqAckAction::Finish <==> msg.rxmit == 0 && msg.bytes == 0,
        r == ReqAckAction::Acknowledge <==> completed && (msg.rxmit != 0 || msg.bytes != 0),
        r == ReqAckAction::RequestRetransmit <==> !completed && (msg.rxmit != 0 || msg.bytes
            != 0),
{
    if msg.rxmit == 0 && msg.bytes == 0 {
        ReqAckAction::Finish
    } else if completed {
        ReqAckAction::Acknowledge
    } else {
        ReqAckAction::RequestRetransmit
    }
}

/// The number of bytes the disk writer takes out of the FIFO: all pending bytes, rounded
/// down to whole write chunks while the FIFO is open, and at most `MAX_WRITE_SIZE`.
pub open spec fn spec_write_request(len: usize, closed: bool, write_chunk: usize) -> int {
    let whole = if !closed {
        len - len % write_chunk
    } else {
        len as int
    };
    if whole > MAX_WRITE_SIZE {
        MAX_WRITE_SIZE as int
    } else {
        whole
    }
}

/// What the disk writer takes out of the FIFO: never more than is pending, nor more than
/// `MAX_WRITE_SIZE`. Once the FIFO is closed it takes everything pending up to that cap.
/// While it is open it takes every whole write chunk pending (a multiple of `write_chunk`
/// that leaves less than one chunk behind), unless that is more than the cap, in which case
/// it takes exactly the cap.
pub proof fn lemma_write_request(len: usize, closed: bool, write_chunk: usize)
    requires
        write_chunk > 0,
    ensures
        ({
            let r = spec_write_request(len, closed, write_chunk);
            let c = write_chunk as int;
            &&& 0 <= r <= len
            &&& r <= MAX_WRITE_SIZE
            &&& closed ==> r == (if len <= MAX_WRITE_SIZE {
                len as int
            } else {
                MAX_WRITE_SIZE as int
            })
            &&& !closed ==> {
                ||| r % c == 0 && len - r < c
                ||| r == MAX_WRITE_SIZE && len - len % write_chunk > MAX_WRITE_SIZE
            }
            &&& !closed && len <= MAX_WRITE_SIZE ==> r % c == 0 && len - r < c
        }),
{
    let c = write_chunk as int;
    let l = len as int;
    vstd::arithmetic::div_mod::lemma_fundamental_div_mod(l, c);
    vstd::arithmetic::div_mod::lemma_mod_pos_bound(l, c);
    let q = l / c;
    vstd::arithmetic::div_mod::lemma_mod_multiples_basic(q, c);
    assert(l - l % c == q * c) by (nonlinear_arith)
        requires
            l == c * q + l % c,
    ;
}

/// Decides how many bytes the disk writer takes out of the FIFO.
pub fn write_request(len: usize, closed: bool, write_chunk: usize) -> (r: usize)
    requires
        write_chunk > 0,
    ensures
        r == spec_write_request(len, closed, write_chunk),
        r <= len,
        r <= MAX_WRITE_SIZE,
        closed ==> r == len || r == MAX_WRITE_SIZE,
        !closed && len <= MAX_WRITE_SIZE ==> r % write_chunk == 0 && len - r < write_chunk,
        !closed ==> (r % write_chunk == 0 && len - r < write_chunk) || (r == MAX_WRITE_SIZE
            && len - len % write_chunk > MAX_WRITE_SIZE),
{
    proof {
        lemma_write_request(len, closed, write_chunk);
    }
    let mut size = len;
    proof {
        vstd::arithmetic::div_mod::lemma_mod_decreases(len as nat, write_chunk as nat);
    }
    if !closed && ((size % write_chunk) != 0) {
        size -= size % write_chunk;
    }
    if size > MAX_WRITE_SIZE {
        size = MAX_WRITE_SIZE;
    }
    size
}

/// The stream position of block `blockno` of `slice`.
pub open spec fn block_pos(slice: Slice, blockno: u16) -> int {
    slice.base + slice.block_size * blockno
}

/// Files a received data block: a block not received before is recorded in the slice and its
/// bytes are copied into the FIFO at the block's position; a duplicate changes nothing.
pub fn receive_block(slice: &mut Slice, fifo: &mut DataFIFO, blockno: u16, data: &[u8]) -> (r:
    bool)
    requires
        blockno < old(slice).retransmit.map.size(),
        !old(slice).retransmit.map.bit(blockno as int) ==> old(slice).blocks_transferred
            < u32::MAX,
        old(slice).block_size * blockno <= u32::MAX,
        block_pos(*old(slice), blockno) <= usize::MAX,
        old(fifo)@.wf(),
        ring_fits(old(fifo)@.capacity as int, block_pos(*old(slice), blockno), data@.len() as int),
        block_pos(*old(slice), blockno) % (old(fifo)@.capacity as int) + data@.len() <= usize::MAX,
    ensures
        r == RUNNING,
        final(slice).retransmit.map.bit(blockno as int),
        final(slice).retransmit.map.size() == old(slice).retransmit.map.size(),
        forall|j: int|
            0 <= j < old(slice).retransmit.map.size() && j != blockno ==> #[trigger] final(
                slice).retransmit.map.bit(j) == old(slice).retransmit.map.bit(j),
        old(slice).counts_received() ==> final(slice).counts_received(),
        !old(slice).retransmit.map.bit(blockno as int) ==> {
            &&& final(slice).blocks_transferred == old(slice).blocks_transferred + 1
            &&& final(fifo)@.buffer == ring_write(
                old(fifo)@.buffer,
                block_pos(*old(slice), blockno),
                data@,
            )
        },
        old(slice).retransmit.map.bit(blockno as int) ==> {
            &&& final(slice).blocks_transferred == old(slice).blocks_transferred
            &&& final(fifo)@.buffer == old(fifo)@.buffer
        },
        final(fifo)@ == (FifoState { buffer: final(fifo)@.buffer, ..old(fifo)@ }),
        *final(slice) == (Slice {
            retransmit: Retransmit { map: final(slice).retransmit.map, ..old(slice).retransmit },
            blocks_transferred: final(slice).blocks_transferred,
            ..*old(slice)
        }),
{
    if slice.update_block(blockno as u32) {
        let pos = slice.get_block_pos(blockno as u32);
        fifo.set(pos, data);
    }
    RUNNING
}

/// The request to retransmit the blocks of the slice that are missing: the request for the
/// slice and round of `msg`, followed by the map of blocks received.
pub fn retransmit_datagram(slice: &mut Slice, msg: &MsgReqAck) -> (r: Vec<u8>)
    ensures
        r@ == Message::CmdRetransmit(
            MsgRetransmit { reserved: 0, sliceno: msg.sliceno, rxmit: msg.rxmit },
        ).spec_encode() + old(slice).retransmit.map.bytes(),
        *final(slice) == *old(slice),
{
    let mut map = slice.retransmit.map.bits();
    let mut buffer = Message::CmdRetransmit(MsgRetransmit::new(msg.sliceno, msg.rxmit)).encode();
    buffer.append(&mut map);
    buffer
}

/// Opens slice `slice_no` of `bytes` bytes on the receiving side: its room is reserved in the
/// FIFO at the slice base.
pub fn reserve_slice(
    fifo: &mut DataFIFO,
    slice_no: u32,
    bytes: u32,
    block_size: u32,
    max_slices: u32,
) -> (r: Slice)
    requires
        old(fifo)@.slicebase + bytes <= usize::MAX,
        block_size > 0,
        bytes + block_size <= u32::MAX,
    ensures
        r.is_new(slice_no, bytes, block_size, old(fifo)@.slicebase as usize, max_slices),
        r.counts_received(),
        final(fifo)@ == (FifoState {
            slicebase: (old(fifo)@.slicebase + bytes) as nat,
            endpoint: old(fifo)@.slicebase,
            ..old(fifo)@
        }),
{
    let base = fifo.reserve(bytes);
    Slice::new(slice_no, bytes, block_size, base, max_slices)
}

/// What a receiver has learned while it asks to join a transfer.
#[derive(Debug, Clone, Copy, PartialEq, Eq)]
pub struct ConnectState {
    /// The number the sender gave this receiver.
    pub client_number: u32,
    pub block_size: u32,
    pub max_slices: u32,
    /// The multicast group, as a big-endian IPv4 address.
    pub mcast_ip: u32,
    /// Whether the connect request has gone out since the last hello.
    pub connect_req_sent: bool,
}

/// What the receiver does after a message heard while it asks to join.
#[derive(Debug, Clone, Copy, PartialEq, Eq)]
pub enum ConnectAction {
    /// The sender accepted: the receiver is connected.
    Connected,
    /// The sender answered with the number that means it takes no more receivers.
    Refused,
    /// Keep asking.
    Continue,
}

/// The client number with which a sender refuses a receiver.
pub const REFUSED_CLIENT: u32 = 0xffff_ffff;

/// One step of a receiver's request to join: a connect reply sets the client number, block
/// size, slice limit and multicast group, and connects unless it carries `REFUSED_CLIENT`; a
/// hello sets the block size and multicast group and has the connect request sent again.
pub fn connect_step(state: &mut ConnectState, msg: &Message) -> (r: ConnectAction)
    ensures
        match *msg {
            Message::CmdConnectReply(m) => {
                &&& *final(state) == ConnectState {
                    client_number: m.clnr,
                    block_size: m.blocksize,
                    max_slices: m.max_slices,
                    mcast_ip: from_be32(m.mcastaddr@.subrange(0, 4)),
                    ..*old(state)
                }
                &&& r == if m.clnr == REFUSED_CLIENT {
                    ConnectAction::Refused
                } else {
                    ConnectAction::Connected
                }
            },
            Message::CmdHello(m) => {
                &&& *final(state) == ConnectState {
                    block_size: m.blocksize as u32,
                    mcast_ip: from_be32(m.mcastaddr@.subrange(0, 4)),
                    connect_req_sent: false,
                    ..*old(state)
                }
                &&& r == ConnectAction::Continue
            },
            _ => *final(state) == *old(state) && r == ConnectAction::Continue,
        },
{
    match msg {
        Message::CmdConnectReply(m) => {
            state.client_number = m.clnr;
            state.block_size = m.blocksize;
            state.max_slices = m.max_slices;
            state.mcast_ip = m.mcastaddr();
            if state.client_number == REFUSED_CLIENT {
                ConnectAction::Refused
            } else {
                ConnectAction::Connected
            }
        },
        Message::CmdHello(m) => {
            state.connect_req_sent = false;
            state.block_size = m.blocksize as u32;
            state.mcast_ip = m.mcastaddr();
            ConnectAction::Continue
        },
        _ => ConnectAction::Continue,
    }
}

/// Whether the disk writer is done: the FIFO is closed and holds nothing more to write.
pub fn writer_finished(fifo: &DataFIFO) -> (r: bool)
    requires
        fifo@.closed ==> fifo@.startpoint <= fifo@.endpoint,
    ensures
        r == (fifo@.closed && fifo@.endpoint == fifo@.startpoint),
{
    fifo.is_closed() && fifo.len() == 0
}

} // verus!
