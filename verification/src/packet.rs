use vstd::prelude::*;
use vstd::slice::{slice_subrange, slice_to_vec};

use crate::bitarray::{byte_len_for, BitArray};
use crate::wire::{
    be16, be32, from_be16, from_be32, get16, get32, get_bytes16, lemma_be16_roundtrip,
    lemma_be32_roundtrip, lemma_from_be16_roundtrip, lemma_from_be32_roundtrip, put16, put32,
    put_bytes16,
};

verus! {

/// Asks the sender to consider a slice received.
#[derive(Debug, PartialEq, Eq)]
pub struct MsgOk {
    pub reserved: u16,
    pub sliceno: u32,
}

impl MsgOk {
    /// Bytes this message takes on the wire.
    pub const PACKED_LEN: usize = 6;

    /// The big-endian bytes of the fields, in declaration order.
    pub open spec fn wire(&self) -> Seq<u8> {
        be16(self.reserved) + be32(self.sliceno)
    }

    /// Whether this message is what the first 6 bytes of `b` hold.
    pub open spec fn parsed_from(&self, b: Seq<u8>) -> bool {
        &&& b.len() >= 6
        &&& self.reserved == from_be16(b.subrange(0, 2))
        &&& self.sliceno == from_be32(b.subrange(2, 6))
    }

    /// Appends the message's big-endian bytes to `out`.
    pub fn append_be_bytes(&self, out: &mut Vec<u8>)
        ensures
            final(out)@ == old(out)@ + self.wire(),
    {
        put16(out, self.reserved);
        put32(out, self.sliceno);
        assert(final(out)@ =~= old(out)@ + self.wire());
    }

    /// Reads the message from the first 6 bytes of `bytes`.
    pub fn decode_from_be_bytes(bytes: &[u8]) -> (r: Self)
        requires
            bytes@.len() >= 6,
        ensures
            r.parsed_from(bytes@),
            r.reserved == from_be16(bytes@.subrange(0, 2)),
            r.sliceno == from_be32(bytes@.subrange(2, 6)),
    {
        let v_reserved = get16(bytes, 0);
        let v_sliceno = get32(bytes, 2);
        MsgOk { reserved: v_reserved, sliceno: v_sliceno }
    }
}

proof fn lemma_msg_ok_wire(m: MsgOk, tail: Seq<u8>)
    ensures
        m.wire().len() == 6,
        m.parsed_from(m.wire() + tail),
{
    lemma_be16_roundtrip(m.reserved);
    lemma_be32_roundtrip(m.sliceno);
    let b = m.wire() + tail;
    assert(b.subrange(0, 2) =~= be16(m.reserved));
    assert(b.subrange(2, 6) =~= be32(m.sliceno));
}

proof fn lemma_msg_ok_parsed(m: MsgOk, b: Seq<u8>)
    requires
        m.parsed_from(b),
    ensures
        m.wire() == b.subrange(0, 6),
{
    lemma_from_be16_roundtrip(b.subrange(0, 2));
    lemma_from_be32_roundtrip(b.subrange(2, 6));
    assert(b.subrange(0, 6) =~= b.subrange(0, 2) + b.subrange(2, 6));
}

proof fn lemma_msg_ok_unique(m1: MsgOk, m2: MsgOk, b: Seq<u8>)
    requires
        m1.parsed_from(b),
        m2.parsed_from(b),
    ensures
        m1 == m2,
{
}

/// Asks the sender to send again the blocks of a slice that are missing.
#[derive(Copy, Clone, Debug, PartialEq, Eq)]
pub struct MsgRetransmit {
    pub reserved: u16,
    pub sliceno: u32,
    pub rxmit: u32,
}

impl MsgRetransmit {
    /// Bytes this message takes on the wire.
    pub const PACKED_LEN: usize = 10;

    /// The big-endian bytes of the fields, in declaration order.
    pub open spec fn wire(&self) -> Seq<u8> {
        be16(self.reserved) + be32(self.sliceno) + be32(self.rxmit)
    }

    /// Whether this message is what the first 10 bytes of `b` hold.
    pub open spec fn parsed_from(&self, b: Seq<u8>) -> bool {
        &&& b.len() >= 10
        &&& self.reserved == from_be16(b.subrange(0, 2))
        &&& self.sliceno == from_be32(b.subrange(2, 6))
        &&& self.rxmit == from_be32(b.subrange(6, 10))
    }

    /// Appends the message's big-endian bytes to `out`.
    pub fn append_be_bytes(&self, out: &mut Vec<u8>)
        ensures
            final(out)@ == old(out)@ + self.wire(),
    {
        put16(out, self.reserved);
        put32(out, self.sliceno);
        put32(out, self.rxmit);
        assert(final(out)@ =~= old(out)@ + self.wire());
    }

    /// Reads the message from the first 10 bytes of `bytes`.
    pub fn decode_from_be_bytes(bytes: &[u8]) -> (r: Self)
        requires
            bytes@.len() >= 10,
        ensures
            r.parsed_from(bytes@),
            r.reserved == from_be16(bytes@.subrange(0, 2)),
            r.sliceno == from_be32(bytes@.subrange(2, 6)),
            r.rxmit == from_be32(bytes@.subrange(6, 10)),
    {
        let v_reserved = get16(bytes, 0);
        let v_sliceno = get32(bytes, 2);
        let v_rxmit = get32(bytes, 6);
        MsgRetransmit { reserved: v_reserved, sliceno: v_sliceno, rxmit: v_rxmit }
    }
}

proof fn lemma_msg_retransmit_wire(m: MsgRetransmit, tail: Seq<u8>)
    ensures
        m.wire().len() == 10,
        m.parsed_from(m.wire() + tail),
{
    lemma_be16_roundtrip(m.reserved);
    lemma_be32_roundtrip(m.sliceno);
    lemma_be32_roundtrip(m.rxmit);
    let b = m.wire() + tail;
    assert(b.subrange(0, 2) =~= be16(m.reserved));
    assert(b.subrange(2, 6) =~= be32(m.sliceno));
    assert(b.subrange(6, 10) =~= be32(m.rxmit));
}

proof fn lemma_msg_retransmit_parsed(m: MsgRetransmit, b: Seq<u8>)
    requires
        m.parsed_from(b),
    ensures
        m.wire() == b.subrange(0, 10),
{
    lemma_from_be16_roundtrip(b.subrange(0, 2));
    lemma_from_be32_roundtrip(b.subrange(2, 6));
    lemma_from_be32_roundtrip(b.subrange(6, 10));
    assert(b.subrange(0, 10) =~= b.subrange(0, 2) + b.subrange(2, 6) + b.subrange(6, 10));
}

proof fn lemma_msg_retransmit_unique(m1: MsgRetransmit, m2: MsgRetransmit, b: Seq<u8>)
    requires
        m1.parsed_from(b),
        m2.parsed_from(b),
    ensures
        m1 == m2,
{
}

/// Tells the sender to start the transfer.
#[derive(Debug, PartialEq, Eq)]
pub struct MsgGo {
    pub reserved: u16,
}

impl MsgGo {
    /// Bytes this message takes on the wire.
    pub const PACKED_LEN: usize = 2;

    /// The big-endian bytes of the fields, in declaration order.
    pub open spec fn wire(&self) -> Seq<u8> {
        be16(self.reserved)
    }

    /// Whether this message is what the first 2 bytes of `b` hold.
    pub open spec fn parsed_from(&self, b: Seq<u8>) -> bool {
        &&& b.len() >= 2
        &&& self.reserved == from_be16(b.subrange(0, 2))
    }

    /// Appends the message's big-endian bytes to `out`.
    pub fn append_be_bytes(&self, out: &mut Vec<u8>)
        ensures
            final(out)@ == old(out)@ + self.wire(),
    {
        put16(out, self.reserved);
        assert(final(out)@ =~= old(out)@ + self.wire());
    }

    /// Reads the message from the first 2 bytes of `bytes`.
    pub fn decode_from_be_bytes(bytes: &[u8]) -> (r: Self)
        requires
            bytes@.len() >= 2,
        ensures
            r.parsed_from(bytes@),
            r.reserved == from_be16(bytes@.subrange(0, 2)),
    {
        let v_reserved = get16(bytes, 0);
        MsgGo { reserved: v_reserved }
    }
}

proof fn lemma_msg_go_wire(m: MsgGo, tail: Seq<u8>)
    ensures
        m.wire().len() == 2,
        m.parsed_from(m.wire() + tail),
{
    lemma_be16_roundtrip(m.reserved);
    let b = m.wire() + tail;
    assert(b.subrange(0, 2) =~= be16(m.reserved));
}

proof fn lemma_msg_go_parsed(m: MsgGo, b: Seq<u8>)
    requires
        m.parsed_from(b),
    ensures
        m.wire() == b.subrange(0, 2),
{
    lemma_from_be16_roundtrip(b.subrange(0, 2));
    assert(b.subrange(0, 2) =~= b.subrange(0, 2));
}

proof fn lemma_msg_go_unique(m1: MsgGo, m2: MsgGo, b: Seq<u8>)
    requires
        m1.parsed_from(b),
        m2.parsed_from(b),
    ensures
        m1 == m2,
{
}

/// A receiver's request to join a transfer.
#[derive(Debug, PartialEq, Eq)]
pub struct MsgConnectReq {
    pub reserved: u16,
    pub capabilities: u32,
    pub rcvbuf: u32,
}

impl MsgConnectReq {
    /// Bytes this message takes on the wire.
    pub const PACKED_LEN: usize = 10;

    /// The big-endian bytes of the fields, in declaration order.
    pub open spec fn wire(&self) -> Seq<u8> {
        be16(self.reserved) + be32(self.capabilities) + be32(self.rcvbuf)
    }

    /// Whether this message is what the first 10 bytes of `b` hold.
    pub open spec fn parsed_from(&self, b: Seq<u8>) -> bool {
        &&& b.len() >= 10
        &&& self.reserved == from_be16(b.subrange(0, 2))
        &&& self.capabilities == from_be32(b.subrange(2, 6))
        &&& self.rcvbuf == from_be32(b.subrange(6, 10))
    }

    /// Appends the message's big-endian bytes to `out`.
    pub fn append_be_bytes(&self, out: &mut Vec<u8>)
        ensures
            final(out)@ == old(out)@ + self.wire(),
    {
        put16(out, self.reserved);
        put32(out, self.capabilities);
        put32(out, self.rcvbuf);
        assert(final(out)@ =~= old(out)@ + self.wire());
    }

    /// Reads the message from the first 10 bytes of `bytes`.
    pub fn decode_from_be_bytes(bytes: &[u8]) -> (r: Self)
        requires
            bytes@.len() >= 10,
        ensures
            r.parsed_from(bytes@),
            r.reserved == from_be16(bytes@.subrange(0, 2)),
            r.capabilities == from_be32(bytes@.subrange(2, 6)),
            r.rcvbuf == from_be32(bytes@.subrange(6, 10)),
    {
        let v_reserved = get16(bytes, 0);
        let v_capabilities = get32(bytes, 2);
        let v_rcvbuf = get32(bytes, 6);
        MsgConnectReq { reserved: v_reserved, capabilities: v_capabilities, rcvbuf: v_rcvbuf }
    }
}

proof fn lemma_msg_connect_req_wire(m: MsgConnectReq, tail: Seq<u8>)
    ensures
        m.wire().len() == 10,
        m.parsed_from(m.wire() + tail),
{
    lemma_be16_roundtrip(m.reserved);
    lemma_be32_roundtrip(m.capabilities);
    lemma_be32_roundtrip(m.rcvbuf);
    let b = m.wire() + tail;
    assert(b.subrange(0, 2) =~= be16(m.reserved));
    assert(b.subrange(2, 6) =~= be32(m.capabilities));
    assert(b.subrange(6, 10) =~= be32(m.rcvbuf));
}

proof fn lemma_msg_connect_req_parsed(m: MsgConnectReq, b: Seq<u8>)
    requires
        m.parsed_from(b),
    ensures
        m.wire() == b.subrange(0, 10),
{
    lemma_from_be16_roundtrip(b.subrange(0, 2));
    lemma_from_be32_roundtrip(b.subrange(2, 6));
    lemma_from_be32_roundtrip(b.subrange(6, 10));
    assert(b.subrange(0, 10) =~= b.subrange(0, 2) + b.subrange(2, 6) + b.subrange(6, 10));
}

proof fn lemma_msg_connect_req_unique(m1: MsgConnectReq, m2: MsgConnectReq, b: Seq<u8>)
    requires
        m1.parsed_from(b),
        m2.parsed_from(b),
    ensures
        m1 == m2,
{
}

/// A receiver leaving the transfer.
#[derive(Debug, PartialEq, Eq)]
pub struct MsgDisconnect {
    pub reserved: u16,
}

impl MsgDisconnect {
    /// Bytes this message takes on the wire.
    pub const PACKED_LEN: usize = 2;

    /// The big-endian bytes of the fields, in declaration order.
    pub open spec fn wire(&self) -> Seq<u8> {
        be16(self.reserved)
    }

    /// Whether this message is what the first 2 bytes of `b` hold.
    pub open spec fn parsed_from(&self, b: Seq<u8>) -> bool {
        &&& b.len() >= 2
        &&& self.reserved == from_be16(b.subrange(0, 2))
    }

    /// Appends the message's big-endian bytes to `out`.
    pub fn append_be_bytes(&self, out: &mut Vec<u8>)
        ensures
            final(out)@ == old(out)@ + self.wire(),
    {
        put16(out, self.reserved);
        assert(final(out)@ =~= old(out)@ + self.wire());
    }

    /// Reads the message from the first 2 bytes of `bytes`.
    pub fn decode_from_be_bytes(bytes: &[u8]) -> (r: Self)
        requires
            bytes@.len() >= 2,
        ensures
            r.parsed_from(bytes@),
            r.reserved == from_be16(bytes@.subrange(0, 2)),
    {
        let v_reserved = get16(bytes, 0);
        MsgDisconnect { reserved: v_reserved }
    }
}

proof fn lemma_msg_disconnect_wire(m: MsgDisconnect, tail: Seq<u8>)
    ensures
        m.wire().len() == 2,
        m.parsed_from(m.wire() + tail),
{
    lemma_be16_roundtrip(m.reserved);
    let b = m.wire() + tail;
    assert(b.subrange(0, 2) =~= be16(m.reserved));
}

proof fn lemma_msg_disconnect_parsed(m: MsgDisconnect, b: Seq<u8>)
    requires
        m.parsed_from(b),
    ensures
        m.wire() == b.subrange(0, 2),
{
    lemma_from_be16_roundtrip(b.subrange(0, 2));
    assert(b.subrange(0, 2) =~= b.subrange(0, 2));
}

proof fn lemma_msg_disconnect_unique(m1: MsgDisconnect, m2: MsgDisconnect, b: Seq<u8>)
    requires
        m1.parsed_from(b),
        m2.parsed_from(b),
    ensures
        m1 == m2,
{
}

/// The sender's request that receivers acknowledge a slice.
#[derive(Copy, Clone, Debug, PartialEq, Eq)]
pub struct MsgReqAck {
    pub reserved: u16,
    pub sliceno: u32,
    pub bytes: u32,
    pub rxmit: u32,
}

impl MsgReqAck {
    /// Bytes this message takes on the wire.
    pub const PACKED_LEN: usize = 14;

    /// The big-endian bytes of the fields, in declaration order.
    pub open spec fn wire(&self) -> Seq<u8> {
        be16(self.reserved) + be32(self.sliceno) + be32(self.bytes) + be32(self.rxmit)
    }

    /// Whether this message is what the first 14 bytes of `b` hold.
    pub open spec fn parsed_from(&self, b: Seq<u8>) -> bool {
        &&& b.len() >= 14
        &&& self.reserved == from_be16(b.subrange(0, 2))
        &&& self.sliceno == from_be32(b.subrange(2, 6))
        &&& self.bytes == from_be32(b.subrange(6, 10))
        &&& self.rxmit == from_be32(b.subrange(10, 14))
    }

    /// Appends the message's big-endian bytes to `out`.
    pub fn append_be_bytes(&self, out: &mut Vec<u8>)
        ensures
            final(out)@ == old(out)@ + self.wire(),
    {
        put16(out, self.reserved);
        put32(out, self.sliceno);
        put32(out, self.bytes);
        put32(out, self.rxmit);
        assert(final(out)@ =~= old(out)@ + self.wire());
    }

    /// Reads the message from the first 14 bytes of `bytes`.
    pub fn decode_from_be_bytes(bytes: &[u8]) -> (r: Self)
        requires
            bytes@.len() >= 14,
        ensures
            r.parsed_from(bytes@),
            r.reserved == from_be16(bytes@.subrange(0, 2)),
            r.sliceno == from_be32(bytes@.subrange(2, 6)),
            r.bytes == from_be32(bytes@.subrange(6, 10)),
            r.rxmit == from_be32(bytes@.subrange(10, 14)),
    {
        let v_reserved = get16(bytes, 0);
        let v_sliceno = get32(bytes, 2);
        let v_bytes = get32(bytes, 6);
        let v_rxmit = get32(bytes, 10);
        MsgReqAck { reserved: v_reserved, sliceno: v_sliceno, bytes: v_bytes, rxmit: v_rxmit }
    }
}

proof fn lemma_msg_req_ack_wire(m: MsgReqAck, tail: Seq<u8>)
    ensures
        m.wire().len() == 14,
        m.parsed_from(m.wire() + tail),
{
    lemma_be16_roundtrip(m.reserved);
    lemma_be32_roundtrip(m.sliceno);
    lemma_be32_roundtrip(m.bytes);
    lemma_be32_roundtrip(m.rxmit);
    let b = m.wire() + tail;
    assert(b.subrange(0, 2) =~= be16(m.reserved));
    assert(b.subrange(2, 6) =~= be32(m.sliceno));
    assert(b.subrange(6, 10) =~= be32(m.bytes));
    assert(b.subrange(10, 14) =~= be32(m.rxmit));
}

proof fn lemma_msg_req_ack_parsed(m: MsgReqAck, b: Seq<u8>)
    requires
        m.parsed_from(b),
    ensures
        m.wire() == b.subrange(0, 14),
{
    lemma_from_be16_roundtrip(b.subrange(0, 2));
    lemma_from_be32_roundtrip(b.subrange(2, 6));
    lemma_from_be32_roundtrip(b.subrange(6, 10));
    lemma_from_be32_roundtrip(b.subrange(10, 14));
    assert(b.subrange(0, 14) =~= b.subrange(0, 2) + b.subrange(2, 6) + b.subrange(6, 10) + b.subrange(10, 14));
}

proof fn lemma_msg_req_ack_unique(m1: MsgReqAck, m2: MsgReqAck, b: Seq<u8>)
    requires
        m1.parsed_from(b),
        m2.parsed_from(b),
    ensures
        m1 == m2,
{
}

/// The sender's answer to a connect request.
#[derive(Debug, PartialEq, Eq)]
pub struct MsgConnectReply {
    pub reserved: u16,
    pub clnr: u32,
    pub blocksize: u32,
    pub capabilities: u32,
    pub max_slices: u32,
    pub mcastaddr: [u8; 16],
}

impl MsgConnectReply {
    /// Bytes this message takes on the wire.
    pub const PACKED_LEN: usize = 34;

    /// The big-endian bytes of the fields, in declaration order.
    pub open spec fn wire(&self) -> Seq<u8> {
        be16(self.reserved) + be32(self.clnr) + be32(self.blocksize) + be32(self.capabilities) + be32(self.max_slices) + self.mcastaddr@
    }

    /// Whether this message is what the first 34 bytes of `b` hold.
    pub open spec fn parsed_from(&self, b: Seq<u8>) -> bool {
        &&& b.len() >= 34
        &&& self.reserved == from_be16(b.subrange(0, 2))
        &&& self.clnr == from_be32(b.subrange(2, 6))
        &&& self.blocksize == from_be32(b.subrange(6, 10))
        &&& self.capabilities == from_be32(b.subrange(10, 14))
        &&& self.max_slices == from_be32(b.subrange(14, 18))
        &&& self.mcastaddr@ == b.subrange(18, 34)
    }

    /// Appends the message's big-endian bytes to `out`.
    pub fn append_be_bytes(&self, out: &mut Vec<u8>)
        ensures
            final(out)@ == old(out)@ + self.wire(),
    {
        put16(out, self.reserved);
        put32(out, self.clnr);
        put32(out, self.blocksize);
        put32(out, self.capabilities);
        put32(out, self.max_slices);
        put_bytes16(out, &self.mcastaddr);
        assert(final(out)@ =~= old(out)@ + self.wire());
    }

    /// Reads the message from the first 34 bytes of `bytes`.
    pub fn decode_from_be_bytes(bytes: &[u8]) -> (r: Self)
        requires
            bytes@.len() >= 34,
        ensures
            r.parsed_from(bytes@),
            r.reserved == from_be16(bytes@.subrange(0, 2)),
            r.clnr == from_be32(bytes@.subrange(2, 6)),
            r.blocksize == from_be32(bytes@.subrange(6, 10)),
            r.capabilities == from_be32(bytes@.subrange(10, 14)),
            r.max_slices == from_be32(bytes@.subrange(14, 18)),
            r.mcastaddr@ == bytes@.subrange(18, 34),
    {
        let v_reserved = get16(bytes, 0);
        let v_clnr = get32(bytes, 2);
        let v_blocksize = get32(bytes, 6);
        let v_capabilities = get32(bytes, 10);
        let v_max_slices = get32(bytes, 14);
        let v_mcastaddr = get_bytes16(bytes, 18);
        MsgConnectReply { reserved: v_reserved, clnr: v_clnr, blocksize: v_blocksize, capabilities: v_capabilities, max_slices: v_max_slices, mcastaddr: v_mcastaddr }
    }
}

proof fn lemma_msg_connect_reply_wire(m: MsgConnectReply, tail: Seq<u8>)
    ensures
        m.wire().len() == 34,
        m.parsed_from(m.wire() + tail),
{
    lemma_be16_roundtrip(m.reserved);
    lemma_be32_roundtrip(m.clnr);
    lemma_be32_roundtrip(m.blocksize);
    lemma_be32_roundtrip(m.capabilities);
    lemma_be32_roundtrip(m.max_slices);
    let b = m.wire() + tail;
    assert(b.subrange(0, 2) =~= be16(m.reserved));
    assert(b.subrange(2, 6) =~= be32(m.clnr));
    assert(b.subrange(6, 10) =~= be32(m.blocksize));
    assert(b.subrange(10, 14) =~= be32(m.capabilities));
    assert(b.subrange(14, 18) =~= be32(m.max_slices));
    assert(b.subrange(18, 34) =~= m.mcastaddr@);
}

proof fn lemma_msg_connect_reply_parsed(m: MsgConnectReply, b: Seq<u8>)
    requires
        m.parsed_from(b),
    ensures
        m.wire() == b.subrange(0, 34),
{
    lemma_from_be16_roundtrip(b.subrange(0, 2));
    lemma_from_be32_roundtrip(b.subrange(2, 6));
    lemma_from_be32_roundtrip(b.subrange(6, 10));
    lemma_from_be32_roundtrip(b.subrange(10, 14));
    lemma_from_be32_roundtrip(b.subrange(14, 18));
    assert(b.subrange(0, 34) =~= b.subrange(0, 2) + b.subrange(2, 6) + b.subrange(6, 10) + b.subrange(10, 14) + b.subrange(14, 18) + b.subrange(18, 34));
}

proof fn lemma_msg_connect_reply_unique(m1: MsgConnectReply, m2: MsgConnectReply, b: Seq<u8>)
    requires
        m1.parsed_from(b),
        m2.parsed_from(b),
    ensures
        m1 == m2,
{
    assert(m1.mcastaddr =~= m2.mcastaddr);
}

/// The header of one block of slice data.
#[derive(Debug, PartialEq, Eq)]
pub struct DataBlock {
    pub reserved: u16,
    pub sliceno: u32,
    pub blockno: u16,
    pub reserved2: u16,
    pub bytes: u32,
}

impl DataBlock {
    /// Bytes this message takes on the wire.
    pub const PACKED_LEN: usize = 14;

    /// The big-endian bytes of the fields, in declaration order.
    pub open spec fn wire(&self) -> Seq<u8> {
        be16(self.reserved) + be32(self.sliceno) + be16(self.blockno) + be16(self.reserved2) + be32(self.bytes)
    }

    /// Whether this message is what the first 14 bytes of `b` hold.
    pub open spec fn parsed_from(&self, b: Seq<u8>) -> bool {
        &&& b.len() >= 14
        &&& self.reserved == from_be16(b.subrange(0, 2))
        &&& self.sliceno == from_be32(b.subrange(2, 6))
        &&& self.blockno == from_be16(b.subrange(6, 8))
        &&& self.reserved2 == from_be16(b.subrange(8, 10))
        &&& self.bytes == from_be32(b.subrange(10, 14))
    }

    /// Appends the message's big-endian bytes to `out`.
    pub fn append_be_bytes(&self, out: &mut Vec<u8>)
        ensures
            final(out)@ == old(out)@ + self.wire(),
    {
        put16(out, self.reserved);
        put32(out, self.sliceno);
        put16(out, self.blockno);
        put16(out, self.reserved2);
        put32(out, self.bytes);
        assert(final(out)@ =~= old(out)@ + self.wire());
    }

    /// Reads the message from the first 14 bytes of `bytes`.
    pub fn decode_from_be_bytes(bytes: &[u8]) -> (r: Self)
        requires
            bytes@.len() >= 14,
        ensures
            r.parsed_from(bytes@),
            r.reserved == from_be16(bytes@.subrange(0, 2)),
            r.sliceno == from_be32(bytes@.subrange(2, 6)),
            r.blockno == from_be16(bytes@.subrange(6, 8)),
            r.reserved2 == from_be16(bytes@.subrange(8, 10)),
            r.bytes == from_be32(bytes@.subrange(10, 14)),
    {
        let v_reserved = get16(bytes, 0);
        let v_sliceno = get32(bytes, 2);
        let v_blockno = get16(bytes, 6);
        let v_reserved2 = get16(bytes, 8);
        let v_bytes = get32(bytes, 10);
        DataBlock { reserved: v_reserved, sliceno: v_sliceno, blockno: v_blockno, reserved2: v_reserved2, bytes: v_bytes }
    }
}

proof fn lemma_data_block_wire(m: DataBlock, tail: Seq<u8>)
    ensures
        m.wire().len() == 14,
        m.parsed_from(m.wire() + tail),
{
    lemma_be16_roundtrip(m.reserved);
    lemma_be32_roundtrip(m.sliceno);
    lemma_be16_roundtrip(m.blockno);
    lemma_be16_roundtrip(m.reserved2);
    lemma_be32_roundtrip(m.bytes);
    let b = m.wire() + tail;
    assert(b.subrange(0, 2) =~= be16(m.reserved));
    assert(b.subrange(2, 6) =~= be32(m.sliceno));
    assert(b.subrange(6, 8) =~= be16(m.blockno));
    assert(b.subrange(8, 10) =~= be16(m.reserved2));
    assert(b.subrange(10, 14) =~= be32(m.bytes));
}

proof fn lemma_data_block_parsed(m: DataBlock, b: Seq<u8>)
    requires
        m.parsed_from(b),
    ensures
        m.wire() == b.subrange(0, 14),
{
    lemma_from_be16_roundtrip(b.subrange(0, 2));
    lemma_from_be32_roundtrip(b.subrange(2, 6));
    lemma_from_be16_roundtrip(b.subrange(6, 8));
    lemma_from_be16_roundtrip(b.subrange(8, 10));
    lemma_from_be32_roundtrip(b.subrange(10, 14));
    assert(b.subrange(0, 14) =~= b.subrange(0, 2) + b.subrange(2, 6) + b.subrange(6, 8) + b.subrange(8, 10) + b.subrange(10, 14));
}

proof fn lemma_data_block_unique(m1: DataBlock, m2: DataBlock, b: Seq<u8>)
    requires
        m1.parsed_from(b),
        m2.parsed_from(b),
    ensures
        m1 == m2,
{
}

/// The header of one forward error correction block.
#[derive(Debug, PartialEq, Eq)]
pub struct FecBlock {
    pub stripes: u16,
    pub sliceno: u32,
    pub blockno: u16,
    pub reserved2: u16,
    pub bytes: u32,
}

impl FecBlock {
    /// Bytes this message takes on the wire.
    pub const PACKED_LEN: usize = 14;

    /// The big-endian bytes of the fields, in declaration order.
    pub open spec fn wire(&self) -> Seq<u8> {
        be16(self.stripes) + be32(self.sliceno) + be16(self.blockno) + be16(self.reserved2) + be32(self.bytes)
    }

    /// Whether this message is what the first 14 bytes of `b` hold.
    pub open spec fn parsed_from(&self, b: Seq<u8>) -> bool {
        &&& b.len() >= 14
        &&& self.stripes == from_be16(b.subrange(0, 2))
        &&& self.sliceno == from_be32(b.subrange(2, 6))
        &&& self.blockno == from_be16(b.subrange(6, 8))
        &&& self.reserved2 == from_be16(b.subrange(8, 10))
        &&& self.bytes == from_be32(b.subrange(10, 14))
    }

    /// Appends the message's big-endian bytes to `out`.
    pub fn append_be_bytes(&self, out: &mut Vec<u8>)
        ensures
            final(out)@ == old(out)@ + self.wire(),
    {
        put16(out, self.stripes);
        put32(out, self.sliceno);
        put16(out, self.blockno);
        put16(out, self.reserved2);
        put32(out, self.bytes);
        assert(final(out)@ =~= old(out)@ + self.wire());
    }

    /// Reads the message from the first 14 bytes of `bytes`.
    pub fn decode_from_be_bytes(bytes: &[u8]) -> (r: Self)
        requires
            bytes@.len() >= 14,
        ensures
            r.parsed_from(bytes@),
            r.stripes == from_be16(bytes@.subrange(0, 2)),
            r.sliceno == from_be32(bytes@.subrange(2, 6)),
            r.blockno == from_be16(bytes@.subrange(6, 8)),
            r.reserved2 == from_be16(bytes@.subrange(8, 10)),
            r.bytes == from_be32(bytes@.subrange(10, 14)),
    {
        let v_stripes = get16(bytes, 0);
        let v_sliceno = get32(bytes, 2);
        let v_blockno = get16(bytes, 6);
        let v_reserved2 = get16(bytes, 8);
        let v_bytes = get32(bytes, 10);
        FecBlock { stripes: v_stripes, sliceno: v_sliceno, blockno: v_blockno, reserved2: v_reserved2, bytes: v_bytes }
    }
}

proof fn lemma_fec_block_wire(m: FecBlock, tail: Seq<u8>)
    ensures
        m.wire().len() == 14,
        m.parsed_from(m.wire() + tail),
{
    lemma_be16_roundtrip(m.stripes);
    lemma_be32_roundtrip(m.sliceno);
    lemma_be16_roundtrip(m.blockno);
    lemma_be16_roundtrip(m.reserved2);
    lemma_be32_roundtrip(m.bytes);
    let b = m.wire() + tail;
    assert(b.subrange(0, 2) =~= be16(m.stripes));
    assert(b.subrange(2, 6) =~= be32(m.sliceno));
    assert(b.subrange(6, 8) =~= be16(m.blockno));
    assert(b.subrange(8, 10) =~= be16(m.reserved2));
    assert(b.subrange(10, 14) =~= be32(m.bytes));
}

proof fn lemma_fec_block_parsed(m: FecBlock, b: Seq<u8>)
    requires
        m.parsed_from(b),
    ensures
        m.wire() == b.subrange(0, 14),
{
    lemma_from_be16_roundtrip(b.subrange(0, 2));
    lemma_from_be32_roundtrip(b.subrange(2, 6));
    lemma_from_be16_roundtrip(b.subrange(6, 8));
    lemma_from_be16_roundtrip(b.subrange(8, 10));
    lemma_from_be32_roundtrip(b.subrange(10, 14));
    assert(b.subrange(0, 14) =~= b.subrange(0, 2) + b.subrange(2, 6) + b.subrange(6, 8) + b.subrange(8, 10) + b.subrange(10, 14));
}

proof fn lemma_fec_block_unique(m1: FecBlock, m2: FecBlock, b: Seq<u8>)
    requires
        m1.parsed_from(b),
        m2.parsed_from(b),
    ensures
        m1 == m2,
{
}

/// The sender's announcement of a transfer.
#[derive(Debug, PartialEq, Eq)]
pub struct MsgHello {
    pub reserved: u16,
    pub capabilities: u32,
    pub mcastaddr: [u8; 16],
    pub blocksize: u16,
}

impl MsgHello {
    /// Bytes this message takes on the wire.
    pub const PACKED_LEN: usize = 24;

    /// The big-endian bytes of the fields, in declaration order.
    pub open spec fn wire(&self) -> Seq<u8> {
        be16(self.reserved) + be32(self.capabilities) + self.mcastaddr@ + be16(self.blocksize)
    }

    /// Whether this message is what the first 24 bytes of `b` hold.
    pub open spec fn parsed_from(&self, b: Seq<u8>) -> bool {
        &&& b.len() >= 24
        &&& self.reserved == from_be16(b.subrange(0, 2))
        &&& self.capabilities == from_be32(b.subrange(2, 6))
        &&& self.mcastaddr@ == b.subrange(6, 22)
        &&& self.blocksize == from_be16(b.subrange(22, 24))
    }

    /// Appends the message's big-endian bytes to `out`.
    pub fn append_be_bytes(&self, out: &mut Vec<u8>)
        ensures
            final(out)@ == old(out)@ + self.wire(),
    {
        put16(out, self.reserved);
        put32(out, self.capabilities);
        put_bytes16(out, &self.mcastaddr);
        put16(out, self.blocksize);
        assert(final(out)@ =~= old(out)@ + self.wire());
    }

    /// Reads the message from the first 24 bytes of `bytes`.
    pub fn decode_from_be_bytes(bytes: &[u8]) -> (r: Self)
        requires
            bytes@.len() >= 24,
        ensures
            r.parsed_from(bytes@),
            r.reserved == from_be16(bytes@.subrange(0, 2)),
            r.capabilities == from_be32(bytes@.subrange(2, 6)),
            r.mcastaddr@ == bytes@.subrange(6, 22),
            r.blocksize == from_be16(bytes@.subrange(22, 24)),
    {
        let v_reserved = get16(bytes, 0);
        let v_capabilities = get32(bytes, 2);
        let v_mcastaddr = get_bytes16(bytes, 6);
        let v_blocksize = get16(bytes, 22);
        MsgHello { reserved: v_reserved, capabilities: v_capabilities, mcastaddr: v_mcastaddr, blocksize: v_blocksize }
    }
}

proof fn lemma_msg_hello_wire(m: MsgHello, tail: Seq<u8>)
    ensures
        m.wire().len() == 24,
        m.parsed_from(m.wire() + tail),
{
    lemma_be16_roundtrip(m.reserved);
    lemma_be32_roundtrip(m.capabilities);
    lemma_be16_roundtrip(m.blocksize);
    let b = m.wire() + tail;
    assert(b.subrange(0, 2) =~= be16(m.reserved));
    assert(b.subrange(2, 6) =~= be32(m.capabilities));
    assert(b.subrange(6, 22) =~= m.mcastaddr@);
    assert(b.subrange(22, 24) =~= be16(m.blocksize));
}

proof fn lemma_msg_hello_parsed(m: MsgHello, b: Seq<u8>)
    requires
        m.parsed_from(b),
    ensures
        m.wire() == b.subrange(0, 24),
{
    lemma_from_be16_roundtrip(b.subrange(0, 2));
    lemma_from_be32_roundtrip(b.subrange(2, 6));
    lemma_from_be16_roundtrip(b.subrange(22, 24));
    assert(b.subrange(0, 24) =~= b.subrange(0, 2) + b.subrange(2, 6) + b.subrange(6, 22) + b.subrange(22, 24));
}

proof fn lemma_msg_hello_unique(m1: MsgHello, m2: MsgHello, b: Seq<u8>)
    requires
        m1.parsed_from(b),
        m2.parsed_from(b),
    ensures
        m1 == m2,
{
    assert(m1.mcastaddr =~= m2.mcastaddr);
}

impl MsgOk {
    pub fn new(sliceno: u32) -> (r: Self)
        ensures
            r.sliceno == sliceno,
            r.reserved == 0,
            r.wire() == be16(0) + be32(sliceno),
    {
        Self { reserved: 0, sliceno }
    }
}

impl MsgRetransmit {
    pub fn new(sliceno: u32, rxmit: u32) -> (r: Self)
        ensures
            r.sliceno == sliceno,
            r.rxmit == rxmit,
            r.reserved == 0,
            r.wire() == be16(0) + be32(sliceno) + be32(rxmit),
    {
        Self { reserved: 0, sliceno, rxmit }
    }
}

/// A retransmit request together with the map of blocks already received.
#[derive(Debug)]
pub struct Retransmit {
    pub msg: MsgRetransmit,
    pub map: BitArray,
}

impl Retransmit {
    pub fn new(sliceno: u32, rxmit: u32, max_slices: u32) -> (r: Self)
        ensures
            r.msg.sliceno == sliceno,
            r.msg.rxmit == rxmit,
            r.msg.reserved == 0,
            r.map.size() == max_slices,
            r.map.bytes() == Seq::new(byte_len_for(max_slices as int) as nat, |i: int| 0u8),
            forall|i: int| 0 <= i < max_slices ==> !#[trigger] r.map.bit(i),
    {
        Self { msg: MsgRetransmit::new(sliceno, rxmit), map: BitArray::new(max_slices as usize) }
    }
}

impl MsgGo {
    pub fn new() -> (r: Self)
        ensures
            r.reserved == 0,
            r.wire() == be16(0),
    {
        Self { reserved: 0 }
    }
}

impl MsgConnectReq {
    pub fn new(capabilities: u32, rcvbuf: u32) -> (r: Self)
        ensures
            r.capabilities == capabilities,
            r.rcvbuf == rcvbuf,
            r.reserved == 0,
            r.wire() == be16(0) + be32(capabilities) + be32(rcvbuf),
    {
        Self { reserved: 0, capabilities, rcvbuf }
    }
}

impl MsgDisconnect {
    pub fn new() -> (r: Self)
        ensures
            r.reserved == 0,
            r.wire() == be16(0),
    {
        Self { reserved: 0 }
    }
}

impl MsgReqAck {
    pub fn new(sliceno: u32, bytes: u32, rxmit: u32) -> (r: Self)
        ensures
            r.sliceno == sliceno,
            r.bytes == bytes,
            r.rxmit == rxmit,
            r.reserved == 0,
            r.wire() == be16(0) + be32(sliceno) + be32(bytes) + be32(rxmit),
    {
        Self { reserved: 0, sliceno, bytes, rxmit }
    }
}

/// Sixteen address bytes: the big-endian bytes of an IPv4 address, then zeros.
pub open spec fn address_bytes(addr: u32) -> Seq<u8> {
    be32(addr) + Seq::new(12, |i: int| 0u8)
}

/// The sixteen address bytes of `addr`.
fn address_field(addr: u32) -> (r: [u8; 16])
    ensures
        r@ == address_bytes(addr),
        from_be32(r@.subrange(0, 4)) == addr,
{
    let mut out: Vec<u8> = Vec::new();
    put32(&mut out, addr);
    let mut buf = [0u8; 16];
    buf[0] = out[0];
    buf[1] = out[1];
    buf[2] = out[2];
    buf[3] = out[3];
    proof {
        lemma_be32_roundtrip(addr);
        assert(buf@ =~= address_bytes(addr));
        assert(buf@.subrange(0, 4) =~= be32(addr));
    }
    buf
}

impl MsgConnectReply {
    pub fn new(clnr: u32, blocksize: u32, capabilities: u32, max_slices: u32, mcastaddr: u32) -> (r:
        Self)
        ensures
            r.clnr == clnr,
            r.blocksize == blocksize,
            r.capabilities == capabilities,
            r.max_slices == max_slices,
            r.mcastaddr@ == address_bytes(mcastaddr),
            r.reserved == 0,
    {
        Self {
            reserved: 0,
            clnr,
            blocksize,
            capabilities,
            max_slices,
            mcastaddr: address_field(mcastaddr),
        }
    }

    /// The IPv4 address held in the first four address bytes, as a big-endian integer.
    pub fn mcastaddr(&self) -> (r: u32)
        ensures
            r == from_be32(self.mcastaddr@.subrange(0, 4)),
    {
        get32(&self.mcastaddr, 0)
    }
}

impl DataBlock {
    pub fn new(sliceno: u32, blockno: u16, bytes: u32) -> (r: Self)
        ensures
            r.sliceno == sliceno,
            r.blockno == blockno,
            r.bytes == bytes,
            r.reserved == 0,
            r.reserved2 == 0,
    {
        Self { reserved: 0, sliceno, blockno, reserved2: 0, bytes }
    }
}

impl FecBlock {
    pub fn new(stripes: u16, sliceno: u32, blockno: u16, bytes: u32) -> (r: Self)
        ensures
            r.stripes == stripes,
            r.sliceno == sliceno,
            r.blockno == blockno,
            r.bytes == bytes,
            r.reserved2 == 0,
    {
        Self { stripes, sliceno, blockno, reserved2: 0, bytes }
    }
}

impl MsgHello {
    pub fn new(capabilities: u32, mcastaddr: u32, blocksize: u16) -> (r: Self)
        ensures
            r.capabilities == capabilities,
            r.blocksize == blocksize,
            r.mcastaddr@ == address_bytes(mcastaddr),
            r.reserved == 0,
    {
        Self { reserved: 0, capabilities, mcastaddr: address_field(mcastaddr), blocksize }
    }

    /// The IPv4 address held in the first four address bytes, as a big-endian integer.
    pub fn mcastaddr(&self) -> (r: u32)
        ensures
            r == from_be32(self.mcastaddr@.subrange(0, 4)),
    {
        get32(&self.mcastaddr, 0)
    }
}

/// The address bytes made from `addr` give `addr` back.
pub proof fn lemma_address_roundtrip(addr: u32)
    ensures
        from_be32(address_bytes(addr).subrange(0, 4)) == addr,
{
    lemma_be32_roundtrip(addr);
    assert(address_bytes(addr).subrange(0, 4) =~= be32(addr));
}

/// The command codes of the protocol.
#[derive(Debug)]
pub enum Opcode {
    CmdOk,
    CmdRetransmit,
    CmdGo,
    CmdConnectReq,
    CmdDisconnect,
    CmdUnused,
    CmdReqack,
    CmdConnectReply,
    CmdData,
    CmdFec,
    CmdHelloNew,
    CmdHelloStreaming,
    CmdHello,
}

impl Opcode {
    /// The numeric code of the command.
    pub fn code(&self) -> (r: u16)
        ensures
            r == match self {
                Opcode::CmdOk => 0u16,
                Opcode::CmdRetransmit => 1,
                Opcode::CmdGo => 2,
                Opcode::CmdConnectReq => 3,
                Opcode::CmdDisconnect => 4,
                Opcode::CmdUnused => 5,
                Opcode::CmdReqack => 6,
                Opcode::CmdConnectReply => 7,
                Opcode::CmdData => 8,
                Opcode::CmdFec => 9,
                Opcode::CmdHelloNew => 10,
                Opcode::CmdHelloStreaming => 11,
                Opcode::CmdHello => 0x500,
            },
    {
        match self {
            Opcode::CmdOk => 0,
            Opcode::CmdRetransmit => 1,
            Opcode::CmdGo => 2,
            Opcode::CmdConnectReq => 3,
            Opcode::CmdDisconnect => 4,
            Opcode::CmdUnused => 5,
            Opcode::CmdReqack => 6,
            Opcode::CmdConnectReply => 7,
            Opcode::CmdData => 8,
            Opcode::CmdFec => 9,
            Opcode::CmdHelloNew => 10,
            Opcode::CmdHelloStreaming => 11,
            Opcode::CmdHello => 0x500,
        }
    }
}

/// A protocol message.
#[derive(Debug)]
pub enum Message {
    CmdOk(MsgOk),
    CmdRetransmit(MsgRetransmit),
    CmdGo(MsgGo),
    CmdConnectReq(MsgConnectReq),
    CmdDisconnect(MsgDisconnect),
    CmdUnused,
    CmdReqack(MsgReqAck),
    CmdConnectReply(MsgConnectReply),
    CmdData(DataBlock),
    CmdFec(FecBlock),
    CmdHello(MsgHello),
    Unknown,
}

/// Bytes of the opcode that starts every message.
pub const OPCODE_LEN: usize = 2;

/// The length of the message body that follows opcode `op`, for the opcodes that carry one.
pub open spec fn body_len(op: u16) -> Option<nat> {
    if op == 0 {
        Some(6)
    } else if op == 1 {
        Some(10)
    } else if op == 2 {
        Some(2)
    } else if op == 3 {
        Some(10)
    } else if op == 4 {
        Some(2)
    } else if op == 6 {
        Some(14)
    } else if op == 7 {
        Some(34)
    } else if op == 8 {
        Some(14)
    } else if op == 9 {
        Some(14)
    } else if op == 10 {
        Some(24)
    } else {
        None
    }
}

/// The opcode at the start of `b`.
pub open spec fn opcode_of(b: Seq<u8>) -> u16 {
    from_be16(b.subrange(0, 2))
}

/// The bytes after the opcode.
pub open spec fn body_of(b: Seq<u8>) -> Seq<u8> {
    b.subrange(2, b.len() as int)
}

impl Message {
    /// A message that has a wire form: every variant but `CmdUnused` and `Unknown`.
    pub open spec fn is_wire_message(self) -> bool {
        !(self is CmdUnused) && !(self is Unknown)
    }

    /// The bytes `encode` produces: the opcode, big-endian, then the message body; a single
    /// zero byte for a message without wire form.
    pub open spec fn spec_encode(self) -> Seq<u8> {
        match self {
            Message::CmdOk(m) => be16(0) + m.wire(),
            Message::CmdRetransmit(m) => be16(1) + m.wire(),
            Message::CmdGo(m) => be16(2) + m.wire(),
            Message::CmdConnectReq(m) => be16(3) + m.wire(),
            Message::CmdDisconnect(m) => be16(4) + m.wire(),
            Message::CmdReqack(m) => be16(6) + m.wire(),
            Message::CmdConnectReply(m) => be16(7) + m.wire(),
            Message::CmdData(m) => be16(8) + m.wire(),
            Message::CmdFec(m) => be16(9) + m.wire(),
            Message::CmdHello(m) => be16(10) + m.wire(),
            _ => seq![0u8],
        }
    }

    /// Whether `decode` accepts `b`: it holds an opcode and, for an opcode that carries a
    /// body, the whole body.
    pub open spec fn decodable(b: Seq<u8>) -> bool {
        &&& b.len() >= 2
        &&& match body_len(opcode_of(b)) {
            Some(n) => b.len() >= 2 + n,
            None => true,
        }
    }

    /// Whether `b` decodes as message `m` followed by the bytes `rest`. An opcode without a
    /// body decodes as `Unknown` with nothing after it.
    pub open spec fn decodes_as(b: Seq<u8>, m: Message, rest: Seq<u8>) -> bool {
        let op = opcode_of(b);
        let body = body_of(b);
        &&& b.len() >= 2
        &&& match m {
            Message::CmdOk(x) => op == 0 && x.parsed_from(body) && rest == body.subrange(
                6,
                body.len() as int,
            ),
            Message::CmdRetransmit(x) => op == 1 && x.parsed_from(body) && rest == body.subrange(
                10,
                body.len() as int,
            ),
            Message::CmdGo(x) => op == 2 && x.parsed_from(body) && rest == body.subrange(
                2,
                body.len() as int,
            ),
            Message::CmdConnectReq(x) => op == 3 && x.parsed_from(body) && rest == body.subrange(
                10,
                body.len() as int,
            ),
            Message::CmdDisconnect(x) => op == 4 && x.parsed_from(body) && rest == body.subrange(
                2,
                body.len() as int,
            ),
            Message::CmdReqack(x) => op == 6 && x.parsed_from(body) && rest == body.subrange(
                14,
                body.len() as int,
            ),
            Message::CmdConnectReply(x) => op == 7 && x.parsed_from(body) && rest
                == body.subrange(34, body.len() as int),
            Message::CmdData(x) => op == 8 && x.parsed_from(body) && rest == body.subrange(
                14,
                body.len() as int,
            ),
            Message::CmdFec(x) => op == 9 && x.parsed_from(body) && rest == body.subrange(
                14,
                body.len() as int,
            ),
            Message::CmdHello(x) => op == 10 && x.parsed_from(body) && rest == body.subrange(
                24,
                body.len() as int,
            ),
            Message::CmdUnused => false,
            Message::Unknown => body_len(op) is None && rest.len() == 0,
        }
    }

    /// Whether `data` can be handed to `decode`.
    pub fn can_decode(data: &[u8]) -> (r: bool)
        ensures
            r == Self::decodable(data@),
    {
        let n = data.len();
        if n < 2 {
            return false;
        }
        let op = get16(data, 0);
        let need: usize = if op == 0 {
            6
        } else if op == 1 {
            10
        } else if op == 2 {
            2
        } else if op == 3 {
            10
        } else if op == 4 {
            2
        } else if op == 6 {
            14
        } else if op == 7 {
            34
        } else if op == 8 {
            14
        } else if op == 9 {
            14
        } else if op == 10 {
            24
        } else {
            0
        };
        n - 2 >= need
    }

    /// Splits a datagram into the message it starts with and the bytes after that message.
    pub fn decode(data: &[u8]) -> (r: (Self, Vec<u8>))
        requires
            Self::decodable(data@),
        ensures
            Self::decodes_as(data@, r.0, r.1@),
    {
        let n = data.len();
        let opcode = get16(data, 0);
        let body = slice_subrange(data, OPCODE_LEN, n);
        assert(body@ =~= body_of(data@));
        let bn = body.len();
        match opcode {
            0 => (
                Self::CmdOk(MsgOk::decode_from_be_bytes(body)),
                slice_to_vec(slice_subrange(body, MsgOk::PACKED_LEN, bn)),
            ),
            1 => (
                Self::CmdRetransmit(MsgRetransmit::decode_from_be_bytes(body)),
                slice_to_vec(slice_subrange(body, MsgRetransmit::PACKED_LEN, bn)),
            ),
            2 => (
                Self::CmdGo(MsgGo::decode_from_be_bytes(body)),
                slice_to_vec(slice_subrange(body, MsgGo::PACKED_LEN, bn)),
            ),
            3 => (
                Self::CmdConnectReq(MsgConnectReq::decode_from_be_bytes(body)),
                slice_to_vec(slice_subrange(body, MsgConnectReq::PACKED_LEN, bn)),
            ),
            4 => (
                Self::CmdDisconnect(MsgDisconnect::decode_from_be_bytes(body)),
                slice_to_vec(slice_subrange(body, MsgDisconnect::PACKED_LEN, bn)),
            ),
            6 => (
                Self::CmdReqack(MsgReqAck::decode_from_be_bytes(body)),
                slice_to_vec(slice_subrange(body, MsgReqAck::PACKED_LEN, bn)),
            ),
            7 => (
                Self::CmdConnectReply(MsgConnectReply::decode_from_be_bytes(body)),
                slice_to_vec(slice_subrange(body, MsgConnectReply::PACKED_LEN, bn)),
            ),
            8 => (
                Self::CmdData(DataBlock::decode_from_be_bytes(body)),
                slice_to_vec(slice_subrange(body, DataBlock::PACKED_LEN, bn)),
            ),
            9 => (
                Self::CmdFec(FecBlock::decode_from_be_bytes(body)),
                slice_to_vec(slice_subrange(body, FecBlock::PACKED_LEN, bn)),
            ),
            10 => (
                Self::CmdHello(MsgHello::decode_from_be_bytes(body)),
                slice_to_vec(slice_subrange(body, MsgHello::PACKED_LEN, bn)),
            ),
            _ => (Self::Unknown, Vec::new()),
        }
    }

    /// The wire form of the message: the opcode, big-endian, then the message body; a single
    /// zero byte for a message without wire form.
    pub fn encode(&self) -> (r: Vec<u8>)
        ensures
            r@ == self.spec_encode(),
    {
        let mut out: Vec<u8> = Vec::new();
        match self {
            Message::CmdOk(m) => {
                put16(&mut out, 0);
                m.append_be_bytes(&mut out);
            },
            Message::CmdRetransmit(m) => {
                put16(&mut out, 1);
                m.append_be_bytes(&mut out);
            },
            Message::CmdGo(m) => {
                put16(&mut out, 2);
                m.append_be_bytes(&mut out);
            },
            Message::CmdConnectReq(m) => {
                put16(&mut out, 3);
                m.append_be_bytes(&mut out);
            },
            Message::CmdDisconnect(m) => {
                put16(&mut out, 4);
                m.append_be_bytes(&mut out);
            },
            Message::CmdReqack(m) => {
                put16(&mut out, 6);
                m.append_be_bytes(&mut out);
            },
            Message::CmdConnectReply(m) => {
                put16(&mut out, 7);
                m.append_be_bytes(&mut out);
            },
            Message::CmdData(m) => {
                put16(&mut out, 8);
                m.append_be_bytes(&mut out);
            },
            Message::CmdFec(m) => {
                put16(&mut out, 9);
                m.append_be_bytes(&mut out);
            },
            Message::CmdHello(m) => {
                put16(&mut out, 10);
                m.append_be_bytes(&mut out);
            },
            _ => {
                out.push(0u8);
                assert(out@ =~= seq![0u8]);
            },
        }
        out
    }
}

proof fn lemma_decode_encode_msg_ok(x: MsgOk, tail: Seq<u8>)
    ensures
        Message::decodable(Message::CmdOk(x).spec_encode() + tail),
        Message::decodes_as(Message::CmdOk(x).spec_encode() + tail, Message::CmdOk(x), tail),
{
    let b = Message::CmdOk(x).spec_encode() + tail;
    lemma_msg_ok_wire(x, tail);
    lemma_be16_roundtrip(0);
    assert(b.subrange(0, 2) =~= be16(0));
    assert(body_of(b) =~= x.wire() + tail);
    assert(body_of(b).subrange(6, body_of(b).len() as int) =~= tail);
}

proof fn lemma_encode_decode_msg_ok(b: Seq<u8>, x: MsgOk, rest: Seq<u8>)
    requires
        Message::decodes_as(b, Message::CmdOk(x), rest),
    ensures
        Message::CmdOk(x).spec_encode() + rest == b,
{
    lemma_from_be16_roundtrip(b.subrange(0, 2));
    let body = body_of(b);
    lemma_msg_ok_parsed(x, body);
    assert(b =~= b.subrange(0, 2) + body.subrange(0, 6) + body.subrange(6, body.len() as int));
}

proof fn lemma_decode_encode_msg_retransmit(x: MsgRetransmit, tail: Seq<u8>)
    ensures
        Message::decodable(Message::CmdRetransmit(x).spec_encode() + tail),
        Message::decodes_as(Message::CmdRetransmit(x).spec_encode() + tail, Message::CmdRetransmit(x), tail),
{
    let b = Message::CmdRetransmit(x).spec_encode() + tail;
    lemma_msg_retransmit_wire(x, tail);
    lemma_be16_roundtrip(1);
    assert(b.subrange(0, 2) =~= be16(1));
    assert(body_of(b) =~= x.wire() + tail);
    assert(body_of(b).subrange(10, body_of(b).len() as int) =~= tail);
}

proof fn lemma_encode_decode_msg_retransmit(b: Seq<u8>, x: MsgRetransmit, rest: Seq<u8>)
    requires
        Message::decodes_as(b, Message::CmdRetransmit(x), rest),
    ensures
        Message::CmdRetransmit(x).spec_encode() + rest == b,
{
    lemma_from_be16_roundtrip(b.subrange(0, 2));
    let body = body_of(b);
    lemma_msg_retransmit_parsed(x, body);
    assert(b =~= b.subrange(0, 2) + body.subrange(0, 10) + body.subrange(10, body.len() as int));
}

proof fn lemma_decode_encode_msg_go(x: MsgGo, tail: Seq<u8>)
    ensures
        Message::decodable(Message::CmdGo(x).spec_encode() + tail),
        Message::decodes_as(Message::CmdGo(x).spec_encode() + tail, Message::CmdGo(x), tail),
{
    let b = Message::CmdGo(x).spec_encode() + tail;
    lemma_msg_go_wire(x, tail);
    lemma_be16_roundtrip(2);
    assert(b.subrange(0, 2) =~= be16(2));
    assert(body_of(b) =~= x.wire() + tail);
    assert(body_of(b).subrange(2, body_of(b).len() as int) =~= tail);
}

proof fn lemma_encode_decode_msg_go(b: Seq<u8>, x: MsgGo, rest: Seq<u8>)
    requires
        Message::decodes_as(b, Message::CmdGo(x), rest),
    ensures
        Message::CmdGo(x).spec_encode() + rest == b,
{
    lemma_from_be16_roundtrip(b.subrange(0, 2));
    let body = body_of(b);
    lemma_msg_go_parsed(x, body);
    assert(b =~= b.subrange(0, 2) + body.subrange(0, 2) + body.subrange(2, body.len() as int));
}

proof fn lemma_decode_encode_msg_connect_req(x: MsgConnectReq, tail: Seq<u8>)
    ensures
        Message::decodable(Message::CmdConnectReq(x).spec_encode() + tail),
        Message::decodes_as(Message::CmdConnectReq(x).spec_encode() + tail, Message::CmdConnectReq(x), tail),
{
    let b = Message::CmdConnectReq(x).spec_encode() + tail;
    lemma_msg_connect_req_wire(x, tail);
    lemma_be16_roundtrip(3);
    assert(b.subrange(0, 2) =~= be16(3));
    assert(body_of(b) =~= x.wire() + tail);
    assert(body_of(b).subrange(10, body_of(b).len() as int) =~= tail);
}

proof fn lemma_encode_decode_msg_connect_req(b: Seq<u8>, x: MsgConnectReq, rest: Seq<u8>)
    requires
        Message::decodes_as(b, Message::CmdConnectReq(x), rest),
    ensures
        Message::CmdConnectReq(x).spec_encode() + rest == b,
{
    lemma_from_be16_roundtrip(b.subrange(0, 2));
    let body = body_of(b);
    lemma_msg_connect_req_parsed(x, body);
    assert(b =~= b.subrange(0, 2) + body.subrange(0, 10) + body.subrange(10, body.len() as int));
}

proof fn lemma_decode_encode_msg_disconnect(x: MsgDisconnect, tail: Seq<u8>)
    ensures
        Message::decodable(Message::CmdDisconnect(x).spec_encode() + tail),
        Message::decodes_as(Message::CmdDisconnect(x).spec_encode() + tail, Message::CmdDisconnect(x), tail),
{
    let b = Message::CmdDisconnect(x).spec_encode() + tail;
    lemma_msg_disconnect_wire(x, tail);
    lemma_be16_roundtrip(4);
    assert(b.subrange(0, 2) =~= be16(4));
    assert(body_of(b) =~= x.wire() + tail);
    assert(body_of(b).subrange(2, body_of(b).len() as int) =~= tail);
}

proof fn lemma_encode_decode_msg_disconnect(b: Seq<u8>, x: MsgDisconnect, rest: Seq<u8>)
    requires
        Message::decodes_as(b, Message::CmdDisconnect(x), rest),
    ensures
        Message::CmdDisconnect(x).spec_encode() + rest == b,
{
    lemma_from_be16_roundtrip(b.subrange(0, 2));
    let body = body_of(b);
    lemma_msg_disconnect_parsed(x, body);
    assert(b =~= b.subrange(0, 2) + body.subrange(0, 2) + body.subrange(2, body.len() as int));
}

proof fn lemma_decode_encode_msg_req_ack(x: MsgReqAck, tail: Seq<u8>)
    ensures
        Message::decodable(Message::CmdReqack(x).spec_encode() + tail),
        Message::decodes_as(Message::CmdReqack(x).spec_encode() + tail, Message::CmdReqack(x), tail),
{
    let b = Message::CmdReqack(x).spec_encode() + tail;
    lemma_msg_req_ack_wire(x, tail);
    lemma_be16_roundtrip(6);
    assert(b.subrange(0, 2) =~= be16(6));
    assert(body_of(b) =~= x.wire() + tail);
    assert(body_of(b).subrange(14, body_of(b).len() as int) =~= tail);
}

proof fn lemma_encode_decode_msg_req_ack(b: Seq<u8>, x: MsgReqAck, rest: Seq<u8>)
    requires
        Message::decodes_as(b, Message::CmdReqack(x), rest),
    ensures
        Message::CmdReqack(x).spec_encode() + rest == b,
{
    lemma_from_be16_roundtrip(b.subrange(0, 2));
    let body = body_of(b);
    lemma_msg_req_ack_parsed(x, body);
    assert(b =~= b.subrange(0, 2) + body.subrange(0, 14) + body.subrange(14, body.len() as int));
}

proof fn lemma_decode_encode_msg_connect_reply(x: MsgConnectReply, tail: Seq<u8>)
    ensures
        Message::decodable(Message::CmdConnectReply(x).spec_encode() + tail),
        Message::decodes_as(Message::CmdConnectReply(x).spec_encode() + tail, Message::CmdConnectReply(x), tail),
{
    let b = Message::CmdConnectReply(x).spec_encode() + tail;
    lemma_msg_connect_reply_wire(x, tail);
    lemma_be16_roundtrip(7);
    assert(b.subrange(0, 2) =~= be16(7));
    assert(body_of(b) =~= x.wire() + tail);
    assert(body_of(b).subrange(34, body_of(b).len() as int) =~= tail);
}

proof fn lemma_encode_decode_msg_connect_reply(b: Seq<u8>, x: MsgConnectReply, rest: Seq<u8>)
    requires
        Message::decodes_as(b, Message::CmdConnectReply(x), rest),
    ensures
        Message::CmdConnectReply(x).spec_encode() + rest == b,
{
    lemma_from_be16_roundtrip(b.subrange(0, 2));
    let body = body_of(b);
    lemma_msg_connect_reply_parsed(x, body);
    assert(b =~= b.subrange(0, 2) + body.subrange(0, 34) + body.subrange(34, body.len() as int));
}

proof fn lemma_decode_encode_data_block(x: DataBlock, tail: Seq<u8>)
    ensures
        Message::decodable(Message::CmdData(x).spec_encode() + tail),
        Message::decodes_as(Message::CmdData(x).spec_encode() + tail, Message::CmdData(x), tail),
{
    let b = Message::CmdData(x).spec_encode() + tail;
    lemma_data_block_wire(x, tail);
    lemma_be16_roundtrip(8);
    assert(b.subrange(0, 2) =~= be16(8));
    assert(body_of(b) =~= x.wire() + tail);
    assert(body_of(b).subrange(14, body_of(b).len() as int) =~= tail);
}

proof fn lemma_encode_decode_data_block(b: Seq<u8>, x: DataBlock, rest: Seq<u8>)
    requires
        Message::decodes_as(b, Message::CmdData(x), rest),
    ensures
        Message::CmdData(x).spec_encode() + rest == b,
{
    lemma_from_be16_roundtrip(b.subrange(0, 2));
    let body = body_of(b);
    lemma_data_block_parsed(x, body);
    assert(b =~= b.subrange(0, 2) + body.subrange(0, 14) + body.subrange(14, body.len() as int));
}

proof fn lemma_decode_encode_fec_block(x: FecBlock, tail: Seq<u8>)
    ensures
        Message::decodable(Message::CmdFec(x).spec_encode() + tail),
        Message::decodes_as(Message::CmdFec(x).spec_encode() + tail, Message::CmdFec(x), tail),
{
    let b = Message::CmdFec(x).spec_encode() + tail;
    lemma_fec_block_wire(x, tail);
    lemma_be16_roundtrip(9);
    assert(b.subrange(0, 2) =~= be16(9));
    assert(body_of(b) =~= x.wire() + tail);
    assert(body_of(b).subrange(14, body_of(b).len() as int) =~= tail);
}

proof fn lemma_encode_decode_fec_block(b: Seq<u8>, x: FecBlock, rest: Seq<u8>)
    requires
        Message::decodes_as(b, Message::CmdFec(x), rest),
    ensures
        Message::CmdFec(x).spec_encode() + rest == b,
{
    lemma_from_be16_roundtrip(b.subrange(0, 2));
    let body = body_of(b);
    lemma_fec_block_parsed(x, body);
    assert(b =~= b.subrange(0, 2) + body.subrange(0, 14) + body.subrange(14, body.len() as int));
}

proof fn lemma_decode_encode_msg_hello(x: MsgHello, tail: Seq<u8>)
    ensures
        Message::decodable(Message::CmdHello(x).spec_encode() + tail),
        Message::decodes_as(Message::CmdHello(x).spec_encode() + tail, Message::CmdHello(x), tail),
{
    let b = Message::CmdHello(x).spec_encode() + tail;
    lemma_msg_hello_wire(x, tail);
    lemma_be16_roundtrip(10);
    assert(b.subrange(0, 2) =~= be16(10));
    assert(body_of(b) =~= x.wire() + tail);
    assert(body_of(b).subrange(24, body_of(b).len() as int) =~= tail);
}

proof fn lemma_encode_decode_msg_hello(b: Seq<u8>, x: MsgHello, rest: Seq<u8>)
    requires
        Message::decodes_as(b, Message::CmdHello(x), rest),
    ensures
        Message::CmdHello(x).spec_encode() + rest == b,
{
    lemma_from_be16_roundtrip(b.subrange(0, 2));
    let body = body_of(b);
    lemma_msg_hello_parsed(x, body);
    assert(b =~= b.subrange(0, 2) + body.subrange(0, 24) + body.subrange(24, body.len() as int));
}

/// Decoding the wire form of a message that has one, followed by any bytes, gives the
/// message back with those bytes after it.
pub proof fn lemma_decode_encode(m: Message, tail: Seq<u8>)
    requires
        m.is_wire_message(),
    ensures
        Message::decodable(m.spec_encode() + tail),
        Message::decodes_as(m.spec_encode() + tail, m, tail),
{
    match m {
        Message::CmdOk(x) => lemma_decode_encode_msg_ok(x, tail),
        Message::CmdRetransmit(x) => lemma_decode_encode_msg_retransmit(x, tail),
        Message::CmdGo(x) => lemma_decode_encode_msg_go(x, tail),
        Message::CmdConnectReq(x) => lemma_decode_encode_msg_connect_req(x, tail),
        Message::CmdDisconnect(x) => lemma_decode_encode_msg_disconnect(x, tail),
        Message::CmdReqack(x) => lemma_decode_encode_msg_req_ack(x, tail),
        Message::CmdConnectReply(x) => lemma_decode_encode_msg_connect_reply(x, tail),
        Message::CmdData(x) => lemma_decode_encode_data_block(x, tail),
        Message::CmdFec(x) => lemma_decode_encode_fec_block(x, tail),
        Message::CmdHello(x) => lemma_decode_encode_msg_hello(x, tail),
        _ => {},
    }
}

/// A byte sequence decodes in at most one way.
pub proof fn lemma_decodes_unique(b: Seq<u8>, m1: Message, r1: Seq<u8>, m2: Message, r2: Seq<u8>)
    requires
        Message::decodes_as(b, m1, r1),
        Message::decodes_as(b, m2, r2),
    ensures
        m1 == m2,
        r1 == r2,
{
    match (m1, m2) {
        (Message::CmdOk(x), Message::CmdOk(y)) => {
            lemma_msg_ok_unique(x, y, body_of(b));
        },
        (Message::CmdRetransmit(x), Message::CmdRetransmit(y)) => {
            lemma_msg_retransmit_unique(x, y, body_of(b));
        },
        (Message::CmdGo(x), Message::CmdGo(y)) => {
            lemma_msg_go_unique(x, y, body_of(b));
        },
        (Message::CmdConnectReq(x), Message::CmdConnectReq(y)) => {
            lemma_msg_connect_req_unique(x, y, body_of(b));
        },
        (Message::CmdDisconnect(x), Message::CmdDisconnect(y)) => {
            lemma_msg_disconnect_unique(x, y, body_of(b));
        },
        (Message::CmdReqack(x), Message::CmdReqack(y)) => {
            lemma_msg_req_ack_unique(x, y, body_of(b));
        },
        (Message::CmdConnectReply(x), Message::CmdConnectReply(y)) => {
            lemma_msg_connect_reply_unique(x, y, body_of(b));
        },
        (Message::CmdData(x), Message::CmdData(y)) => {
            lemma_data_block_unique(x, y, body_of(b));
        },
        (Message::CmdFec(x), Message::CmdFec(y)) => {
            lemma_fec_block_unique(x, y, body_of(b));
        },
        (Message::CmdHello(x), Message::CmdHello(y)) => {
            lemma_msg_hello_unique(x, y, body_of(b));
        },
        _ => {},
    }
}

/// What a message was decoded from is its wire form followed by the bytes left over.
pub proof fn lemma_encode_decode(b: Seq<u8>, m: Message, rest: Seq<u8>)
    requires
        Message::decodes_as(b, m, rest),
        m.is_wire_message(),
    ensures
        m.spec_encode() + rest == b,
{
    match m {
        Message::CmdOk(x) => lemma_encode_decode_msg_ok(b, x, rest),
        Message::CmdRetransmit(x) => lemma_encode_decode_msg_retransmit(b, x, rest),
        Message::CmdGo(x) => lemma_encode_decode_msg_go(b, x, rest),
        Message::CmdConnectReq(x) => lemma_encode_decode_msg_connect_req(b, x, rest),
        Message::CmdDisconnect(x) => lemma_encode_decode_msg_disconnect(b, x, rest),
        Message::CmdReqack(x) => lemma_encode_decode_msg_req_ack(b, x, rest),
        Message::CmdConnectReply(x) => lemma_encode_decode_msg_connect_reply(b, x, rest),
        Message::CmdData(x) => lemma_encode_decode_data_block(b, x, rest),
        Message::CmdFec(x) => lemma_encode_decode_fec_block(b, x, rest),
        Message::CmdHello(x) => lemma_encode_decode_msg_hello(b, x, rest),
        _ => {},
    }
}

} // verus!
