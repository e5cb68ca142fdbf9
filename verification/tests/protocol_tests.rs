use img_caster::datafifo::DataFIFO;
use img_caster::multicast::{multicast_group, receiver_endpoints, sender_endpoints};
use img_caster::packet::{Message, MsgReqAck, MsgRetransmit};
use img_caster::receiver::{
    already_acknowledged, receive_block, reqack_action, reserve_slice, retransmit_datagram,
    write_request, ReqAckAction, MAX_WRITE_SIZE,
};
use img_caster::sender::{
    data_datagram, disconnect_datagram, make_slice, next_slice_size, read_request, slice_len,
    transfer_step, TransferStep,
};
use img_caster::slice::Slice;
use img_caster::{MAX_BUFFER_SIZE, PORTBASE};

#[test]
fn slice_size_grows_after_a_clean_slice() {
    assert_eq!(next_slice_size(130, 2048, 0, 0, 130), 162);
    assert_eq!(next_slice_size(2000, 2048, 0, 0, 2000), 2048);
    assert_eq!(next_slice_size(130, 2048, 1, 0, 130), 130);
}

#[test]
fn slice_size_shrinks_after_losses() {
    // Received only up to block 40 of 130: less than half the size, so the size halves.
    assert_eq!(next_slice_size(200, 2048, 1, 40, 130), 100);
    // Received up to block 120: the size becomes that block.
    assert_eq!(next_slice_size(200, 2048, 1, 120, 130), 120);
    // Never below 32.
    assert_eq!(next_slice_size(40, 2048, 1, 5, 40), 32);
    assert_eq!(next_slice_size(10, 2048, 1, 0, 40), 32);
}

#[test]
fn slice_len_cases() {
    assert_eq!(slice_len(1536, 130, 10 * 1024 * 1024), 1536 * 130);
    assert_eq!(slice_len(1536, 130, 1536 * 10 + 5), 1536 * 10);
    assert_eq!(slice_len(1536, 130, 1000), 1000);
    assert_eq!(slice_len(1536, 130, 0), 0);
}

#[test]
fn make_slice_assigns_from_the_fifo() {
    let mut f = DataFIFO::new(0);
    let mut d = vec![1u8; 5000];
    f.push(&mut d);
    let s = make_slice(&mut f, 0, 1536, 130, 2048);
    assert_eq!(s.bytes, 1536 * 3);
    assert_eq!(s.blocks_in_slice, 3);
    assert_eq!(s.base, 0);
    assert_eq!(f.slicebase(), 1536 * 3);
    let s2 = make_slice(&mut f, 1, 1536, 130, 2048);
    assert_eq!(s2.bytes, 5000 - 1536 * 3);
    assert_eq!(s2.blocks_in_slice, 1);
    assert_eq!(s2.base, 1536 * 3);
    assert_eq!(f.slicebase(), 5000);
    let s3 = make_slice(&mut f, 2, 1536, 130, 2048);
    assert_eq!(s3.bytes, 0);
}

#[test]
fn read_request_fills_whole_chunks() {
    assert_eq!(read_request(0, 1 << 20), MAX_BUFFER_SIZE);
    assert_eq!(read_request(100, 1 << 20), MAX_BUFFER_SIZE - (1 << 20));
    assert_eq!(read_request(MAX_BUFFER_SIZE, 1 << 20), 0);
}

#[test]
fn transfer_steps() {
    assert_eq!(transfer_step(false, 0, 3, 0, 0, false), TransferStep::NextSlice);
    assert_eq!(transfer_step(true, 1, 3, 1, 0, false), TransferStep::ResendReqAck);
    assert_eq!(transfer_step(true, 1, 3, 0, 11, false), TransferStep::DropClients);
    assert_eq!(transfer_step(true, 1, 3, 0, 10, false), TransferStep::Wait);
    assert_eq!(transfer_step(true, 3, 3, 5, 20, true), TransferStep::Retransmit);
    assert_eq!(transfer_step(true, 3, 3, 5, 20, false), TransferStep::NextSlice);
}

#[test]
fn blocks_to_send_skips_received_blocks_on_retransmission() {
    let mut s = Slice::new(0, 5 * 100, 100, 0, 64);
    assert_eq!(s.blocks_to_send(false), vec![0u32, 1, 2, 3, 4]);
    s.retransmit.map.set(1, true).set(3, true);
    s.need_rxmit = true;
    assert_eq!(s.blocks_to_send(true), vec![0u32, 2, 4]);
    assert_eq!(s.last_good_block, 3);
    assert!(!s.need_rxmit);
}

#[test]
fn answers_are_counted() {
    let mut s = Slice::new(0, 100, 100, 0, 64);
    s.handle_ok(2);
    assert_eq!(s.nr_answered, 1);
    assert!(s.ready_set.get(2));
    s.remove_client(2);
    assert_eq!(s.nr_answered, 0);
    assert!(!s.ready_set.get(2));
}

#[test]
fn retransmit_requests_merge_maps() {
    let mut s = Slice::new(0, 100, 100, 0, 16);
    s.rxmit_id = 2;
    assert!(s.handle_retransmit(&MsgRetransmit::new(0, 1), vec![0xffu8, 0xff]));
    assert_eq!(s.nr_answered, 1);
    assert!(!s.need_rxmit);
    assert!(s.handle_retransmit(&MsgRetransmit::new(0, 2), vec![0x05u8, 0x80]));
    assert_eq!(s.nr_answered, 2);
    assert!(s.need_rxmit);
    assert_eq!(s.retransmit.map.bits(), vec![0x05u8, 0x80]);
}

#[test]
fn reqack_datagram_stamps_the_round() {
    let mut s = Slice::new(4, 300, 100, 0, 16);
    s.next_rxmit();
    s.last_good_block = 2;
    s.handle_ok(0);
    let d = s.reqack_datagram();
    assert_eq!(s.reqack.rxmit, 1);
    assert_eq!(s.last_good_block, 0);
    assert_eq!(d.len(), 16 + 128);
    assert_eq!(&d[..16], &Message::CmdReqack(MsgReqAck::new(4, 300, 1)).encode()[..]);
    assert_eq!(d[16], 1);
}

#[test]
fn data_datagram_carries_the_block() {
    let mut f = DataFIFO::new(0);
    let mut d: Vec<u8> = (0..250u32).map(|x| x as u8).collect();
    f.push(&mut d);
    let mut s = make_slice(&mut f, 0, 100, 10, 64);
    let dg = data_datagram(&mut s, &mut f, 2, 100);
    assert_eq!(dg.len(), 16 + 50);
    assert_eq!(dg[16], 200);
    let (m, payload) = Message::decode(&dg);
    match m {
        Message::CmdData(b) => {
            assert_eq!(b.blockno, 2);
            assert_eq!(b.bytes, 200);
        }
        _ => panic!("not a data block"),
    }
    assert_eq!(payload.len(), 50);
}

#[test]
fn disconnect_datagram_is_an_empty_reqack() {
    let d = disconnect_datagram(9);
    assert_eq!(d.len(), 16 + 128);
    assert_eq!(&d[..16], &Message::CmdReqack(MsgReqAck::new(9, 0, 0)).encode()[..]);
    assert!(d[16..].iter().all(|b| *b == 0));
}

#[test]
fn acknowledged_receivers_are_seen() {
    let mut ready = vec![0u8; 128];
    ready[0] = 0b0000_0100;
    assert!(already_acknowledged(ready.clone(), 2));
    assert!(!already_acknowledged(ready, 3));
}

#[test]
fn reqack_actions() {
    assert_eq!(reqack_action(&MsgReqAck::new(5, 0, 0), true), ReqAckAction::Finish);
    assert_eq!(reqack_action(&MsgReqAck::new(5, 10, 0), true), ReqAckAction::Acknowledge);
    assert_eq!(reqack_action(&MsgReqAck::new(5, 0, 1), false), ReqAckAction::RequestRetransmit);
}

#[test]
fn write_requests() {
    assert_eq!(write_request(1000, false, 512), 512);
    assert_eq!(write_request(1000, true, 512), 1000);
    assert_eq!(write_request(100, false, 512), 0);
    assert_eq!(write_request(MAX_WRITE_SIZE + 4096, false, 512), MAX_WRITE_SIZE);
}

#[test]
fn received_blocks_land_at_their_position() {
    let mut f = DataFIFO::new(0);
    let mut s = reserve_slice(&mut f, 0, 250, 100, 64);
    assert_eq!(f.endpoint(), 0);
    assert_eq!(f.slicebase(), 250);
    let mut s2 = reserve_slice(&mut f, 1, 100, 100, 64);
    assert_eq!(f.endpoint(), 250);
    assert_eq!(s2.base, 250);
    receive_block(&mut s, &mut f, 2, &[7u8; 50]);
    receive_block(&mut s, &mut f, 0, &[5u8; 100]);
    receive_block(&mut s, &mut f, 1, &[6u8; 100]);
    assert!(s.is_completed());
    receive_block(&mut s, &mut f, 1, &[9u8; 100]);
    assert_eq!(f.get(0, 250)[..], [[5u8; 100].to_vec(), [6u8; 100].to_vec(), [7u8; 50].to_vec()].concat()[..]);
    assert!(!s2.is_completed());
    let dg = retransmit_datagram(&mut s2, &MsgReqAck::new(1, 100, 3));
    assert_eq!(&dg[..12], &Message::CmdRetransmit(MsgRetransmit::new(1, 3)).encode()[..]);
    assert_eq!(dg.len(), 12 + 8);
}

#[test]
fn endpoints_pair_up() {
    let ip = 0xc0a8_0105u32;
    assert_eq!(multicast_group(ip), 0xe8a8_0105);
    let r = receiver_endpoints(ip, 0xc0a8_01ff);
    let s = sender_endpoints(ip, 0xc0a8_01ff);
    assert_eq!(r.myip, (ip, PORTBASE));
    assert_eq!(s.multicast, (0xe8a8_0105, PORTBASE));
    assert_eq!(r.broadcast.1, s.myip.1);
}
