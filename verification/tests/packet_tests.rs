use img_caster::packet::{
    DataBlock, FecBlock, Message, MsgConnectReply, MsgConnectReq, MsgDisconnect, MsgGo, MsgHello,
    MsgOk, MsgReqAck, MsgRetransmit, Opcode, Retransmit,
};

fn roundtrip(m: &Message) -> (Message, Vec<u8>) {
    let mut bytes = m.encode();
    bytes.extend_from_slice(&[0xaa, 0xbb]);
    assert!(Message::can_decode(&bytes));
    Message::decode(&bytes)
}

#[test]
fn ok_encodes_big_endian() {
    let m = Message::CmdOk(MsgOk::new(0x0102_0304));
    assert_eq!(m.encode(), vec![0u8, 0, 0, 0, 1, 2, 3, 4]);
}

#[test]
fn reqack_encodes_big_endian() {
    let m = Message::CmdReqack(MsgReqAck::new(1, 0x100, 2));
    assert_eq!(m.encode(), vec![0u8, 6, 0, 0, 0, 0, 0, 1, 0, 0, 1, 0, 0, 0, 0, 2]);
}

#[test]
fn data_block_encodes_fields_in_order() {
    let m = Message::CmdData(DataBlock::new(7, 0x0203, 1536));
    assert_eq!(m.encode(), vec![0u8, 8, 0, 0, 0, 0, 0, 7, 2, 3, 0, 0, 0, 0, 6, 0]);
}

#[test]
fn packed_lengths() {
    assert_eq!(MsgOk::PACKED_LEN, 6);
    assert_eq!(MsgRetransmit::PACKED_LEN, 10);
    assert_eq!(MsgGo::PACKED_LEN, 2);
    assert_eq!(MsgConnectReq::PACKED_LEN, 10);
    assert_eq!(MsgDisconnect::PACKED_LEN, 2);
    assert_eq!(MsgReqAck::PACKED_LEN, 14);
    assert_eq!(MsgConnectReply::PACKED_LEN, 34);
    assert_eq!(DataBlock::PACKED_LEN, 14);
    assert_eq!(FecBlock::PACKED_LEN, 14);
    assert_eq!(MsgHello::PACKED_LEN, 24);
}

#[test]
fn every_message_decodes_back_with_the_tail() {
    let msgs = vec![
        Message::CmdOk(MsgOk::new(5)),
        Message::CmdRetransmit(MsgRetransmit::new(6, 7)),
        Message::CmdGo(MsgGo::new()),
        Message::CmdConnectReq(MsgConnectReq::new(0x81, 8 << 20)),
        Message::CmdDisconnect(MsgDisconnect::new()),
        Message::CmdReqack(MsgReqAck::new(1, 2, 3)),
        Message::CmdConnectReply(MsgConnectReply::new(4, 1536, 9, 2048, 0xe801_0203)),
        Message::CmdData(DataBlock::new(10, 11, 12)),
        Message::CmdFec(FecBlock::new(1, 2, 3, 4)),
        Message::CmdHello(MsgHello::new(9, 0xe800_0001, 1536)),
    ];
    for m in msgs.iter() {
        let (d, tail) = roundtrip(m);
        assert_eq!(format!("{:?}", d), format!("{:?}", m));
        assert_eq!(tail, vec![0xaau8, 0xbb]);
    }
}

#[test]
fn decoded_fields() {
    let (m, tail) = Message::decode(&[0u8, 1, 0, 0, 0, 0, 0, 9, 0, 0, 0, 2, 0xff]);
    match m {
        Message::CmdRetransmit(r) => {
            assert_eq!(r.sliceno, 9);
            assert_eq!(r.rxmit, 2);
            assert_eq!(r.reserved, 0);
        }
        _ => panic!("wrong message"),
    }
    assert_eq!(tail, vec![0xffu8]);
}

#[test]
fn unknown_opcodes_decode_as_unknown_with_nothing_left() {
    let (m, tail) = Message::decode(&[0u8, 5, 1, 2, 3]);
    assert!(matches!(m, Message::Unknown));
    assert!(tail.is_empty());
    let (m, tail) = Message::decode(&[0x05u8, 0x00]);
    assert!(matches!(m, Message::Unknown));
    assert!(tail.is_empty());
}

#[test]
fn short_datagrams_are_refused() {
    assert!(!Message::can_decode(&[]));
    assert!(!Message::can_decode(&[0u8]));
    assert!(!Message::can_decode(&[0u8, 0, 0, 0, 0, 0, 0]));
    assert!(Message::can_decode(&[0u8, 0, 0, 0, 0, 0, 0, 0]));
    assert!(Message::can_decode(&[0u8, 11]));
}

#[test]
fn messages_without_wire_form_encode_as_one_zero() {
    assert_eq!(Message::Unknown.encode(), vec![0u8]);
    assert_eq!(Message::CmdUnused.encode(), vec![0u8]);
}

#[test]
fn addresses_read_back() {
    let r = MsgConnectReply::new(1, 2, 3, 4, 0xc0a8_0101);
    assert_eq!(r.mcastaddr(), 0xc0a8_0101);
    assert_eq!(&r.mcastaddr[..4], &[0xc0u8, 0xa8, 1, 1]);
    assert!(r.mcastaddr[4..].iter().all(|b| *b == 0));
    let h = MsgHello::new(1, 0xe800_0102, 1536);
    assert_eq!(h.mcastaddr(), 0xe800_0102);
}

#[test]
fn opcode_codes() {
    assert_eq!(Opcode::CmdOk.code(), 0);
    assert_eq!(Opcode::CmdData.code(), 8);
    assert_eq!(Opcode::CmdHelloStreaming.code(), 11);
    assert_eq!(Opcode::CmdHello.code(), 0x500);
}

#[test]
fn retransmit_starts_with_an_empty_map() {
    let mut r = Retransmit::new(3, 4, 12);
    assert_eq!(r.msg, MsgRetransmit::new(3, 4));
    assert_eq!(r.map.bits(), vec![0u8, 0]);
}
