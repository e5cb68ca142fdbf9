use img_caster::packet::{Message, MsgConnectReply, MsgGo, MsgHello};
use img_caster::receiver::{connect_step, ConnectAction, ConnectState, REFUSED_CLIENT};
use img_caster::bitarray::BitArray;
use img_caster::sender::{
    enumerate_result, enumerate_step, quit_requested, transfer_over, ClientList, EnumAction,
    EnumError, EnumEvent, EnumReady,
};
use img_caster::slice::Slice;

fn connect(addr: (u32, u16), capabilities: u32) -> EnumEvent {
    EnumEvent::ConnectReq { addr, capabilities, rcvbuf: 4096 }
}

#[test]
fn clients_are_numbered_in_order_of_arrival() {
    let mut clients = ClientList::new();
    let a = (0xc0a8_0001, 9000);
    let b = (0xc0a8_0002, 9000);
    assert_eq!(enumerate_step(&mut clients, connect(a, 1)), EnumAction::Reply { clnr: 0 });
    assert_eq!(enumerate_step(&mut clients, connect(b, 2)), EnumAction::Reply { clnr: 1 });
    // A repeated request is answered with the number already given, and changes nothing.
    assert_eq!(enumerate_step(&mut clients, connect(a, 7)), EnumAction::Reply { clnr: 0 });
    assert_eq!(clients.len(), 2);
    assert_eq!(clients.get(a), Some((0, 1, 4096)));
    assert_eq!(clients.get(b), Some((1, 2, 4096)));
    assert!(!clients.contains((0xc0a8_0001, 9001)));
}

#[test]
fn disconnect_removes_the_client() {
    let mut clients = ClientList::new();
    let a = (1, 2);
    let b = (1, 3);
    enumerate_step(&mut clients, connect(a, 0));
    enumerate_step(&mut clients, connect(b, 0));
    assert_eq!(enumerate_step(&mut clients, EnumEvent::Disconnect { addr: a }), EnumAction::Continue);
    assert!(!clients.contains(a));
    assert!(clients.contains(b));
    assert_eq!(clients.len(), 1);
    // Unknown addresses leave the list as it is.
    assert_eq!(enumerate_step(&mut clients, EnumEvent::Disconnect { addr: (9, 9) }), EnumAction::Continue);
    assert_eq!(clients.len(), 1);
    // A newcomer is numbered by the count of clients at that time.
    assert_eq!(enumerate_step(&mut clients, connect((5, 5), 0)), EnumAction::Reply { clnr: 1 });
}

#[test]
fn go_ends_the_wait_and_other_messages_do_not() {
    let mut clients = ClientList::new();
    enumerate_step(&mut clients, connect((1, 1), 0));
    assert_eq!(enumerate_step(&mut clients, EnumEvent::Other), EnumAction::Continue);
    assert_eq!(enumerate_step(&mut clients, EnumEvent::Go), EnumAction::Stop);
    assert_eq!(clients.len(), 1);
}

#[test]
fn wait_result() {
    assert_eq!(enumerate_result(0, false), Err(EnumError::NoClients));
    assert_eq!(enumerate_result(0, true), Err(EnumError::NoClients));
    assert_eq!(enumerate_result(1, true), Ok(EnumReady { clients: 1, direct: true }));
    assert_eq!(enumerate_result(1, false), Ok(EnumReady { clients: 1, direct: false }));
    assert_eq!(enumerate_result(3, true), Ok(EnumReady { clients: 3, direct: false }));
}

fn fresh_state() -> ConnectState {
    ConnectState { client_number: 0, block_size: 0, max_slices: 1024, mcast_ip: 0, connect_req_sent: true }
}

#[test]
fn connect_reply_connects() {
    let mut state = fresh_state();
    let reply = MsgConnectReply::new(4, 1456, 0, 2048, 0xef00_0001);
    let action = connect_step(&mut state, &Message::CmdConnectReply(reply));
    assert_eq!(action, ConnectAction::Connected);
    assert_eq!(state.client_number, 4);
    assert_eq!(state.block_size, 1456);
    assert_eq!(state.max_slices, 2048);
    assert_eq!(state.mcast_ip, 0xef00_0001);
    assert!(state.connect_req_sent);
}

#[test]
fn connect_reply_with_the_refusal_number_is_refused() {
    let mut state = fresh_state();
    let reply = MsgConnectReply::new(REFUSED_CLIENT, 1456, 0, 2048, 0xef00_0001);
    assert_eq!(connect_step(&mut state, &Message::CmdConnectReply(reply)), ConnectAction::Refused);
    assert_eq!(state.client_number, 0xffff_ffff);
}

#[test]
fn hello_asks_for_a_new_connect_request() {
    let mut state = fresh_state();
    let hello = MsgHello::new(0, 0xef00_0002, 1024);
    assert_eq!(connect_step(&mut state, &Message::CmdHello(hello)), ConnectAction::Continue);
    assert!(!state.connect_req_sent);
    assert_eq!(state.block_size, 1024);
    assert_eq!(state.mcast_ip, 0xef00_0002);
    assert_eq!(state.client_number, 0);
    assert_eq!(state.max_slices, 1024);
}

#[test]
fn other_messages_change_nothing() {
    let mut state = fresh_state();
    assert_eq!(connect_step(&mut state, &Message::CmdGo(MsgGo::new())), ConnectAction::Continue);
    assert_eq!(state, fresh_state());
}

#[test]
fn slice_completes_when_every_block_arrived() {
    let mut s = Slice::new(0, 4 * 100, 100, 0, 16);
    let blocks = [2u32, 0, 2, 9, 1, 0];
    for b in blocks {
        s.update_block(b);
    }
    // Four distinct blocks arrived, one of them outside the slice.
    assert_eq!(s.blocks_transferred, 4);
    assert!(s.is_completed() == (s.blocks_transferred == s.blocks_in_slice));
    assert!(s.is_completed());
    for j in 0..16 {
        assert_eq!(s.retransmit.map.get(j), [0, 1, 2, 9].contains(&j));
    }
}

#[test]
fn unanswered_clients_are_the_ones_to_drop() {
    let mut clients = ClientList::new();
    let a = (0x0a00_0001, 9000);
    let b = (0x0a00_0002, 9000);
    let c = (0x0a00_0003, 9000);
    for addr in [a, b, c] {
        enumerate_step(&mut clients, connect(addr, 0));
    }
    let mut ready = BitArray::new(16);
    ready.set(1, true);
    assert!(clients.numbered_below(16));
    assert!(!clients.numbered_below(2));
    let mut dropped = clients.unanswered(&ready);
    dropped.sort();
    assert_eq!(dropped, vec![a, c]);
    ready.set(0, true);
    ready.set(2, true);
    assert!(clients.unanswered(&ready).is_empty());
}

#[test]
fn only_the_quit_key_stops_the_sender() {
    assert!(quit_requested(Some('q')));
    assert!(!quit_requested(Some('Q')));
    assert!(!quit_requested(Some('\r')));
    assert!(!quit_requested(None));
}

#[test]
fn transfer_is_over_on_an_empty_slice() {
    assert!(transfer_over(&Slice::new(7, 0, 1456, 0, 16)));
    assert!(!transfer_over(&Slice::new(7, 1, 1456, 0, 16)));
}
