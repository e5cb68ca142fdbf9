use img_caster::slice::Slice;

#[test]
fn new_counts_blocks_rounding_up() {
    let s = Slice::new(3, 1536 * 4 + 1, 1536, 4096, 2048);
    assert_eq!(s.blocks_in_slice, 5);
    assert_eq!(s.blocks_transferred, 0);
    assert_eq!(s.slice_no, 3);
    assert_eq!(s.duration, 0);
    assert_eq!(s.base, 4096);
    assert_eq!(s.reqack.sliceno, 3);
    assert_eq!(s.reqack.bytes, 1536 * 4 + 1);
    assert!(!s.is_completed());
    let empty = Slice::new(0, 0, 1536, 0, 10);
    assert_eq!(empty.blocks_in_slice, 0);
    assert!(empty.is_completed());
}

#[test]
fn update_block_counts_each_block_once() {
    let mut s = Slice::new(0, 3 * 512, 512, 0, 64);
    assert!(s.update_block(1));
    assert!(!s.update_block(1));
    assert_eq!(s.blocks_transferred, 1);
    assert!(s.update_block(0));
    assert!(!s.is_completed());
    assert!(s.update_block(2));
    assert!(s.is_completed());
    assert!(s.retransmit.map.get(0) && s.retransmit.map.get(1) && s.retransmit.map.get(2));
    assert!(!s.retransmit.map.get(3));
}

#[test]
fn block_positions() {
    let mut s = Slice::new(0, 10_000, 1536, 1000, 64);
    assert_eq!(s.get_block_pos(0), 1000);
    assert_eq!(s.get_block_pos(3), 1000 + 3 * 1536);
    assert_eq!(s.get_pos(3), 3 * 1536);
}
