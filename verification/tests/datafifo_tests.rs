use img_caster::datafifo::DataFIFO;
use img_caster::multicast::network_broadcast;
use img_caster::receiver::writer_finished;
use img_caster::MAX_BUFFER_SIZE;

#[test]
fn new_has_at_least_the_minimum_capacity() {
    let f = DataFIFO::new(10);
    assert!(!f.is_empty());
    assert_eq!(f.len(), 0);
    assert_eq!(f.endpoint(), 0);
    assert_eq!(f.slicebase(), 0);
    assert_eq!(f.written_bytes(), 0);
    assert!(!f.is_closed());
}

#[test]
fn push_then_pop_gives_bytes_in_order() {
    let mut f = DataFIFO::new(0);
    let mut a = vec![1u8, 2, 3];
    let mut b = vec![4u8, 5];
    f.push(&mut a).push(&mut b);
    assert_eq!(f.len(), 5);
    assert_eq!(f.pop(2), Some(vec![1u8, 2]));
    assert_eq!(f.pop(3), Some(vec![3u8, 4, 5]));
    assert_eq!(f.len(), 0);
    assert_eq!(f.written_bytes(), 5);
}

#[test]
fn push_wraps_around_the_ring() {
    let cap = MAX_BUFFER_SIZE;
    let mut f = DataFIFO::new(cap);
    let mut head = vec![9u8; cap - 2];
    f.push(&mut head);
    f.pop(cap - 2);
    let mut data = vec![10u8, 11, 12, 13];
    f.push(&mut data);
    assert_eq!(f.len(), 4);
    assert_eq!(f.pop(4), Some(vec![10u8, 11, 12, 13]));
}

#[test]
fn fifo_set_then_get_reads_back() {
    let mut f = DataFIFO::new(0);
    let mut zeros = vec![0u8; 16];
    f.push(&mut zeros);
    f.set(4, &[7u8, 8, 9]);
    assert_eq!(f.get(3, 5), vec![0u8, 7, 8, 9, 0]);
}

#[test]
fn get_is_cut_short_at_the_end_point() {
    let mut f = DataFIFO::new(0);
    let mut d = vec![1u8, 2, 3, 4];
    f.push(&mut d);
    assert_eq!(f.get(2, 10), vec![3u8, 4]);
    assert_eq!(f.get(4, 10), Vec::<u8>::new());
}

#[test]
fn reserve_moves_end_point_to_slice_base() {
    let mut f = DataFIFO::new(0);
    assert_eq!(f.reserve(100), 0);
    assert_eq!(f.slicebase(), 100);
    assert_eq!(f.endpoint(), 0);
    assert_eq!(f.reserve(50), 100);
    assert_eq!(f.endpoint(), 100);
    assert_eq!(f.slicebase(), 150);
}

#[test]
fn assign_stops_at_the_end_point() {
    let mut f = DataFIFO::new(0);
    let mut d = vec![0u8; 1000];
    f.push(&mut d);
    assert_eq!(f.assign(600), 0);
    assert_eq!(f.slicebase(), 600);
    assert_eq!(f.remain(), 400);
    assert_eq!(f.assign(600), 600);
    assert_eq!(f.slicebase(), 1000);
    assert_eq!(f.remain(), 0);
}

#[test]
fn drain_close_and_clear() {
    let mut f = DataFIFO::new(0);
    let mut d = vec![5u8; 10];
    f.push(&mut d);
    f.drain(4);
    assert_eq!(f.len(), 6);
    assert_eq!(f.written_bytes(), 4);
    f.close();
    assert!(f.is_closed());
    f.clear();
    assert!(f.is_empty());
    assert_eq!(f.len(), 6);
}

#[test]
fn capacity_above_minimum_is_kept() {
    let mut f = DataFIFO::new(MAX_BUFFER_SIZE + 3);
    let mut head = vec![1u8; MAX_BUFFER_SIZE + 1];
    f.push(&mut head);
    f.pop(MAX_BUFFER_SIZE + 1);
    let mut tail = vec![2u8, 3, 4];
    f.push(&mut tail);
    // Two bytes fit before the end of a ring of MAX_BUFFER_SIZE + 3 bytes, the third wraps.
    assert_eq!(f.get(MAX_BUFFER_SIZE + 1, 3), vec![2u8, 3, 4]);
    // Stream position 0 shares its slot with position MAX_BUFFER_SIZE + 3, which now holds 4.
    assert_eq!(f.get(0, 1), vec![4u8]);
}

#[test]
fn a_closed_fifo_stays_closed() {
    let mut f = DataFIFO::new(0);
    let mut data = vec![1u8, 2, 3, 4];
    f.push(&mut data);
    f.close();
    let before = (f.written_bytes(), f.endpoint(), f.slicebase(), f.len());
    f.close();
    assert_eq!((f.written_bytes(), f.endpoint(), f.slicebase(), f.len()), before);
    f.assign(2);
    f.pop(2);
    f.set(0, &[9]);
    f.get(0, 1);
    f.reserve(8);
    f.drain(1);
    f.clear();
    assert!(f.is_closed());
}

#[test]
fn writer_finishes_once_closed_and_drained() {
    let mut f = DataFIFO::new(0);
    assert!(!writer_finished(&f));
    let mut data = vec![5u8; 10];
    f.push(&mut data);
    f.close();
    assert!(!writer_finished(&f));
    f.pop(10);
    assert!(writer_finished(&f));
}

#[test]
fn broadcast_of_a_network() {
    assert_eq!(network_broadcast(0xac10_0000, 22), Some(0xac10_03ff));
    assert_eq!(network_broadcast(0xc0a8_0117, 24), Some(0xc0a8_01ff));
    assert_eq!(network_broadcast(0x0a01_0203, 32), Some(0x0a01_0203));
    assert_eq!(network_broadcast(0, 0), Some(0xffff_ffff));
    assert_eq!(network_broadcast(0x0a01_0203, 33), None);
}
