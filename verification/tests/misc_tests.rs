use img_caster::databuffer::DataBuffer;
use img_caster::disk::{sector_aligned_len, DiskGeometryEx};
use img_caster::statistics::{Amount, State, Statistics};

#[test]
fn databuffer_is_a_queue() {
    let mut b = DataBuffer::new();
    assert!(b.is_empty());
    let mut a = vec![1u8, 2, 3];
    b.push(&mut a);
    let mut c = vec![4u8];
    b.push(&mut c);
    assert_eq!(b.len(), 4);
    assert_eq!(b.pop(3), vec![1u8, 2, 3]);
    assert_eq!(b.pop(1), vec![4u8]);
    assert!(b.is_empty());
}

#[test]
fn geometry_size() {
    let g = DiskGeometryEx {
        cylinders: 10,
        media_type: 12,
        tracks_per_cylinder: 255,
        sectors_per_track: 63,
        bytes_per_sector: 512,
        disk_size: 0,
        data: [0],
    };
    assert_eq!(g.sectors(), 10 * 255 * 63);
    assert_eq!(g.size(), 10 * 255 * 63 * 512);
}

#[test]
fn writes_round_up_to_sectors() {
    assert_eq!(sector_aligned_len(0), 0);
    assert_eq!(sector_aligned_len(1), 512);
    assert_eq!(sector_aligned_len(512), 512);
    assert_eq!(sector_aligned_len(513), 1024);
}

#[test]
fn amounts_add_and_subtract() {
    let a = Amount { latency: 5, bytes: 10, counts: 1 };
    let b = Amount { latency: 2, bytes: 3, counts: 1 };
    let s = a.add(b);
    assert_eq!((s.latency, s.bytes, s.counts), (7, 13, 2));
    let d = s.sub(b);
    assert_eq!((d.latency, d.bytes, d.counts), (5, 10, 1));
    let mut m = a;
    m.add_assign(b);
    m.sub_assign(a);
    assert_eq!((m.latency, m.bytes, m.counts), (2, 3, 1));
}

#[test]
fn state_records_work() {
    let mut s = State::default();
    s.add_io(100, 4096);
    s.add_io(50, 512);
    s.add_net(7, 1500);
    assert_eq!((s.disk_io.latency, s.disk_io.bytes, s.disk_io.counts), (150, 4608, 2));
    assert_eq!((s.sock_io.latency, s.sock_io.bytes, s.sock_io.counts), (7, 1500, 1));
    let later = s.now();
    assert_eq!(later.disk_io.bytes, 4608);
    let mut t = later;
    t.add_net(3, 100);
    let diff = t.sub(s);
    assert_eq!((diff.sock_io.latency, diff.sock_io.bytes, diff.sock_io.counts), (3, 100, 1));
    assert_eq!(diff.disk_io.counts, 0);
}

#[test]
fn statistics_start() {
    let mut st = Statistics::new();
    st.start();
}
