use img_caster::bitarray::BitArray;

#[test]
fn new_array_is_all_clear() {
    let mut a = BitArray::new(20);
    for i in 0..20 {
        assert!(!a.get(i));
    }
    assert_eq!(a.bits(), vec![0u8, 0, 0]);
}

#[test]
fn new_rounds_bytes_up() {
    let mut a = BitArray::new(8);
    assert_eq!(a.bits().len(), 1);
    let mut b = BitArray::new(9);
    assert_eq!(b.bits().len(), 2);
    let mut c = BitArray::new(0);
    assert_eq!(c.bits().len(), 0);
}

#[test]
fn set_then_get_reads_back() {
    let mut a = BitArray::new(16);
    a.set(3, true).set(9, true);
    assert!(a.get(3));
    assert!(a.get(9));
    assert!(!a.get(2));
    assert!(!a.get(10));
    assert_eq!(a.bits(), vec![0b0000_1000u8, 0b0000_0010]);
    a.set(3, false);
    assert!(!a.get(3));
    assert!(a.get(9));
    assert_eq!(a.bits(), vec![0u8, 0b0000_0010]);
}

#[test]
fn set_leaves_other_bits() {
    let mut a = BitArray::new(8);
    for i in 0..8 {
        a.set(i, true);
    }
    a.set(5, false);
    assert_eq!(a.bits(), vec![0b1101_1111u8]);
}

#[test]
fn resize_keeps_and_zero_fills() {
    let mut a = BitArray::new(8);
    a.set(7, true);
    a.resize(20);
    assert!(a.get(7));
    assert!(!a.get(19));
    assert_eq!(a.bits(), vec![0x80u8, 0, 0]);
    a.resize(4);
    assert_eq!(a.bits(), vec![0x80u8]);
}

#[test]
fn from_bytes_keeps_bytes() {
    let mut a = BitArray::from(vec![0x01u8, 0x80]);
    assert!(a.get(0));
    assert!(!a.get(1));
    assert_eq!(a.bits(), vec![0x01u8, 0x80]);
}

#[test]
fn bitor_merges_bitand_intersects() {
    let mut a = BitArray::from(vec![0b1010u8, 0xf0]);
    a.bitor_assign(BitArray::from(vec![0b0110u8, 0x0f]));
    assert_eq!(a.bits(), vec![0b1110u8, 0xff]);
    a.bitand_assign(BitArray::from(vec![0b0011u8, 0x3c]));
    assert_eq!(a.bits(), vec![0b0010u8, 0x3c]);
}
