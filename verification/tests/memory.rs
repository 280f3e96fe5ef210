use eclipse_redirect::pe::MemoryWindow;

#[test]
fn little_endian_reads() {
    let data = [0x01u8, 0x02, 0x03, 0x04, 0x05, 0x06, 0x07, 0x08, 0xFF];
    let w = MemoryWindow { address: 0x4000, bytes: &data };
    assert_eq!(w.read_u8(0x4008), Some(0xFF));
    assert_eq!(w.read_u16(0x4000), Some(0x0201));
    assert_eq!(w.read_u32(0x4001), Some(0x0504_0302));
    assert_eq!(w.read_u64(0x4000), Some(0x0807_0605_0403_0201));
    assert_eq!(w.read_u64(0x4001), Some(0xFF08_0706_0504_0302));
}

#[test]
fn reads_outside_the_window_fail() {
    let data = [0xAAu8; 4];
    let w = MemoryWindow { address: 0x4000, bytes: &data };
    assert_eq!(w.read_u8(0x3FFF), None);
    assert_eq!(w.read_u8(0x4004), None);
    assert_eq!(w.read_u16(0x4003), None);
    assert_eq!(w.read_u32(0x4001), None);
    assert_eq!(w.read_u64(0x4000), None);
    assert_eq!(w.read_u32(u64::MAX - 1), None);
}

#[test]
fn sub_windows() {
    let data = [1u8, 2, 3, 4, 5];
    let w = MemoryWindow { address: 0x10, bytes: &data };
    let s = w.window(0x11, 3).unwrap();
    assert_eq!(s.address, 0x11);
    assert_eq!(s.bytes, &[2, 3, 4]);
    assert_eq!(w.window(0x10, 5).unwrap().bytes.len(), 5);
    assert_eq!(w.window(0x15, 0).unwrap().bytes.len(), 0);
    assert!(w.window(0x12, 4).is_none());
    assert!(w.window(0x0F, 1).is_none());
}
