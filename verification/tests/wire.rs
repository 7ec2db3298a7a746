use udp_tracker::wire::{read_i32, read_i64, read_u16, read_u32, write_i32, write_i64, write_u16, write_u32};

#[test]
fn read_big_endian_values() {
    assert_eq!(read_u16(&[0x12, 0x34]), 0x1234);
    assert_eq!(read_u32(&[0x12, 0x34, 0x56, 0x78]), 0x12345678);
    assert_eq!(read_i32(&[0xFF, 0xFF, 0xFF, 0xFF]), -1);
    assert_eq!(read_i32(&[0x80, 0x00, 0x00, 0x00]), i32::MIN);
    assert_eq!(
        read_i64(&[0x01, 0x02, 0x03, 0x04, 0x05, 0x06, 0x07, 0x08]),
        0x0102030405060708
    );
    assert_eq!(
        read_i64(&[0xFF, 0xFF, 0xFF, 0xFF, 0xFF, 0xFF, 0xFF, 0xFE]),
        -2
    );
}

#[test]
fn write_big_endian_values() {
    let mut buf: Vec<u8> = Vec::new();
    write_u16(0xBEEF, &mut buf);
    assert_eq!(buf, vec![0xBE, 0xEF]);

    let mut buf: Vec<u8> = Vec::new();
    write_u32(0x01020304, &mut buf);
    assert_eq!(buf, vec![1, 2, 3, 4]);

    let mut buf: Vec<u8> = Vec::new();
    write_i32(-1, &mut buf);
    assert_eq!(buf, vec![0xFF, 0xFF, 0xFF, 0xFF]);

    let mut buf: Vec<u8> = Vec::new();
    write_i64(0x41727101980, &mut buf);
    assert_eq!(buf, vec![0x00, 0x00, 0x04, 0x17, 0x27, 0x10, 0x19, 0x80]);
}

#[test]
fn write_then_read_round_trip() {
    let values: Vec<i64> = vec![0, 1, -1, i64::MIN, i64::MAX, 0x41727101980];
    for v in values {
        let mut buf: Vec<u8> = Vec::new();
        write_i64(v, &mut buf);
        assert_eq!(read_i64(&buf), v);
    }
    let values: Vec<i32> = vec![0, 1, -1, i32::MIN, i32::MAX];
    for v in values {
        let mut buf: Vec<u8> = Vec::new();
        write_i32(v, &mut buf);
        assert_eq!(read_i32(&buf), v);
    }
}
