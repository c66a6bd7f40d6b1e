use byteorder::{BigEndian, ByteOrder};
use memcached::wire::{read_be, write_be};

#[test]
fn wire_u16_matches_reference_encoder() {
    for x in [0u16, 1, 0x1234, 0xffff] {
        let mut ours: Vec<u8> = Vec::new();
        write_be(&mut ours, x as u64, 2);
        let mut theirs = [0u8; 2];
        BigEndian::write_u16(&mut theirs, x);
        assert_eq!(ours.as_slice(), &theirs);
    }
}

#[test]
fn wire_u32_matches_reference_encoder() {
    for x in [0u32, 1, 0xdead_beef, u32::MAX] {
        let mut ours: Vec<u8> = Vec::new();
        write_be(&mut ours, x as u64, 4);
        let mut theirs = [0u8; 4];
        BigEndian::write_u32(&mut theirs, x);
        assert_eq!(ours.as_slice(), &theirs);
    }
}

#[test]
fn wire_u64_matches_reference_encoder() {
    for x in [0u64, 1, 0x0123_4567_89ab_cdef, u64::MAX] {
        let mut ours: Vec<u8> = Vec::new();
        write_be(&mut ours, x, 8);
        let mut theirs = [0u8; 8];
        BigEndian::write_u64(&mut theirs, x);
        assert_eq!(ours.as_slice(), &theirs);
    }
}

#[test]
fn wire_read_inverts_write() {
    for x in [0u64, 7, 110, 0xfeed_f00d_dead_beef, u64::MAX] {
        let mut buf: Vec<u8> = Vec::new();
        write_be(&mut buf, x, 8);
        assert_eq!(read_be(&buf, 0, 8), x);
    }
    let buf = vec![0u8, 0, 1, 44];
    assert_eq!(read_be(&buf, 0, 4), 300);
    assert_eq!(read_be(&buf, 2, 2), 300);
}
