use memcached::error::{CommandError, MemcachedError, ServerError};
use memcached::packet::{parse_response, PacketHeader, Response, HEADER_LEN};

fn sample_header() -> PacketHeader {
    PacketHeader {
        magic: 0x81,
        opcode: 0x00,
        key_length: 3,
        extras_length: 4,
        data_type: 0,
        vbucket_id_or_status: 0,
        total_body_length: 12,
        opaque: 0xdead_beef,
        cas: 0x0102_0304_0506_0708,
    }
}

fn response_bytes(
    opcode: u8,
    status: u16,
    extras: &[u8],
    key: &[u8],
    value: &[u8],
    cas: u64,
) -> Vec<u8> {
    let header = PacketHeader {
        magic: 0x81,
        opcode,
        key_length: key.len() as u16,
        extras_length: extras.len() as u8,
        data_type: 0,
        vbucket_id_or_status: status,
        total_body_length: (extras.len() + key.len() + value.len()) as u32,
        opaque: 0,
        cas,
    };
    let mut out: Vec<u8> = Vec::new();
    header.write(&mut out);
    out.extend_from_slice(extras);
    out.extend_from_slice(key);
    out.extend_from_slice(value);
    out
}

#[test]
fn packet_header_encodes_to_exact_bytes() {
    let mut out: Vec<u8> = Vec::new();
    sample_header().write(&mut out);
    assert_eq!(
        out,
        vec![
            0x81, 0x00, 0x00, 0x03, 0x04, 0x00, 0x00, 0x00, 0x00, 0x00, 0x00, 0x0c, 0xde, 0xad,
            0xbe, 0xef, 0x01, 0x02, 0x03, 0x04, 0x05, 0x06, 0x07, 0x08,
        ]
    );
}

#[test]
fn packet_header_read_inverts_write() {
    let mut out: Vec<u8> = Vec::new();
    sample_header().write(&mut out);
    assert_eq!(out.len(), HEADER_LEN);
    let h = PacketHeader::read(&out, 0).unwrap();
    assert_eq!(h, sample_header());
}

#[test]
fn packet_header_rejects_wrong_magic() {
    let mut out: Vec<u8> = Vec::new();
    let mut h = sample_header();
    h.magic = 0x80;
    h.write(&mut out);
    match PacketHeader::read(&out, 0) {
        Err(MemcachedError::ServerError(ServerError::BadMagic(m))) => assert_eq!(m, 0x80),
        other => panic!("expected BadMagic, got {:?}", other),
    }
}

#[test]
fn packet_parse_response_splits_sections() {
    let buf = response_bytes(0x00, 0, &[1, 2, 3, 4], b"abc", b"hello", 99);
    let (resp, next) = parse_response(&buf, 0).unwrap();
    assert_eq!(next, buf.len());
    assert_eq!(resp.extras, vec![1, 2, 3, 4]);
    assert_eq!(resp.key, b"abc".to_vec());
    assert_eq!(resp.value, b"hello".to_vec());
    assert_eq!(resp.header.cas, 99);
}

#[test]
fn packet_parse_response_rejects_truncated_body() {
    let mut buf = response_bytes(0x00, 0, &[], b"", b"hello", 0);
    buf.truncate(buf.len() - 1);
    match parse_response(&buf, 0) {
        Err(MemcachedError::ServerError(ServerError::BadResponse(_))) => {}
        other => panic!("expected BadResponse, got {:?}", other),
    }
}

#[test]
fn packet_parse_response_rejects_impossible_body_length() {
    let header = PacketHeader {
        magic: 0x81,
        opcode: 0,
        key_length: 10,
        extras_length: 4,
        data_type: 0,
        vbucket_id_or_status: 0,
        total_body_length: 2,
        opaque: 0,
        cas: 0,
    };
    let mut buf: Vec<u8> = Vec::new();
    header.write(&mut buf);
    buf.extend_from_slice(&[0, 0]);
    match parse_response(&buf, 0) {
        Err(MemcachedError::ServerError(ServerError::BadResponse(_))) => {}
        other => panic!("expected BadResponse, got {:?}", other),
    }
}

#[test]
fn packet_response_err_translates_status() {
    let buf = response_bytes(0x01, 0x2, &[], b"", b"", 0);
    let (resp, _) = parse_response(&buf, 0).unwrap();
    match resp.err() {
        Err(MemcachedError::CommandError(CommandError::KeyExists)) => {}
        other => panic!("expected KeyExists, got {:?}", other),
    }
    let buf = response_bytes(0x01, 0x0, &[], b"", b"ok", 0);
    let (resp, _) = parse_response(&buf, 0).unwrap();
    let passed: Response = resp.err().unwrap();
    assert_eq!(passed.value, b"ok".to_vec());
    let buf = response_bytes(0x01, 0x99, &[], b"", b"", 0);
    let (resp, _) = parse_response(&buf, 0).unwrap();
    match resp.err() {
        Err(MemcachedError::CommandError(CommandError::Unknown(code))) => assert_eq!(code, 0x99),
        other => panic!("expected Unknown, got {:?}", other),
    }
}

#[test]
fn packet_status_table_is_exact() {
    assert_eq!(CommandError::from(0x1), CommandError::KeyNotFound);
    assert_eq!(CommandError::from(0x2), CommandError::KeyExists);
    assert_eq!(CommandError::from(0x3), CommandError::ValueTooLarge);
    assert_eq!(CommandError::from(0x4), CommandError::InvalidArguments);
    assert_eq!(CommandError::from(0x6), CommandError::IncrOrDecrOnNonNumericValue);
    assert_eq!(CommandError::from(0x20), CommandError::AuthenticationRequired);
    assert_eq!(CommandError::from(0x42), CommandError::Unknown(0x42));
}
