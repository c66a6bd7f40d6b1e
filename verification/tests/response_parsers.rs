use memcached::code::{OP_GETKQ, OP_NOOP};
use memcached::error::{CommandError, MemcachedError, ParseError, ServerError};
use memcached::commands::{
    parse_cas_response, parse_counter_response, parse_delete_response, parse_get_response,
    parse_gets_response, parse_stats_response, parse_store_response, parse_touch_response,
    parse_version_response,
};
use memcached::packet::{parse_response, PacketHeader};

fn response_bytes(
    opcode: u8,
    status: u16,
    extras: &[u8],
    key: &[u8],
    value: &[u8],
    cas: u64,
) -> Vec<u8> {
    let header = PacketHeader {
        magic: 0x81,
        opcode,
        key_length: key.len() as u16,
        extras_length: extras.len() as u8,
        data_type: 0,
        vbucket_id_or_status: status,
        total_body_length: (extras.len() + key.len() + value.len()) as u32,
        opaque: 0,
        cas,
    };
    let mut out: Vec<u8> = Vec::new();
    header.write(&mut out);
    out.extend_from_slice(extras);
    out.extend_from_slice(key);
    out.extend_from_slice(value);
    out
}

fn one_response(opcode: u8, status: u16, extras: &[u8], key: &[u8], value: &[u8], cas: u64) -> memcached::packet::Response {
    let buf = response_bytes(opcode, status, extras, key, value, cas);
    parse_response(&buf, 0).unwrap().0
}

#[test]
fn response_get_hit_returns_value() {
    let resp = one_response(0, 0, &[0, 0, 0, 0], b"", b"hello", 1);
    assert_eq!(parse_get_response(resp).unwrap(), Some(b"hello".to_vec()));
}

#[test]
fn response_get_miss_is_none_not_error() {
    let resp = one_response(0, 0x1, &[], b"", b"", 0);
    assert_eq!(parse_get_response(resp).unwrap(), None);
}

#[test]
fn response_get_other_status_is_error() {
    let resp = one_response(0, 0x3, &[], b"", b"", 0);
    match parse_get_response(resp) {
        Err(MemcachedError::CommandError(CommandError::ValueTooLarge)) => {}
        other => panic!("expected ValueTooLarge, got {:?}", other),
    }
}

#[test]
fn response_add_on_existing_key_fails_with_key_exists() {
    let resp = one_response(0x02, 0x2, &[], b"", b"", 0);
    match parse_store_response(resp) {
        Err(MemcachedError::CommandError(CommandError::KeyExists)) => {}
        other => panic!("expected KeyExists, got {:?}", other),
    }
}

#[test]
fn response_replace_on_missing_key_fails_with_key_not_found() {
    let resp = one_response(0x03, 0x1, &[], b"", b"", 0);
    match parse_store_response(resp) {
        Err(MemcachedError::CommandError(CommandError::KeyNotFound)) => {}
        other => panic!("expected KeyNotFound, got {:?}", other),
    }
}

#[test]
fn response_cas_semantics() {
    assert!(parse_cas_response(one_response(1, 0, &[], b"", b"", 0)).unwrap());
    assert!(!parse_cas_response(one_response(1, 0x2, &[], b"", b"", 0)).unwrap());
    assert!(!parse_cas_response(one_response(1, 0x1, &[], b"", b"", 0)).unwrap());
    match parse_cas_response(one_response(1, 0x4, &[], b"", b"", 0)) {
        Err(MemcachedError::CommandError(CommandError::InvalidArguments)) => {}
        other => panic!("expected InvalidArguments, got {:?}", other),
    }
}

#[test]
fn response_delete_and_touch_map_key_not_found_to_false() {
    assert!(parse_delete_response(one_response(4, 0, &[], b"", b"", 0)).unwrap());
    assert!(!parse_delete_response(one_response(4, 0x1, &[], b"", b"", 0)).unwrap());
    assert!(parse_touch_response(one_response(0x1c, 0, &[], b"", b"", 0)).unwrap());
    assert!(!parse_touch_response(one_response(0x1c, 0x1, &[], b"", b"", 0)).unwrap());
}

#[test]
fn response_counter_reads_big_endian_value() {
    let resp = one_response(5, 0, &[], b"", &110u64.to_be_bytes(), 0);
    assert_eq!(parse_counter_response(resp).unwrap(), 110);
}

#[test]
fn response_counter_rejects_short_value() {
    let resp = one_response(5, 0, &[], b"", &[0, 1, 2], 0);
    match parse_counter_response(resp) {
        Err(MemcachedError::ServerError(ServerError::BadResponse(_))) => {}
        other => panic!("expected BadResponse, got {:?}", other),
    }
}

#[test]
fn response_version_is_utf8_text() {
    let resp = one_response(0x0b, 0, &[], b"", b"1.6.21", 0);
    assert_eq!(parse_version_response(resp).unwrap(), "1.6.21");
    let resp = one_response(0x0b, 0, &[], b"", &[0xff, 0xfe], 0);
    match parse_version_response(resp) {
        Err(MemcachedError::ParseError(ParseError::String)) => {}
        other => panic!("expected ParseError::String, got {:?}", other),
    }
}

#[test]
fn response_stats_collects_pairs_until_empty_pair() {
    let mut buf = response_bytes(0x10, 0, &[], b"pid", b"42", 0);
    buf.extend_from_slice(&response_bytes(0x10, 0, &[], b"uptime", b"9", 0));
    buf.extend_from_slice(&response_bytes(0x10, 0, &[], b"", b"", 0));
    let stats = parse_stats_response(&buf).unwrap();
    assert_eq!(
        stats,
        vec![
            ("pid".to_owned(), "42".to_owned()),
            ("uptime".to_owned(), "9".to_owned()),
        ]
    );
}

#[test]
fn response_gets_yields_entries_until_noop() {
    let mut buf = response_bytes(OP_GETKQ, 0, &[0, 0, 0, 7], b"k1", b"v1", 11);
    buf.extend_from_slice(&response_bytes(OP_GETKQ, 0, &[0, 0, 0, 0], b"k2", b"v2", 22));
    buf.extend_from_slice(&response_bytes(OP_NOOP, 0, &[], b"", b"", 0));
    let entries = parse_gets_response(&buf, 2).unwrap();
    assert_eq!(
        entries,
        vec![
            ("k1".to_owned(), (b"v1".to_vec(), 7, 11)),
            ("k2".to_owned(), (b"v2".to_vec(), 0, 22)),
        ]
    );
}

#[test]
fn response_gets_missing_keys_are_simply_absent() {
    let buf = response_bytes(OP_NOOP, 0, &[], b"", b"", 0);
    let entries = parse_gets_response(&buf, 3).unwrap();
    assert!(entries.is_empty());
}

#[test]
fn response_gets_without_noop_is_a_protocol_violation() {
    let mut buf = Vec::new();
    for _ in 0..3 {
        buf.extend_from_slice(&response_bytes(OP_GETKQ, 0, &[0, 0, 0, 0], b"k", b"v", 0));
    }
    match parse_gets_response(&buf, 1) {
        Err(MemcachedError::ServerError(ServerError::BadResponse(_))) => {}
        other => panic!("expected BadResponse, got {:?}", other),
    }
}

#[test]
fn response_gets_propagates_command_errors() {
    let buf = response_bytes(OP_GETKQ, 0x20, &[], b"", b"", 0);
    match parse_gets_response(&buf, 1) {
        Err(MemcachedError::CommandError(CommandError::AuthenticationRequired)) => {}
        other => panic!("expected AuthenticationRequired, got {:?}", other),
    }
}
