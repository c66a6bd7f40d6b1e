use memcached::code::{
    OP_ADD, OP_DECREMENT, OP_DELETE, OP_GET, OP_INCREMENT, OP_REPLACE, OP_SET,
};
use memcached::commands::{
    auth_request, counter_request, delete_request, flush_request, flush_with_delay_request,
    get_request, gets_request, getkq_request, noop_request, store_request, touch_request,
    version_request,
};
use memcached::error::{ClientError, MemcachedError};

fn request_header_bytes(
    opcode: u8,
    key_len: u16,
    extras_len: u8,
    total: u32,
    cas: u64,
) -> Vec<u8> {
    let mut out = vec![0x80, opcode];
    out.extend_from_slice(&key_len.to_be_bytes());
    out.push(extras_len);
    out.push(0);
    out.extend_from_slice(&0u16.to_be_bytes());
    out.extend_from_slice(&total.to_be_bytes());
    out.extend_from_slice(&0u32.to_be_bytes());
    out.extend_from_slice(&cas.to_be_bytes());
    out
}

#[test]
fn request_get_is_byte_exact() {
    let req = get_request("abc").unwrap();
    let mut expected = request_header_bytes(OP_GET, 3, 0, 3, 0);
    expected.extend_from_slice(b"abc");
    assert_eq!(req, expected);
}

#[test]
fn request_set_is_byte_exact() {
    let req = store_request(OP_SET, "abc", b"hello", 100, 0).unwrap();
    let mut expected = request_header_bytes(OP_SET, 3, 8, 16, 0);
    expected.extend_from_slice(&0u32.to_be_bytes());
    expected.extend_from_slice(&100u32.to_be_bytes());
    expected.extend_from_slice(b"abc");
    expected.extend_from_slice(b"hello");
    assert_eq!(req, expected);
}

#[test]
fn request_cas_carries_token() {
    let req = store_request(OP_SET, "k", b"v", 0, 0x1122_3344_5566_7788).unwrap();
    assert_eq!(&req[16..24], &0x1122_3344_5566_7788u64.to_be_bytes());
}

#[test]
fn request_add_and_replace_use_their_opcodes() {
    let add = store_request(OP_ADD, "k", b"v", 0, 0).unwrap();
    let replace = store_request(OP_REPLACE, "k", b"v", 0, 0).unwrap();
    assert_eq!(add[1], OP_ADD);
    assert_eq!(replace[1], OP_REPLACE);
}

#[test]
fn request_delete_is_byte_exact() {
    let req = delete_request("abc").unwrap();
    let mut expected = request_header_bytes(OP_DELETE, 3, 0, 3, 0);
    expected.extend_from_slice(b"abc");
    assert_eq!(req, expected);
}

#[test]
fn request_counter_is_byte_exact() {
    let req = counter_request(OP_INCREMENT, "ctr", 10).unwrap();
    let mut expected = request_header_bytes(OP_INCREMENT, 3, 20, 23, 0);
    expected.extend_from_slice(&10u64.to_be_bytes());
    expected.extend_from_slice(&0u64.to_be_bytes());
    expected.extend_from_slice(&0u32.to_be_bytes());
    expected.extend_from_slice(b"ctr");
    assert_eq!(req, expected);
    let dec = counter_request(OP_DECREMENT, "ctr", 10).unwrap();
    assert_eq!(dec[1], OP_DECREMENT);
}

#[test]
fn request_touch_is_byte_exact() {
    let req = touch_request("abc", 7).unwrap();
    let mut expected = request_header_bytes(0x1c, 3, 4, 7, 0);
    expected.extend_from_slice(&7u32.to_be_bytes());
    expected.extend_from_slice(b"abc");
    assert_eq!(req, expected);
}

#[test]
fn request_bare_verbs_are_header_only() {
    assert_eq!(version_request(), request_header_bytes(0x0b, 0, 0, 0, 0));
    assert_eq!(flush_request(), request_header_bytes(0x08, 0, 0, 0, 0));
    assert_eq!(noop_request(), request_header_bytes(0x0a, 0, 0, 0, 0));
}

#[test]
fn request_flush_with_delay_carries_delay() {
    let req = flush_with_delay_request(30);
    let mut expected = request_header_bytes(0x08, 0, 4, 4, 0);
    expected.extend_from_slice(&30u32.to_be_bytes());
    assert_eq!(req, expected);
}

#[test]
fn request_auth_is_sasl_plain() {
    let req = auth_request("user", "pass");
    let mut expected = request_header_bytes(0x21, 5, 0, 15, 0);
    expected.extend_from_slice(b"PLAIN");
    expected.extend_from_slice(b"\x00user\x00pass");
    assert_eq!(req, expected);
}

#[test]
fn request_gets_pipelines_keys_then_noop() {
    let keys = vec!["a".to_owned(), "b".to_owned()];
    let req = gets_request(&keys).unwrap();
    let mut expected = getkq_request("a").unwrap();
    expected.extend_from_slice(&getkq_request("b").unwrap());
    expected.extend_from_slice(&noop_request());
    assert_eq!(req, expected);
}

#[test]
fn request_key_at_limit_succeeds() {
    let key = "k".repeat(250);
    assert!(get_request(&key).is_ok());
}

#[test]
fn request_key_over_limit_builds_nothing() {
    let key = "k".repeat(251);
    match get_request(&key) {
        Err(MemcachedError::ClientError(ClientError::KeyTooLong)) => {}
        other => panic!("expected KeyTooLong, got {:?}", other),
    }
    let keys = vec!["ok".to_owned(), "x".repeat(251)];
    match gets_request(&keys) {
        Err(MemcachedError::ClientError(ClientError::KeyTooLong)) => {}
        other => panic!("expected KeyTooLong, got {:?}", other),
    }
}
