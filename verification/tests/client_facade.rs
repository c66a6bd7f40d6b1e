use memcached::client::{
    check_key_len, check_keys, decode_get, decode_gets_entries, default_hash_function,
    partition_keys, shard_for, shard_index, store_command,
};
use memcached::code::{OP_APPEND, OP_SET};
use memcached::commands::{concat_request, delete_request, get_request, parse_delete_response};
use memcached::connectable::Connectable;
use memcached::error::{ClientError, MemcachedError};
use memcached::packet::{parse_response, PacketHeader, Response};

fn fake_response(status: u16, value: &[u8], cas: u64) -> Response {
    let header = PacketHeader {
        magic: 0x81,
        opcode: 0,
        key_length: 0,
        extras_length: 0,
        data_type: 0,
        vbucket_id_or_status: status,
        total_body_length: value.len() as u32,
        opaque: 0,
        cas,
    };
    let mut buf: Vec<u8> = Vec::new();
    header.write(&mut buf);
    buf.extend_from_slice(value);
    parse_response(&buf, 0).unwrap().0
}

#[test]
fn facade_key_length_boundary() {
    assert!(check_key_len(&"k".repeat(250)).is_ok());
    match check_key_len(&"k".repeat(251)) {
        Err(MemcachedError::ClientError(ClientError::KeyTooLong)) => {}
        other => panic!("expected KeyTooLong, got {:?}", other),
    }
    // the limit counts bytes, not characters
    match check_key_len(&"é".repeat(126)) {
        Err(MemcachedError::ClientError(ClientError::KeyTooLong)) => {}
        other => panic!("expected KeyTooLong, got {:?}", other),
    }
}

#[test]
fn facade_batch_check_is_all_or_nothing() {
    let good = vec!["a".to_owned(), "b".to_owned()];
    assert!(check_keys(&good).is_ok());
    let mixed = vec!["a".to_owned(), "x".repeat(251), "b".to_owned()];
    match check_keys(&mixed) {
        Err(MemcachedError::ClientError(ClientError::KeyTooLong)) => {}
        other => panic!("expected KeyTooLong, got {:?}", other),
    }
}

#[test]
fn facade_sharding_is_deterministic() {
    let h1 = default_hash_function("some-key");
    let h2 = default_hash_function("some-key");
    assert_eq!(h1, h2);
    assert_eq!(shard_for("some-key", 7), shard_for("some-key", 7));
    assert_eq!(shard_index(h1, 7), (h1 % 7) as usize);
    // hashing actually mixes the input rather than echoing it
    assert_ne!(default_hash_function("a"), default_hash_function("b"));
}

#[test]
fn facade_partition_covers_all_keys_without_duplicates() {
    let keys: Vec<String> = ["a", "b", "c", "d", "e"].iter().map(|s| s.to_string()).collect();
    let hashes: Vec<u64> = vec![0, 1, 5, 3, 6];
    let buckets = partition_keys(&keys, &hashes, 3);
    assert_eq!(buckets.len(), 3);
    assert_eq!(buckets[0], vec!["a".to_owned(), "d".to_owned(), "e".to_owned()]);
    assert_eq!(buckets[1], vec!["b".to_owned()]);
    assert_eq!(buckets[2], vec!["c".to_owned()]);
    let mut merged: Vec<String> = buckets.concat();
    let mut expected = keys.clone();
    merged.sort();
    expected.sort();
    assert_eq!(merged, expected);
}

#[test]
fn facade_partition_leaves_untouched_shards_empty() {
    let keys: Vec<String> = vec!["a".to_owned(), "b".to_owned()];
    let hashes: Vec<u64> = vec![4, 4];
    let buckets = partition_keys(&keys, &hashes, 4);
    assert_eq!(buckets[0].len(), 2);
    assert!(buckets[1].is_empty());
    assert!(buckets[2].is_empty());
    assert!(buckets[3].is_empty());
}

#[test]
fn facade_typed_store_serializes_value() {
    let via_facade = store_command(OP_SET, "abc", &"hello", 100, 0).unwrap();
    let by_hand = memcached::commands::store_request(OP_SET, "abc", b"hello", 100, 0).unwrap();
    assert_eq!(via_facade, by_hand);
    let counter = store_command(OP_SET, "n", &100u64, 100, 0).unwrap();
    let by_hand = memcached::commands::store_request(OP_SET, "n", b"100", 100, 0).unwrap();
    assert_eq!(counter, by_hand);
}

#[test]
fn facade_decode_gets_entries_types_values() {
    let entries = vec![
        ("k1".to_owned(), (b"10".to_vec(), 0, 5)),
        ("k2".to_owned(), (b"20".to_vec(), 0, 6)),
    ];
    let typed: Vec<(String, u64)> = decode_gets_entries(&entries).unwrap();
    assert_eq!(typed, vec![("k1".to_owned(), 10), ("k2".to_owned(), 20)]);
    let bad = vec![("k".to_owned(), (b"zz".to_vec(), 0, 1))];
    assert!(decode_gets_entries::<u64>(&bad).is_err());
}

#[test]
fn facade_connectable_shapes() {
    assert_eq!("u1".get_urls(), vec!["u1".to_owned()]);
    assert_eq!("u1".to_owned().get_urls(), vec!["u1".to_owned()]);
    assert_eq!(vec!["u1", "u2"].get_urls(), vec!["u1".to_owned(), "u2".to_owned()]);
    assert_eq!(
        vec!["u1".to_owned(), "u2".to_owned()].get_urls(),
        vec!["u1".to_owned(), "u2".to_owned()]
    );
}

#[test]
fn facade_scenario_set_get_append_delete() {
    // set "abc" -> "hello" with expiration 100: the request is built and
    // the server answers OK
    let set_req = store_command(OP_SET, "abc", &"hello", 100, 0).unwrap();
    assert_eq!(set_req[1], OP_SET);
    memcached::commands::parse_store_response(fake_response(0, b"", 0)).unwrap();

    // get "abc" -> Some("hello")
    let _get_req = get_request("abc").unwrap();
    let got: Option<String> = decode_get(fake_response(0, b"hello", 1)).unwrap();
    assert_eq!(got, Some("hello".to_owned()));

    // append ", world" -> get returns the concatenation
    let append_req = concat_request(OP_APPEND, "abc", b", world").unwrap();
    assert_eq!(append_req[1], OP_APPEND);
    memcached::commands::parse_store_response(fake_response(0, b"", 0)).unwrap();
    let got: Option<String> = decode_get(fake_response(0, b"hello, world", 2)).unwrap();
    assert_eq!(got, Some("hello, world".to_owned()));

    // delete "abc" -> true; a later get misses; a second delete -> false
    let _delete_req = delete_request("abc").unwrap();
    assert!(parse_delete_response(fake_response(0, b"", 0)).unwrap());
    let got: Option<String> = decode_get(fake_response(0x1, b"", 0)).unwrap();
    assert_eq!(got, None);
    assert!(!parse_delete_response(fake_response(0x1, b"", 0)).unwrap());
}
