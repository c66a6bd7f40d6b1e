use memcached::error::{MemcachedError, ParseError};
use memcached::value::{
    can_as_str, parse_as_str, Flags, FromMemcachedValue, FromMemcachedValueExt, ToMemcachedValue,
};

fn encode<V: ToMemcachedValue>(v: &V) -> Vec<u8> {
    let mut out = Vec::new();
    v.write_to(&mut out);
    out
}

#[test]
fn value_flags_are_opaque_zero() {
    assert_eq!(Flags::Bytes.value(), 0);
    assert_eq!(42u64.get_flags(), 0);
    assert_eq!("x".get_flags(), 0);
}

#[test]
fn value_strings_and_bytes_are_stored_verbatim() {
    assert_eq!(encode(&"hello"), b"hello".to_vec());
    assert_eq!(encode(&"héllo".to_owned()), "héllo".as_bytes().to_vec());
    let raw: &[u8] = &[0, 159, 146, 150];
    assert_eq!(encode(&raw), raw.to_vec());
    assert_eq!(encode(&vec![1u8, 2, 3]), vec![1, 2, 3]);
}

#[test]
fn value_numbers_are_stored_as_decimal_text() {
    assert_eq!(encode(&0u8), b"0".to_vec());
    assert_eq!(encode(&100u64), b"100".to_vec());
    assert_eq!(encode(&u64::MAX), b"18446744073709551615".to_vec());
    assert_eq!(encode(&-7i32), b"-7".to_vec());
    assert_eq!(encode(&i64::MIN), b"-9223372036854775808".to_vec());
    assert_eq!(encode(&true), b"true".to_vec());
    assert_eq!(encode(&false), b"false".to_vec());
}

#[test]
fn value_get_length_matches_encoding() {
    assert_eq!(100u64.get_length(), 3);
    assert_eq!((-7i32).get_length(), 2);
    assert_eq!("hello".get_length(), 5);
    assert_eq!(true.get_length(), 4);
    assert_eq!(vec![1u8, 2, 3].get_length(), 3);
}

#[test]
fn value_round_trips_through_wire_bytes() {
    let v: Vec<u8> = <Vec<u8> as FromMemcachedValue>::from_memcached_value(encode(&vec![9u8, 8]), 0).unwrap();
    assert_eq!(v, vec![9, 8]);
    let s: String = <String as FromMemcachedValue>::from_memcached_value(encode(&"héllo".to_owned()), 0).unwrap();
    assert_eq!(s, "héllo");
    let n: u64 = <u64 as FromMemcachedValue>::from_memcached_value(encode(&110u64), 0).unwrap();
    assert_eq!(n, 110);
    let n: u8 = <u8 as FromMemcachedValue>::from_memcached_value(encode(&255u8), 0).unwrap();
    assert_eq!(n, 255);
    let n: i64 = <i64 as FromMemcachedValue>::from_memcached_value(encode(&i64::MIN), 0).unwrap();
    assert_eq!(n, i64::MIN);
    let n: i16 = <i16 as FromMemcachedValue>::from_memcached_value(encode(&-32768i16), 0).unwrap();
    assert_eq!(n, -32768);
    let b: bool = <bool as FromMemcachedValue>::from_memcached_value(encode(&true), 0).unwrap();
    assert!(b);
}

#[test]
fn value_numeric_parse_trims_whitespace() {
    let n: u64 = <u64 as FromMemcachedValue>::from_memcached_value(b" 42\r\n".to_vec(), 0).unwrap();
    assert_eq!(n, 42);
    let n: i32 = <i32 as FromMemcachedValue>::from_memcached_value(b"\t-3 ".to_vec(), 0).unwrap();
    assert_eq!(n, -3);
    let b: bool = <bool as FromMemcachedValue>::from_memcached_value(b" true ".to_vec(), 0).unwrap();
    assert!(b);
}

#[test]
fn value_numeric_parse_accepts_plus_and_leading_zeros() {
    let n: u64 = <u64 as FromMemcachedValue>::from_memcached_value(b"+42".to_vec(), 0).unwrap();
    assert_eq!(n, 42);
    let n: u64 = <u64 as FromMemcachedValue>::from_memcached_value(b"0042".to_vec(), 0).unwrap();
    assert_eq!(n, 42);
    let n: i64 = <i64 as FromMemcachedValue>::from_memcached_value(b"+7".to_vec(), 0).unwrap();
    assert_eq!(n, 7);
}

#[test]
fn value_decode_errors_name_the_failure() {
    match <String as FromMemcachedValue>::from_memcached_value(vec![0xff, 0xfe], 0) {
        Err(MemcachedError::ParseError(ParseError::String)) => {}
        other => panic!("expected ParseError::String, got {:?}", other),
    }
    match <u64 as FromMemcachedValue>::from_memcached_value(vec![0xff, 0xfe], 0) {
        Err(MemcachedError::ParseError(ParseError::String)) => {}
        other => panic!("expected ParseError::String, got {:?}", other),
    }
    match <u64 as FromMemcachedValue>::from_memcached_value(b"abc".to_vec(), 0) {
        Err(MemcachedError::ParseError(ParseError::Int)) => {}
        other => panic!("expected ParseError::Int, got {:?}", other),
    }
    match <u64 as FromMemcachedValue>::from_memcached_value(b"".to_vec(), 0) {
        Err(MemcachedError::ParseError(ParseError::Int)) => {}
        other => panic!("expected ParseError::Int, got {:?}", other),
    }
    match <u8 as FromMemcachedValue>::from_memcached_value(b"300".to_vec(), 0) {
        Err(MemcachedError::ParseError(ParseError::Int)) => {}
        other => panic!("expected ParseError::Int on range overflow, got {:?}", other),
    }
    match <u64 as FromMemcachedValue>::from_memcached_value(b"18446744073709551616".to_vec(), 0) {
        Err(MemcachedError::ParseError(ParseError::Int)) => {}
        other => panic!("expected ParseError::Int on overflow, got {:?}", other),
    }
    match <i8 as FromMemcachedValue>::from_memcached_value(b"-129".to_vec(), 0) {
        Err(MemcachedError::ParseError(ParseError::Int)) => {}
        other => panic!("expected ParseError::Int on range overflow, got {:?}", other),
    }
    match <u64 as FromMemcachedValue>::from_memcached_value(b"-1".to_vec(), 0) {
        Err(MemcachedError::ParseError(ParseError::Int)) => {}
        other => panic!("expected ParseError::Int on sign, got {:?}", other),
    }
    match <bool as FromMemcachedValue>::from_memcached_value(b"TRUE".to_vec(), 0) {
        Err(MemcachedError::ParseError(ParseError::Bool)) => {}
        other => panic!("expected ParseError::Bool, got {:?}", other),
    }
}

#[test]
fn value_tuple_decodes_keep_flags_and_cas() {
    let (bytes, flags): (Vec<u8>, u32) =
        <(Vec<u8>, u32) as FromMemcachedValue>::from_memcached_value(b"v".to_vec(), 9).unwrap();
    assert_eq!(bytes, b"v".to_vec());
    assert_eq!(flags, 9);
    let (bytes, flags, cas): (Vec<u8>, u32, Option<u64>) =
        FromMemcachedValueExt::from_memcached_value(b"v".to_vec(), 9, Some(33)).unwrap();
    assert_eq!(bytes, b"v".to_vec());
    assert_eq!(flags, 9);
    assert_eq!(cas, Some(33));
}

#[test]
fn value_ext_blanket_ignores_cas() {
    let n: u64 = FromMemcachedValueExt::from_memcached_value(b"8".to_vec(), 0, Some(5)).unwrap();
    assert_eq!(n, 8);
}

#[test]
fn value_parse_as_str_matches_string_categories() {
    assert_eq!(parse_as_str(&42u64), Some("42".to_owned()));
    assert_eq!(parse_as_str(&-9i64), Some("-9".to_owned()));
    assert_eq!(parse_as_str(&true), Some("true".to_owned()));
    assert_eq!(parse_as_str(&"hi"), Some("hi".to_owned()));
    assert_eq!(parse_as_str(&"hi".to_owned()), Some("hi".to_owned()));
    let raw: &[u8] = b"hi";
    assert_eq!(parse_as_str(&raw), None);
    assert_eq!(parse_as_str(&vec![1u8]), None);
}

#[test]
fn value_can_as_str_matches_categories() {
    assert!(can_as_str::<u64>());
    assert!(can_as_str::<i8>());
    assert!(can_as_str::<bool>());
    assert!(can_as_str::<String>());
    assert!(can_as_str::<&str>());
    assert!(!can_as_str::<&[u8]>());
    assert!(!can_as_str::<Vec<u8>>());
}
