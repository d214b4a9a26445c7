use faster_rs::FasterKey;
use faster_rs::FasterValue;

#[test]
fn u64_encoding_is_eight_little_endian_bytes() {
    let encoded = 0x0102030405060708u64.encode();
    assert_eq!(encoded, vec![8, 7, 6, 5, 4, 3, 2, 1]);
    assert_eq!(1u64.encode_key(), vec![1, 0, 0, 0, 0, 0, 0, 0]);
}

#[test]
fn u64_encoding_matches_the_serializer() {
    let ours = 1337u64.encode();
    let theirs = bincode::serialize(&1337u64).unwrap();
    assert_eq!(ours, theirs);
}

#[test]
fn u64_decode_inverts_encode() {
    let encoded = 9876543210u64.encode();
    assert_eq!(<u64 as FasterValue>::decode(&encoded), Some(9876543210u64));
}

#[test]
fn u64_decode_rejects_wrong_lengths() {
    assert_eq!(<u64 as FasterValue>::decode(&[1, 2, 3]), None);
    assert_eq!(<u64 as FasterValue>::decode(&[0; 9]), None);
    assert_eq!(<u64 as FasterValue>::decode(&[]), None);
}

#[test]
fn i32_round_trip_and_layout() {
    let encoded = (-2i32).encode();
    assert_eq!(encoded, vec![0xfe, 0xff, 0xff, 0xff]);
    assert_eq!(<i32 as FasterValue>::decode(&encoded), Some(-2));
    assert_eq!(<i32 as FasterValue>::decode(&[1, 2]), None);
    assert_eq!(encoded, bincode::serialize(&-2i32).unwrap());
}

#[test]
fn string_encoding_is_length_prefixed_utf8() {
    let value = String::from("hi");
    let encoded = value.encode();
    assert_eq!(encoded, vec![2, 0, 0, 0, 0, 0, 0, 0, b'h', b'i']);
    assert_eq!(encoded, bincode::serialize(&value).unwrap());
    assert_eq!(<String as FasterValue>::decode(&encoded), Some(value));
}

#[test]
fn string_decode_rejects_malformed_buffers() {
    // Too short for the length prefix.
    assert_eq!(<String as FasterValue>::decode(&[1, 2, 3]), None);
    // Length prefix promising more bytes than there are.
    assert_eq!(
        <String as FasterValue>::decode(&[5, 0, 0, 0, 0, 0, 0, 0, b'h', b'i']),
        None
    );
    // Invalid UTF-8 payload.
    assert_eq!(
        <String as FasterValue>::decode(&[1, 0, 0, 0, 0, 0, 0, 0, 0xff]),
        None
    );
}

#[test]
fn vec_i32_round_trip_and_layout() {
    let value: Vec<i32> = vec![1, -1];
    let encoded = value.encode();
    assert_eq!(
        encoded,
        vec![2, 0, 0, 0, 0, 0, 0, 0, 1, 0, 0, 0, 0xff, 0xff, 0xff, 0xff]
    );
    assert_eq!(encoded, bincode::serialize(&value).unwrap());
    assert_eq!(<Vec<i32> as FasterValue>::decode(&encoded), Some(value));
    // An element count that does not match the payload is rejected.
    assert_eq!(
        <Vec<i32> as FasterValue>::decode(&[2, 0, 0, 0, 0, 0, 0, 0, 1, 0, 0, 0]),
        None
    );
}

#[test]
fn string_key_encoding_matches_value_encoding() {
    let key = String::from("growing_string");
    assert_eq!(key.encode_key(), key.encode());
    assert_eq!(key.encode_key(), bincode::serialize(&key).unwrap());
}
