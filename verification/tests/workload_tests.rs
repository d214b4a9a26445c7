use faster_rs::workload::keys_from_chunk;
use faster_rs::workload::maintenance_due;
use faster_rs::workload::read_upsert5050;
use faster_rs::workload::rmw_100;
use faster_rs::workload::u64_from_be_bytes;
use faster_rs::workload::u64_to_be_bytes;
use faster_rs::workload::upsert_100;
use faster_rs::workload::ycsb_key_of_line;
use faster_rs::workload::Operation;

#[test]
fn read_upsert_5050_alternates() {
    assert!(matches!(read_upsert5050(0), Operation::Read));
    assert!(matches!(read_upsert5050(1), Operation::Upsert));
    assert!(matches!(read_upsert5050(2), Operation::Read));
    assert!(matches!(rmw_100(17), Operation::Rmw));
    assert!(matches!(upsert_100(17), Operation::Upsert));
}

#[test]
fn maintenance_schedule() {
    assert_eq!(maintenance_due(0), (true, true));
    assert_eq!(maintenance_due(1), (false, false));
    assert_eq!(maintenance_due(64), (true, false));
    assert_eq!(maintenance_due(1600), (true, true));
    assert_eq!(maintenance_due(1664), (true, false));
}

#[test]
fn big_endian_key_round_trip() {
    let bytes = u64_to_be_bytes(0x0102030405060708);
    assert_eq!(bytes, vec![1, 2, 3, 4, 5, 6, 7, 8]);
    assert_eq!(u64_from_be_bytes(&bytes), 0x0102030405060708);
}

#[test]
fn chunk_parsing_recovers_keys() {
    let mut buffer: Vec<u8> = Vec::new();
    for key in [42u64, 7u64, u64::MAX] {
        buffer.extend_from_slice(&u64_to_be_bytes(key));
    }
    // A trailing partial key is ignored.
    buffer.push(9);
    assert_eq!(keys_from_chunk(&buffer), vec![42, 7, u64::MAX]);
}

#[test]
fn ycsb_line_extraction() {
    let line = b"INSERT usertable user6284781860667377211 [ field0=... ]";
    assert_eq!(ycsb_key_of_line(line), Some(6284781860667377211));
    assert_eq!(ycsb_key_of_line(b"READ usertable user12 x"), Some(12));
    assert_eq!(ycsb_key_of_line(b"no marker here"), None);
    assert_eq!(ycsb_key_of_line(b"usertable userx"), None);
    assert_eq!(ycsb_key_of_line(b""), None);
    // A number too large for a 64-bit key is reported as no key.
    assert_eq!(
        ycsb_key_of_line(b"READ usertable user99999999999999999999999 x"),
        None
    );
    // The identifier after the last marker wins.
    assert_eq!(
        ycsb_key_of_line(b"usertable user1 then usertable user2"),
        Some(2)
    );
}
