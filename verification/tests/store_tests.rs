use faster_rs::status;
use faster_rs::FasterError;
use faster_rs::FasterKv;
use faster_rs::FasterKvBuilder;
use faster_rs::PendingResult;

#[test]
fn round_trip_u64() {
    let mut store = FasterKv::default();
    store.upsert(&7u64, &1234567890123456789u64, 1);
    let (res, recv): (u8, PendingResult<u64>) = store.read(&7u64, 2);
    assert_eq!(res, status::OK);
    assert_eq!(recv.recv(), Some(1234567890123456789u64));
}

#[test]
fn round_trip_i32() {
    let mut store = FasterKv::default();
    store.upsert(&3u64, &-42i32, 1);
    let (res, recv): (u8, PendingResult<i32>) = store.read(&3u64, 2);
    assert_eq!(res, status::OK);
    assert_eq!(recv.recv(), Some(-42i32));
}

#[test]
fn round_trip_string_key_and_value() {
    let mut store = FasterKv::default();
    let key = String::from("a key");
    let value = String::from("a value");
    store.upsert(&key, &value, 1);
    let (res, recv): (u8, PendingResult<String>) = store.read(&key, 2);
    assert_eq!(res, status::OK);
    assert_eq!(recv.recv().unwrap(), value);
}

#[test]
fn round_trip_vec_i32() {
    let mut store = FasterKv::default();
    let value: Vec<i32> = vec![-1, 0, 1, i32::MAX, i32::MIN];
    store.upsert(&9u64, &value, 1);
    let (res, recv): (u8, PendingResult<Vec<i32>>) = store.read(&9u64, 2);
    assert_eq!(res, status::OK);
    assert_eq!(recv.recv().unwrap(), value);
}

#[test]
fn rmw_accumulates_two_modifications() {
    let mut store = FasterKv::default();
    store.upsert(&1u64, &1337u64, 1);
    assert_eq!(store.rmw(&1u64, 5u64, 2), status::OK);
    assert_eq!(store.rmw(&1u64, 100u64, 3), status::OK);
    let (res, recv): (u8, PendingResult<u64>) = store.read(&1u64, 4);
    assert_eq!(res, status::OK);
    assert_eq!(recv.recv(), Some(1442u64));
}

#[test]
fn rmw_interleaving_independent_total() {
    // Four writers, each issuing twenty-five additive merges of the same
    // modification on one key, interleaved round-robin: the final value
    // depends only on the count of merges.
    let mut store = FasterKv::default();
    store.upsert(&1u64, &100u64, 1);
    let writers: usize = 4;
    let per_writer: usize = 25;
    let mut serial: u64 = 2;
    for round in 0..per_writer {
        for writer in 0..writers {
            let _ = round;
            let _ = writer;
            assert_eq!(store.rmw(&1u64, 30u64, serial), status::OK);
            serial += 1;
        }
    }
    let (res, recv): (u8, PendingResult<u64>) = store.read(&1u64, serial);
    assert_eq!(res, status::OK);
    assert_eq!(recv.recv(), Some(100u64 + (4 * 25) * 30u64));
}

#[test]
fn size_counts_distinct_keys() {
    let mut store = FasterKv::default();
    assert_eq!(store.size(), 0);
    store.upsert(&1u64, &10u64, 1);
    store.upsert(&2u64, &20u64, 2);
    store.upsert(&1u64, &30u64, 3);
    assert_eq!(store.size(), 2);
    store.delete(&1u64, 4);
    assert_eq!(store.size(), 1);
}

#[test]
fn delete_missing_key_reports_not_found() {
    let mut store = FasterKv::default();
    assert_eq!(store.delete(&5u64, 1), status::NOT_FOUND);
}

#[test]
fn iterator_yields_every_record() {
    let mut store = FasterKv::default();
    store.upsert(&1u64, &10u64, 1);
    store.upsert(&2u64, &20u64, 2);
    let mut iterator = store.get_iterator();
    let mut seen: usize = 0;
    loop {
        match iterator.get_next() {
            Some(record) => {
                assert!(record.key.is_some());
                assert!(record.value.is_some());
                assert_eq!(record.key.unwrap().len(), 8);
                assert_eq!(record.value.unwrap().len(), 8);
                seen += 1;
            }
            None => break,
        }
    }
    assert_eq!(seen, 2);
}

#[test]
fn builder_rejects_zero_mutable_fraction() {
    let mut builder = FasterKvBuilder::new(1 << 14, 1 << 20);
    builder.with_log_mutable_fraction(0);
    match builder.build() {
        Err(FasterError::BuilderError(_)) => {}
        _ => assert!(false, "zero mutable fraction must be rejected"),
    }
}

#[test]
fn builder_rejects_oversized_mutable_fraction() {
    let mut builder = FasterKvBuilder::new(1 << 14, 1 << 20);
    builder.with_log_mutable_fraction(101);
    match builder.build() {
        Err(FasterError::BuilderError(_)) => {}
        _ => assert!(false, "an oversized mutable fraction must be rejected"),
    }
}

#[test]
fn can_build_with_disk() {
    let dir_str = "builder_storage";
    let mut builder = FasterKvBuilder::new(1 << 15, 1024 * 1024 * 1024);
    builder
        .with_disk(dir_str)
        .set_pre_allocate_log(true)
        .with_log_mutable_fraction(80);
    let kv = builder.build().unwrap();
    let storage = kv.storage_dir();
    assert_eq!(storage.unwrap(), dir_str);
}

#[test]
fn error_messages_name_the_failure() {
    assert_eq!(
        FasterError::InvalidType.message(),
        "cannot call method with in-memory store"
    );
    assert_eq!(FasterError::RecoveryError.message(), "failed to recover");
    assert_eq!(FasterError::CheckpointError.message(), "checkpoint failed");
    assert_eq!(
        FasterError::BuilderError("bad fraction").message(),
        "builder error"
    );
    let io = std::io::Error::new(std::io::ErrorKind::PermissionDenied, "denied");
    let wrapped = FasterError::from(io);
    assert!(matches!(wrapped, FasterError::IOError(_)));
    assert_eq!(wrapped.message(), "filesystem operation failed");
}
