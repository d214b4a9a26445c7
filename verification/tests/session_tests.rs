use faster_rs::status;
use faster_rs::FasterError;
use faster_rs::FasterKv;
use faster_rs::FasterKvBuilder;
use faster_rs::PendingResult;

fn disk_store(dir: &str) -> FasterKv {
    let mut builder = FasterKvBuilder::new(1 << 14, 1 << 26);
    builder.with_disk(dir);
    builder.build().unwrap()
}

#[test]
fn session_tokens_are_fresh_and_uuid_shaped() {
    let mut store = FasterKv::default();
    let first = store.start_session();
    assert_eq!(first.len(), 36);
    assert_eq!(first.chars().filter(|c| *c == '-').count(), 4);
    store.stop_session();
    let second = store.start_session();
    assert_eq!(second.len(), 36);
    assert_ne!(first, second);
    store.stop_session();
}

#[test]
fn checkpoint_token_is_uuid_shaped() {
    let mut store = disk_store("token_shape_storage");
    store.upsert(&1u64, &2u64, 1);
    let checkpoint = store.checkpoint().unwrap();
    assert!(checkpoint.checked);
    assert_eq!(checkpoint.token.len(), 36);
    assert_eq!(checkpoint.token.chars().filter(|c| *c == '-').count(), 4);
}

#[test]
fn checkpoint_without_disk_is_invalid() {
    let mut store = FasterKv::default();
    assert!(matches!(store.checkpoint(), Err(FasterError::InvalidType)));
}

#[test]
fn recover_without_disk_is_invalid() {
    let mut store = FasterKv::default();
    let result = store.recover(String::from("a"), String::from("a"));
    assert!(matches!(result, Err(FasterError::InvalidType)));
}

#[test]
fn recover_with_mismatched_tokens_fails() {
    let mut store = disk_store("mismatched_tokens_storage");
    store.upsert(&1u64, &2u64, 1);
    let checkpoint = store.checkpoint().unwrap();
    let result = store.recover(checkpoint.token, String::from("another token"));
    assert!(matches!(result, Err(FasterError::RecoveryError)));
}

#[test]
fn recover_with_unknown_token_fails() {
    let mut store = disk_store("unknown_token_storage");
    let bogus = String::from("00000000-0000-0000-ffff-ffffffffffff");
    let result = store.recover(bogus.clone(), bogus);
    assert!(matches!(result, Err(FasterError::RecoveryError)));
}

#[test]
fn recovery_restores_checkpoint_contents() {
    let mut store = disk_store("recovery_contents_storage");
    store.upsert(&1u64, &10u64, 1);
    store.upsert(&2u64, &20u64, 2);
    let checkpoint = store.checkpoint().unwrap();
    // Work past the checkpoint, then lose it to the crash.
    store.upsert(&2u64, &99u64, 3);
    store.upsert(&3u64, &30u64, 4);
    let recover = store
        .recover(checkpoint.token.clone(), checkpoint.token)
        .unwrap();
    assert_eq!(recover.status, status::OK);
    let (res, recv): (u8, PendingResult<u64>) = store.read(&2u64, 5);
    assert_eq!(res, status::OK);
    assert_eq!(recv.recv(), Some(20u64));
    let (res, recv): (u8, PendingResult<u64>) = store.read(&3u64, 6);
    assert_eq!(res, status::NOT_FOUND);
    assert!(recv.recv().is_none());
}

#[test]
fn recovered_session_resumes_at_durable_serial() {
    let mut store = disk_store("session_continuity_storage");
    let session = store.start_session();
    let mut last_issued: u64 = 0;
    for serial in 1..=10u64 {
        store.rmw(&1u64, 7u64, serial);
        last_issued = serial;
    }
    let checkpoint = store.checkpoint().unwrap();
    // Progress past the checkpoint is lost at the simulated crash.
    for serial in 11..=15u64 {
        store.rmw(&1u64, 7u64, serial);
        last_issued = serial;
    }
    let recover = store
        .recover(checkpoint.token.clone(), checkpoint.token)
        .unwrap();
    assert_eq!(recover.status, status::OK);
    assert_eq!(recover.session_ids.len(), 1);
    assert_eq!(recover.session_ids[0], session);
    let resumed_serial = store.continue_session(recover.session_ids[0].clone());
    // Never above the last serial the session truly issued.
    assert!(resumed_serial <= last_issued);
    assert_eq!(resumed_serial, 10);
    // Replaying from right after the resumed serial restores the exact
    // accumulation the full run would have produced.
    for serial in (resumed_serial + 1)..=last_issued {
        store.rmw(&1u64, 7u64, serial);
    }
    let (res, recv): (u8, PendingResult<u64>) = store.read(&1u64, last_issued);
    assert_eq!(res, status::OK);
    assert_eq!(recv.recv(), Some(15 * 7u64));
    store.complete_pending(true);
    store.stop_session();
}

#[test]
fn stopped_session_is_not_live_at_checkpoint() {
    let mut store = disk_store("stopped_session_storage");
    let session = store.start_session();
    store.upsert(&1u64, &1u64, 1);
    store.stop_session();
    let checkpoint = store.checkpoint().unwrap();
    let recover = store
        .recover(checkpoint.token.clone(), checkpoint.token)
        .unwrap();
    assert_eq!(recover.status, status::OK);
    let _ = session;
    assert_eq!(recover.session_ids.len(), 0);
}
