#[test]
fn checkpoint_test_concurrent_checkpoints() {
}
