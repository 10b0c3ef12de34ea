use hoover3::taskdef::{
    build_id, matching_queue, stable_hash, upper_hex_u128, worker_build_id, workflow_id,
    workflow_id_from_hash, QueueMatchError,
};

#[test]
fn upper_hex_has_no_leading_zeros() {
    assert_eq!(upper_hex_u128(0), "0");
    assert_eq!(upper_hex_u128(15), "F");
    assert_eq!(upper_hex_u128(255), "FF");
    assert_eq!(upper_hex_u128(4096), "1000");
    assert_eq!(upper_hex_u128(u128::MAX), "F".repeat(32));
    for v in [1u128, 0xABCDEF, 1 << 100, 123456789] {
        assert_eq!(upper_hex_u128(v), format!("{:X}", v));
    }
}

#[test]
fn workflow_ids_hash_the_argument() {
    assert_eq!(workflow_id_from_hash("scan", 0xBEEF), "scan_BEEF");
    let arg = vec![1u8, 2, 3];
    let expected = format!("{:X}", stable_hash::fast_stable_hash(&arg));
    assert_eq!(stable_hash(&arg), expected);
    assert_eq!(workflow_id("scan", &arg), format!("scan_{}", expected));
    assert_eq!(workflow_id("scan", &arg), workflow_id("scan", &vec![1u8, 2, 3]));
    assert_ne!(workflow_id("scan", &arg), workflow_id("scan", &vec![1u8, 2, 4]));
    assert_ne!(stable_hash(&arg), "10203");
}

#[test]
fn build_ids() {
    assert_eq!(build_id(Some(&[0xde, 0xad])), "dead");
    assert_eq!(build_id(None), "756e6b6e6f776e");
    assert_eq!(worker_build_id("processing_small", "dead"), "processing_small__dead");
}

#[test]
fn worker_queue_must_match_exactly_one() {
    let queues = vec!["a".to_string(), "b".to_string(), "b".to_string()];
    assert_eq!(matching_queue(&queues, "a"), Ok(0));
    assert_eq!(matching_queue(&queues, "b"), Err(QueueMatchError::MultipleMatchingQueues));
    assert_eq!(matching_queue(&queues, "c"), Err(QueueMatchError::NoMatchingQueue));
    assert_eq!(matching_queue(&vec![], "a"), Err(QueueMatchError::NoMatchingQueue));
}
