use glm_evoke::worm::DType;
use glm_evoke::worm::WormMemoryManager;
use glm_evoke::EvokeError;

#[test]
fn tensors_are_aligned_and_padded_with_zeros() {
    let mut manager = WormMemoryManager::new(1024);
    let a = manager.allocate(&[1, 2, 3], "a", vec![3], DType::F32).unwrap();
    let b = manager.allocate(&[4, 5], "b", vec![1, 2], DType::BF16).unwrap();
    assert_eq!((a.offset, a.len), (0, 3));
    assert_eq!((b.offset, b.len), (64, 2));
    assert_eq!(b.shape, vec![1, 2]);
    assert_eq!(b.dtype, DType::BF16);
    let region = manager.seal(0).unwrap();
    assert_eq!(region.bytes().len(), 66);
    assert_eq!(region.slice(&a), &[1, 2, 3]);
    assert_eq!(region.slice(&b), &[4, 5]);
    assert!(region.bytes()[3..64].iter().all(|x| *x == 0));
}

#[test]
fn exact_multiple_needs_no_padding() {
    let mut manager = WormMemoryManager::new(256);
    let first = manager.allocate(&[7; 64], "first", vec![64], DType::F16).unwrap();
    let second = manager.allocate(&[8; 64], "second", vec![64], DType::F16).unwrap();
    assert_eq!(first.offset, 0);
    assert_eq!(second.offset, 64);
}

#[test]
fn later_writes_leave_earlier_ones_alone() {
    let mut manager = WormMemoryManager::new(4096);
    let mut views = Vec::new();
    for i in 0..10u8 {
        let data = vec![i; 10 + i as usize];
        views.push((manager.allocate(&data, "same key", vec![], DType::F32).unwrap(), data));
    }
    assert_eq!(manager.get("same key").unwrap().offset, views[9].0.offset);
    let region = manager.seal(0).unwrap();
    for (view, data) in &views {
        assert_eq!(region.slice(view), data.as_slice());
    }
    for pair in views.windows(2) {
        assert!(pair[0].0.offset + pair[0].0.len <= pair[1].0.offset);
    }
}

#[test]
fn a_tensor_that_does_not_fit_is_refused() {
    let mut manager = WormMemoryManager::new(100);
    let kept = manager.allocate(&[1; 10], "kept", vec![10], DType::F32).unwrap();
    match manager.allocate(&[0; 4096], "big", vec![4096], DType::F32) {
        Err(EvokeError::Shard { shard, msg }) => {
            assert_eq!(shard, "big");
            assert_eq!(msg, "OOM: need 4160, capacity 100");
        }
        other => panic!("{:?}", other),
    }
    assert!(manager.get("big").is_none());
    let region = manager.seal(0).unwrap();
    assert_eq!(region.bytes(), &[1; 10]);
    assert_eq!(region.slice(&kept), &[1; 10]);
}

#[test]
fn the_last_byte_of_the_arena_can_be_used() {
    let mut manager = WormMemoryManager::new(100);
    match manager.allocate(&[0; 101], "big", vec![101], DType::F32) {
        Err(EvokeError::Shard { msg, .. }) => assert_eq!(msg, "OOM: need 101, capacity 100"),
        other => panic!("{:?}", other),
    }
    assert!(manager.allocate(&[0; 100], "full", vec![100], DType::F32).is_ok());
    let mut nothing = WormMemoryManager::new(0);
    assert!(nothing.allocate(&[], "empty", vec![0], DType::F32).is_ok());
    assert!(nothing.allocate(&[0], "one", vec![1], DType::F32).is_err());
}

#[test]
fn the_table_finds_tensors_by_key() {
    let mut manager = WormMemoryManager::new(1000);
    assert!(manager.get("x").is_none());
    manager.allocate(&[9], "x", vec![1], DType::F16).unwrap();
    let found = manager.get("x").unwrap();
    assert_eq!((found.offset, found.len, found.dtype), (0, 1, DType::F16));
    assert!(manager.get("y").is_none());
}

#[test]
fn a_failed_memory_lock_is_an_error() {
    for status in [-1, 1, i32::MIN] {
        let mut manager = WormMemoryManager::new(64);
        manager.allocate(&[1], "x", vec![1], DType::F16).unwrap();
        assert_eq!(manager.staged(), &[1]);
        match manager.seal(status) {
            Err(EvokeError::Seal(msg)) => assert_eq!(msg, "memory lock failed"),
            Err(other) => panic!("{:?}", other),
            Ok(_) => panic!("the lock failed"),
        }
    }
    assert!(WormMemoryManager::new(64).seal(-1).is_ok());
}

#[test]
fn refused_requests_leave_the_table_alone() {
    let mut manager = WormMemoryManager::new(64);
    manager.allocate(&[5; 8], "x", vec![8], DType::F16).unwrap();
    assert!(manager.allocate(&[0; 100_000], "x", vec![100_000], DType::F32).is_err());
    assert_eq!(manager.get("x").unwrap().len, 8);
}

#[test]
fn an_empty_arena_can_be_sealed() {
    let region = WormMemoryManager::new(0).seal(0).unwrap();
    assert!(region.bytes().is_empty());
}
