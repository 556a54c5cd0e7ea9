use msc_jit::memory::{JitMemory, FILL_BYTE, PAGE_SIZE};

#[test]
fn fresh_region_is_filled_with_ret() {
    let region = JitMemory::new(2);
    assert_eq!(region.pages(), 2);
    assert_eq!(region.as_slice().len(), 2 * PAGE_SIZE);
    assert!(region.as_slice().iter().all(|b| *b == 0xc3));
    assert_eq!(FILL_BYTE, 0xc3);
    assert!(!region.is_locked());
    assert_eq!(JitMemory::new(0).as_slice().len(), 0);
}

#[test]
fn region_for_code_is_rounded_up_to_pages() {
    for (len, pages) in [(0usize, 0usize), (1, 1), (4095, 1), (4096, 1), (4097, 2), (8192, 2), (8193, 3)] {
        let code: Vec<u8> = (0..len).map(|i| (i % 251) as u8).collect();
        let region = JitMemory::with_code(&code).unwrap();
        assert_eq!(region.pages(), pages);
        assert_eq!(&region.as_slice()[..len], &code[..]);
        assert!(region.as_slice()[len..].iter().all(|b| *b == 0xc3));
        assert!(!region.is_locked());
    }
}

#[test]
fn lock_and_unlock_follow_the_reported_status() {
    let mut region = JitMemory::with_code(&vec![0x90, 0xc3]).unwrap();
    assert_eq!(region.lock(-1), -1);
    assert!(!region.is_locked());
    assert_eq!(region.lock(0), 0);
    assert!(region.is_locked());
    assert_eq!(region.unlock(22), 22);
    assert!(region.is_locked());
    assert_eq!(region.unlock(0), 0);
    assert!(!region.is_locked());
}

#[test]
fn unlock_then_lock_keeps_every_byte() {
    let mut region = JitMemory::with_code(&vec![1, 2, 3, 4, 5]).unwrap();
    region.lock(0);
    let before = region.as_slice().to_vec();
    region.unlock(0);
    region.lock(0);
    assert_eq!(region.as_slice(), &before[..]);
    assert!(region.is_locked());
}

#[test]
fn store_writes_into_a_writable_region_only() {
    let mut region = JitMemory::new(1);
    assert!(region.store(4090, &vec![1, 2, 3, 4, 5, 6]));
    assert_eq!(&region.as_slice()[4088..], &[0xc3, 0xc3, 1, 2, 3, 4, 5, 6]);
    assert!(!region.store(4091, &vec![1, 2, 3, 4, 5, 6]));
    assert!(!region.store(usize::MAX, &vec![1]));
    assert!(region.store(4096, &vec![]));
    region.lock(0);
    assert!(!region.store(0, &vec![9]));
    assert_eq!(region.as_slice()[0], 0xc3);
    region.unlock(0);
    assert!(region.store(0, &vec![9]));
    assert_eq!(region.as_slice()[0], 9);
}
