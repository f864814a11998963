use fehui::Storage;

#[test]
fn storage_push_returns_dense_indices() {
    let mut s: Storage<u32> = Storage::new();
    assert_eq!(s.push(10), 0);
    assert_eq!(s.push(20), 1);
    assert_eq!(s.push(30), 2);
    assert_eq!(s.len(), 3);
    assert_eq!(*s.get(0), 10);
    assert_eq!(*s.get(1), 20);
    assert_eq!(*s.get(2), 30);
}

#[test]
fn storage_clear_resets_to_zero() {
    let mut s: Storage<u32> = Storage::new();
    s.push(1);
    s.push(2);
    s.clear();
    assert_eq!(s.len(), 0);
    // the very next push after a clear returns index 0 again
    assert_eq!(s.push(7), 0);
    assert_eq!(s.len(), 1);
    assert_eq!(*s.get(0), 7);
}

#[test]
fn storage_length_counts_pushes_since_clear() {
    let mut s: Storage<u32> = Storage::new();
    for i in 0..100u32 {
        assert_eq!(s.push(i), i as usize);
    }
    assert_eq!(s.len(), 100);
    s.clear();
    for i in 0..5u32 {
        assert_eq!(s.push(i), i as usize);
    }
    assert_eq!(s.len(), 5);
}

#[test]
fn storage_get_mut_and_replace() {
    let mut s: Storage<u32> = Storage::new();
    s.push(5);
    s.push(6);
    *s.get_mut(0) = 50;
    assert_eq!(*s.get(0), 50);
    let prev = s.replace(1, 60);
    assert_eq!(prev, 6);
    assert_eq!(*s.get(1), 60);
}
