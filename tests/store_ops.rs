use chunk_bridge::store::{RamBasedStorage, StoreError};

fn name(seed: u8) -> Vec<u8> {
    vec![seed; 32]
}

#[test]
fn put_then_get_returns_the_bytes() {
    let mut s = RamBasedStorage::new();
    assert_eq!(s.put(name(1), vec![10, 11, 12]), Ok(()));
    assert_eq!(s.put(name(2), vec![20]), Ok(()));
    assert_eq!(s.put(name(3), vec![]), Ok(()));
    assert_eq!(s.get(&name(1)), Ok(vec![10, 11, 12]));
    assert_eq!(s.get(&name(2)), Ok(vec![20]));
    assert_eq!(s.get(&name(3)), Ok(vec![]));
}

#[test]
fn get_of_an_unknown_address_fails() {
    let mut s = RamBasedStorage::new();
    assert_eq!(s.get(&name(1)), Err(StoreError::NotFound));
    s.put(name(1), vec![1]).unwrap();
    assert_eq!(s.get(&name(2)), Err(StoreError::NotFound));
}

#[test]
fn get_of_a_short_address_fails() {
    let mut s = RamBasedStorage::new();
    s.put(name(1), vec![1]).unwrap();
    assert_eq!(s.get(&[1u8; 31]), Err(StoreError::NotFound));
}

#[test]
fn put_of_a_wrong_length_address_is_refused() {
    let mut s = RamBasedStorage::new();
    assert_eq!(s.put(vec![1; 31], vec![1]), Err(StoreError::BadName));
    assert_eq!(s.put(vec![1; 33], vec![1]), Err(StoreError::BadName));
    assert_eq!(s.sizes.len(), 0);
}

#[test]
fn put_beyond_the_chunk_count_is_refused() {
    let mut s = RamBasedStorage::new();
    for i in 0..50u8 {
        assert_eq!(s.put(name(i), vec![i]), Ok(()));
    }
    assert_eq!(s.put(name(200), vec![1]), Err(StoreError::Full));
    assert_eq!(s.get(&name(49)), Ok(vec![49]));
}

#[test]
fn a_repeated_address_finds_the_first_entry() {
    let mut s = RamBasedStorage::new();
    s.put(name(1), vec![1, 1]).unwrap();
    s.put(name(1), vec![2, 2, 2]).unwrap();
    assert_eq!(s.sizes.len(), 2);
    assert_eq!(s.get(&name(1)), Ok(vec![1, 1]));
}

#[test]
fn delete_changes_no_lookup() {
    let mut s = RamBasedStorage::new();
    s.put(name(1), vec![5, 6]).unwrap();
    assert_eq!(s.delete(&name(1)), Ok(()));
    assert_eq!(s.get(&name(1)), Ok(vec![5, 6]));
    assert_eq!(s.delete(&name(9)), Ok(()));
    assert_eq!(s.get(&name(9)), Err(StoreError::NotFound));
}

#[test]
fn generate_address_is_the_sha3_256_digest() {
    let s = RamBasedStorage::new();
    let empty = s.generate_address(&[]);
    let expected: Vec<u8> = vec![
        0xa7, 0xff, 0xc6, 0xf8, 0xbf, 0x1e, 0xd7, 0x66, 0x51, 0xc1, 0x47, 0x56, 0xa0, 0x61, 0xd6,
        0x62, 0xf5, 0x80, 0xff, 0x4d, 0xe4, 0x3b, 0x49, 0xfa, 0x82, 0xd8, 0x0a, 0x4b, 0x80, 0xf8,
        0x43, 0x4a,
    ];
    assert_eq!(empty, expected);
}

#[test]
fn generate_address_is_deterministic() {
    let s = RamBasedStorage::new();
    let a = s.generate_address(b"some chunk bytes");
    let b = s.generate_address(b"some chunk bytes");
    let c = s.generate_address(b"other chunk bytes");
    assert_eq!(a.len(), 32);
    assert_eq!(a, b);
    assert_ne!(a, c);
}
