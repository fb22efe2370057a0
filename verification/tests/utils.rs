use mem_gadgets::utils::{logmn, new_hash_map};

#[test]
fn logmn_small_and_exact_powers() {
    assert_eq!(logmn(0), 1);
    assert_eq!(logmn(1), 1);
    assert_eq!(logmn(2), 1);
    assert_eq!(logmn(3), 2);
    assert_eq!(logmn(4), 2);
    assert_eq!(logmn(5), 3);
    assert_eq!(logmn(8), 3);
    assert_eq!(logmn(9), 4);
    assert_eq!(logmn(1024), 10);
    assert_eq!(logmn(1025), 11);
}

#[test]
fn new_hash_map_starts_empty() {
    let mut m = new_hash_map::<u64, u64>();
    assert!(m.is_empty());
    m.insert(3, 4);
    assert_eq!(m.get(&3), Some(&4));
    assert_eq!(m.len(), 1);
}
