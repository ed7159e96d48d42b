use ciruela_core::{append_signatures, sort_signatures, SignatureEntry};

fn entry(timestamp: u64, sig: &[u8]) -> SignatureEntry {
    SignatureEntry { timestamp, signature: sig.to_vec() }
}

fn key(v: &[SignatureEntry]) -> Vec<(u64, Vec<u8>)> {
    v.iter().map(|e| (e.timestamp, e.signature.clone())).collect()
}

#[test]
fn sort_orders_by_timestamp_then_bytes_and_dedups() {
    let mut v = vec![
        entry(5, b"b"),
        entry(3, b"z"),
        entry(5, b"a"),
        entry(5, b"b"),
        entry(5, b"ab"),
    ];
    sort_signatures(&mut v);
    assert_eq!(
        key(&v),
        vec![
            (3, b"z".to_vec()),
            (5, b"a".to_vec()),
            (5, b"ab".to_vec()),
            (5, b"b".to_vec()),
        ]
    );
}

#[test]
fn sort_of_empty_is_empty() {
    let mut v: Vec<SignatureEntry> = vec![];
    sort_signatures(&mut v);
    assert!(v.is_empty());
}

#[test]
fn append_merges_in_order() {
    let mut old = vec![entry(1, b"x"), entry(4, b"x")];
    append_signatures(&mut old, vec![entry(2, b"y"), entry(4, b"x"), entry(0, b"q")]);
    assert_eq!(
        key(&old),
        vec![(0, b"q".to_vec()), (1, b"x".to_vec()), (2, b"y".to_vec()), (4, b"x".to_vec())]
    );
}

#[test]
fn append_same_entry_twice_is_idempotent() {
    let mut once = vec![entry(1, b"x")];
    append_signatures(&mut once, vec![entry(7, b"s")]);
    let mut twice = once.clone();
    append_signatures(&mut twice, vec![entry(7, b"s")]);
    assert_eq!(key(&once), key(&twice));
    assert_eq!(key(&once), vec![(1, b"x".to_vec()), (7, b"s".to_vec())]);
}

#[test]
fn merge_holds_old_and_new_entries() {
    let mut old = vec![entry(3, b"c"), entry(9, b"z")];
    append_signatures(&mut old, vec![entry(9, b"z"), entry(1, b"a"), entry(1, b"a"), entry(5, b"m")]);
    assert_eq!(
        key(&old),
        vec![(1, b"a".to_vec()), (3, b"c".to_vec()), (5, b"m".to_vec()), (9, b"z".to_vec())]
    );
}
