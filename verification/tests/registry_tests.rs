use gateway_engine::registry::Registry;
use gateway_engine::registry::RegisterError;

#[test]
fn register_and_resolve_once() {
    let mut r = Registry::new();
    r.register(b"T1".to_vec(), 1, 100).unwrap();
    assert_eq!(r.len(), 1);
    let w = r.resolve(&b"T1".to_vec()).expect("waiter should be live");
    assert_eq!(w.token, b"T1".to_vec());
    assert_eq!(w.epoch, 1);
    assert_eq!(w.deadline, 100);
    assert_eq!(r.len(), 0);
}

#[test]
fn second_resolve_is_a_noop() {
    let mut r = Registry::new();
    r.register(b"T1".to_vec(), 1, 100).unwrap();
    r.register(b"T2".to_vec(), 1, 100).unwrap();
    assert!(r.resolve(&b"T1".to_vec()).is_some());
    assert!(r.resolve(&b"T1".to_vec()).is_none());
    assert_eq!(r.len(), 1);
    assert!(r.contains(&b"T2".to_vec()));
}

#[test]
fn resolve_unknown_token_changes_nothing() {
    let mut r = Registry::new();
    r.register(b"T1".to_vec(), 1, 100).unwrap();
    assert!(r.resolve(&b"XX".to_vec()).is_none());
    assert_eq!(r.len(), 1);
}

#[test]
fn duplicate_token_is_refused() {
    let mut r = Registry::new();
    r.register(b"T1".to_vec(), 1, 100).unwrap();
    assert_eq!(r.register(b"T1".to_vec(), 2, 200), Err(RegisterError::DuplicateToken));
    assert_eq!(r.len(), 1);
}

#[test]
fn invalidate_epoch_partitions_by_epoch() {
    let mut r = Registry::new();
    r.register(b"old1".to_vec(), 1, 100).unwrap();
    r.register(b"cur1".to_vec(), 2, 100).unwrap();
    r.register(b"old2".to_vec(), 1, 100).unwrap();
    r.register(b"cur2".to_vec(), 2, 100).unwrap();
    let stale = r.invalidate_epoch(2);
    let tokens: Vec<Vec<u8>> = stale.iter().map(|w| w.token.clone()).collect();
    assert_eq!(tokens, vec![b"old1".to_vec(), b"old2".to_vec()]);
    assert_eq!(r.len(), 2);
    assert!(r.contains(&b"cur1".to_vec()));
    assert!(r.contains(&b"cur2".to_vec()));
    assert!(!r.contains(&b"old1".to_vec()));
    assert!(!r.contains(&b"old2".to_vec()));
}

#[test]
fn drain_empties_the_registry() {
    let mut r = Registry::new();
    r.register(b"a".to_vec(), 1, 10).unwrap();
    r.register(b"b".to_vec(), 1, 20).unwrap();
    let all = r.drain();
    assert_eq!(all.len(), 2);
    assert_eq!(r.len(), 0);
}
