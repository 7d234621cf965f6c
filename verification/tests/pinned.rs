use gx::identity::{ActionId, CommitSha, LockKey, Version};
use gx::pinned::{lock_from_data, lock_to_data, needs_rewrite, LockData, LockStore, MemoryLock, ShaLock};

fn make_key(action: &str, version: &str) -> LockKey {
    LockKey::new(ActionId::new(action), Version::new(version))
}

#[test]
fn test_memory_lock_load_returns_empty() {
    let store = MemoryLock;
    let lock = store.load().unwrap();
    assert!(!lock.has(&make_key("actions/checkout", "v4")));
}

#[test]
fn test_memory_lock_save_is_noop() {
    let store = MemoryLock;
    let lock = ShaLock::empty();
    assert!(store.save(&lock).is_ok());
}

#[test]
fn memory_lock_path_is_in_memory() {
    assert_eq!(MemoryLock.path(), "in-memory");
}

#[test]
fn pins_roundtrip_through_data() {
    let mut lock = ShaLock::empty();
    lock.set(make_key("actions/checkout", "v4"), CommitSha::new("abc"));
    let data = lock_to_data(&lock);
    assert_eq!(data.version, "1.0");
    assert_eq!(data.actions, vec![("actions/checkout@v4".to_string(), "abc".to_string())]);
    let back = lock_from_data(&data);
    assert_eq!(back.get(&make_key("actions/checkout", "v4")), Some(&CommitSha::new("abc")));
    assert!(!needs_rewrite(&data));
}

#[test]
fn old_data_needs_rewrite_and_bad_keys_are_skipped() {
    let data = LockData {
        version: String::new(),
        actions: vec![("nonsense".to_string(), "abc".to_string())],
    };
    assert!(needs_rewrite(&data));
    assert!(lock_from_data(&data).is_empty());
}
