use user_cache::cache::UserCache;
use user_cache::user::User;

fn user(id: u128, name: &str, email: &str, age: Option<u8>) -> User {
    User { id, name: name.to_string(), email: email.to_string(), age }
}

#[test]
fn cache_upsert_overwrites_by_id() {
    let mut cache = UserCache::new();
    assert!(cache.lookup(1).is_none());

    cache.upsert(user(1, "Ann", "ann@x.com", None));
    cache.upsert(user(2, "Bob", "bob@x.com", Some(3)));
    assert_eq!(cache.lookup(1), Some(user(1, "Ann", "ann@x.com", None)));
    assert_eq!(cache.lookup(2), Some(user(2, "Bob", "bob@x.com", Some(3))));

    cache.upsert(user(1, "Anna", "anna@x.com", Some(9)));
    assert_eq!(cache.lookup(1), Some(user(1, "Anna", "anna@x.com", Some(9))));
    assert_eq!(cache.lookup(2), Some(user(2, "Bob", "bob@x.com", Some(3))));
}

#[test]
fn cache_remove_and_clear_drop_entries() {
    let mut cache = UserCache::new();
    cache.upsert(user(1, "Ann", "ann@x.com", None));
    cache.upsert(user(2, "Bob", "bob@x.com", None));

    cache.remove(1);
    assert!(cache.lookup(1).is_none());
    assert!(cache.lookup(2).is_some());

    // Removing an absent id is harmless.
    cache.remove(1);
    assert!(cache.lookup(2).is_some());

    cache.clear();
    assert!(cache.lookup(2).is_none());
}

#[test]
fn cached_entries_are_snapshots() {
    let mut cache = UserCache::new();
    let original = user(5, "Ann", "ann@x.com", Some(30));
    cache.upsert(original.clone());

    // Mutating the caller's copy does not reach into the cache.
    let mut mine = original.clone();
    mine.name = "Changed".to_string();
    assert_eq!(cache.lookup(5), Some(original));
}
