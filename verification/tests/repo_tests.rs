use user_cache::repo::CachedUserRepository;
use user_cache::store::{MemStore, StoreError};
use user_cache::user::{CreateUserRequest, UpdateUserRequest};

fn fresh_repo() -> CachedUserRepository {
    CachedUserRepository::new(MemStore::new())
}

fn create_req(name: &str, email: &str, age: Option<u8>) -> CreateUserRequest {
    CreateUserRequest { name: name.to_string(), email: email.to_string(), age }
}

#[test]
fn create_read_update_delete_scenario() {
    let mut repo = fresh_repo();

    // Create: the returned entity echoes the fields and carries a fresh id.
    let created = repo
        .create(&create_req("Ann", "ann@x.com", Some(30)))
        .expect("create must succeed on an empty store");
    assert_eq!(created.name, "Ann");
    assert_eq!(created.email, "ann@x.com");
    assert_eq!(created.age, Some(30));
    let id = created.id;

    // Read-your-write: served purely from the cache, zero store lookups.
    let lookups_before = repo.store_lookup_log().len();
    let read = repo.get_by_id(id).expect("read must succeed");
    assert_eq!(read.as_ref(), Some(&created));
    assert_eq!(repo.store_lookup_log().len(), lookups_before);

    // Partial update: age changes, name stays.
    let upd = UpdateUserRequest { name: None, email: None, age: Some(31) };
    let updated = repo
        .update(id, &upd)
        .expect("update must succeed")
        .expect("the entity exists");
    assert_eq!(updated.age, Some(31));
    assert_eq!(updated.name, "Ann");
    assert_eq!(updated.id, id);

    // Delete reports a removal.
    assert!(repo.delete(id).expect("delete must succeed"));

    // The read after the delete consults the store exactly once for this id
    // and finds nothing.
    let lookups_before = repo.store_lookup_log().len();
    let read = repo.get_by_id(id).expect("read must succeed");
    assert!(read.is_none());
    let log = repo.store_lookup_log();
    assert_eq!(log.len(), lookups_before + 1);
    assert_eq!(log[log.len() - 1], id);
}

#[test]
fn update_nonexistent_returns_absent() {
    let mut repo = fresh_repo();
    let created = repo
        .create(&create_req("Bob", "bob@x.com", None))
        .expect("create must succeed");
    let missing_id = created.id + 1;

    let upd = UpdateUserRequest { name: Some("X".to_string()), email: None, age: None };
    let res = repo.update(missing_id, &upd).expect("update itself must not fail");
    assert!(res.is_none());

    // The cache is free of that id: the following read goes to the store.
    let lookups_before = repo.store_lookup_log().len();
    assert!(repo.get_by_id(missing_id).expect("read must succeed").is_none());
    assert_eq!(repo.store_lookup_log().len(), lookups_before + 1);
}

#[test]
fn absent_id_reads_absent_and_caches_nothing() {
    let mut repo = fresh_repo();
    let id = 42u128;

    // First miss consults the store.
    let before = repo.store_lookup_log().len();
    assert!(repo.get_by_id(id).expect("read must succeed").is_none());
    assert_eq!(repo.store_lookup_log().len(), before + 1);

    // No negative caching: the second miss consults the store again.
    assert!(repo.get_by_id(id).expect("read must succeed").is_none());
    assert_eq!(repo.store_lookup_log().len(), before + 2);
}

#[test]
fn update_name_only_keeps_other_fields() {
    let mut repo = fresh_repo();
    let created = repo
        .create(&create_req("Carol", "carol@x.com", Some(44)))
        .expect("create must succeed");
    let id = created.id;

    let upd = UpdateUserRequest { name: Some("X".to_string()), email: None, age: None };
    let updated = repo
        .update(id, &upd)
        .expect("update must succeed")
        .expect("the entity exists");
    assert_eq!(updated.name, "X");
    assert_eq!(updated.email, "carol@x.com");
    assert_eq!(updated.age, Some(44));

    let read = repo.get_by_id(id).expect("read must succeed").expect("present");
    assert_eq!(read, updated);
}

#[test]
fn invalidate_cache_forces_store_read() {
    let mut repo = fresh_repo();
    let created = repo
        .create(&create_req("Dave", "dave@x.com", None))
        .expect("create must succeed");
    let id = created.id;

    // Cached: a read performs no store lookup.
    let before = repo.store_lookup_log().len();
    repo.get_by_id(id).expect("read must succeed");
    assert_eq!(repo.store_lookup_log().len(), before);

    // Invalidated: the same read now performs exactly one store lookup.
    repo.invalidate_cache();
    let read = repo.get_by_id(id).expect("read must succeed").expect("present");
    assert_eq!(read, created);
    let log = repo.store_lookup_log();
    assert_eq!(log.len(), before + 1);
    assert_eq!(log[log.len() - 1], id);
}

#[test]
fn duplicate_email_fails_create() {
    let mut repo = fresh_repo();
    repo.create(&create_req("Eve", "eve@x.com", None)).expect("create must succeed");
    let err = repo
        .create(&create_req("Evil", "eve@x.com", None))
        .expect_err("a duplicate address must be rejected");
    assert_eq!(err, StoreError::Constraint);

    // Nothing was persisted or cached for the rejected request.
    let all = repo.get_all().expect("listing must succeed");
    assert_eq!(all.len(), 1);
    assert_eq!(all[0].name, "Eve");
}

#[test]
fn update_to_taken_email_fails() {
    let mut repo = fresh_repo();
    let first = repo.create(&create_req("Fay", "fay@x.com", None)).expect("create");
    let second = repo.create(&create_req("Gus", "gus@x.com", None)).expect("create");

    let upd = UpdateUserRequest { name: None, email: Some("fay@x.com".to_string()), age: None };
    let err = repo
        .update(second.id, &upd)
        .expect_err("moving to a taken address must be rejected");
    assert_eq!(err, StoreError::Constraint);

    // Both rows are unchanged.
    let read = repo.get_by_id(second.id).expect("read").expect("present");
    assert_eq!(read.email, "gus@x.com");
    let read = repo.get_by_id(first.id).expect("read").expect("present");
    assert_eq!(read.email, "fay@x.com");
}

#[test]
fn update_to_own_email_succeeds() {
    let mut repo = fresh_repo();
    let created = repo.create(&create_req("Hal", "hal@x.com", None)).expect("create");
    let upd = UpdateUserRequest { name: None, email: Some("hal@x.com".to_string()), age: None };
    let updated = repo
        .update(created.id, &upd)
        .expect("keeping one's own address is no conflict")
        .expect("present");
    assert_eq!(updated.email, "hal@x.com");
}

#[test]
fn get_all_returns_everything_and_repairs_cache() {
    let mut repo = fresh_repo();
    let a = repo.create(&create_req("Ivy", "ivy@x.com", Some(1))).expect("create");
    let b = repo.create(&create_req("Jan", "jan@x.com", Some(2))).expect("create");

    repo.invalidate_cache();
    let mut all = repo.get_all().expect("listing must succeed");
    all.sort_by_key(|u| u.id);
    let mut expected = vec![a.clone(), b.clone()];
    expected.sort_by_key(|u| u.id);
    assert_eq!(all, expected);

    // The listing repaired the cache: both reads are now hits.
    let before = repo.store_lookup_log().len();
    assert_eq!(repo.get_by_id(a.id).expect("read"), Some(a));
    assert_eq!(repo.get_by_id(b.id).expect("read"), Some(b));
    assert_eq!(repo.store_lookup_log().len(), before);
}

#[test]
fn refresh_cache_entry_matches_store() {
    let mut repo = fresh_repo();
    let created = repo.create(&create_req("Kim", "kim@x.com", None)).expect("create");
    let id = created.id;

    // After an invalidation, a refresh re-reads the store and re-populates
    // the entry, so the following read is a cache hit.
    repo.invalidate_cache();
    let before = repo.store_lookup_log().len();
    repo.refresh_cache_entry(id).expect("refresh must succeed");
    assert_eq!(repo.store_lookup_log().len(), before + 1);
    assert_eq!(repo.get_by_id(id).expect("read"), Some(created));
    assert_eq!(repo.store_lookup_log().len(), before + 1);

    // Refreshing an absent id leaves nothing behind: the next read misses.
    let missing_id = id + 1;
    repo.refresh_cache_entry(missing_id).expect("refresh must succeed");
    let before = repo.store_lookup_log().len();
    assert!(repo.get_by_id(missing_id).expect("read").is_none());
    assert_eq!(repo.store_lookup_log().len(), before + 1);
}

#[test]
fn seed_populates_store_and_cache() {
    let mut repo = fresh_repo();
    repo.init_db().expect("schema init must succeed");
    repo.seed_sample_data().expect("seeding must succeed");

    let all = repo.get_all().expect("listing must succeed");
    assert_eq!(all.len(), 1);
    assert_eq!(all[0].name, "John Doe");
    assert_eq!(all[0].email, "john@example.com");
    assert_eq!(all[0].age, Some(30));

    // Seeding a non-empty store changes nothing.
    repo.seed_sample_data().expect("seeding must stay idempotent");
    assert_eq!(repo.get_all().expect("listing must succeed").len(), 1);

    // The seeded row is served from the cache.
    let id = all[0].id;
    let before = repo.store_lookup_log().len();
    assert_eq!(repo.get_by_id(id).expect("read"), Some(all[0].clone()));
    assert_eq!(repo.store_lookup_log().len(), before);
}
