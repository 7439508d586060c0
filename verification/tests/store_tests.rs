use user_cache::store::{MemStore, StoreError};
use user_cache::user::{merged_user, CreateUserRequest, UpdateUserRequest, User};

fn create_req(name: &str, email: &str, age: Option<u8>) -> CreateUserRequest {
    CreateUserRequest { name: name.to_string(), email: email.to_string(), age }
}

#[test]
fn store_create_assigns_distinct_ids() {
    let mut store = MemStore::new();
    let a = store.create(&create_req("Ann", "ann@x.com", Some(30))).expect("create");
    let b = store.create(&create_req("Bob", "bob@x.com", None)).expect("create");
    assert_ne!(a.id, b.id);
    assert_eq!(a.name, "Ann");
    assert_eq!(a.email, "ann@x.com");
    assert_eq!(a.age, Some(30));
    assert_eq!(b.age, None);
}

#[test]
fn store_duplicate_email_is_a_constraint_error() {
    let mut store = MemStore::new();
    store.create(&create_req("Ann", "ann@x.com", None)).expect("create");
    let err = store
        .create(&create_req("Another", "ann@x.com", None))
        .expect_err("duplicate address");
    assert_eq!(err, StoreError::Constraint);
}

#[test]
fn store_get_by_id_finds_rows_and_logs_lookups() {
    let mut store = MemStore::new();
    let a = store.create(&create_req("Ann", "ann@x.com", None)).expect("create");
    assert_eq!(store.lookup_log().len(), 0);

    let got = store.get_by_id(a.id).expect("lookup must not fail");
    assert_eq!(got, Some(a.clone()));
    let missing = store.get_by_id(a.id + 1).expect("lookup must not fail");
    assert!(missing.is_none());

    let log = store.lookup_log();
    assert_eq!(log.len(), 2);
    assert_eq!(log[0], a.id);
    assert_eq!(log[1], a.id + 1);
}

#[test]
fn store_update_merges_partial_fields() {
    let mut store = MemStore::new();
    let a = store.create(&create_req("Ann", "ann@x.com", Some(30))).expect("create");

    // Only the provided field changes.
    let upd = UpdateUserRequest { name: Some("Anna".to_string()), email: None, age: None };
    let merged = store.update(a.id, &upd).expect("update").expect("present");
    assert_eq!(merged.name, "Anna");
    assert_eq!(merged.email, "ann@x.com");
    assert_eq!(merged.age, Some(30));
    assert_eq!(merged.id, a.id);

    // An all-absent request changes nothing and returns the row.
    let noop = UpdateUserRequest { name: None, email: None, age: None };
    let same = store.update(a.id, &noop).expect("update").expect("present");
    assert_eq!(same, merged);

    // An unknown id is an absent result, not an error.
    assert!(store.update(a.id + 1, &noop).expect("update").is_none());
}

#[test]
fn store_delete_reports_removal() {
    let mut store = MemStore::new();
    let a = store.create(&create_req("Ann", "ann@x.com", None)).expect("create");
    assert!(store.delete(a.id).expect("delete must not fail"));
    assert!(!store.delete(a.id).expect("delete must not fail"));
    assert!(store.get_by_id(a.id).expect("lookup").is_none());
}

#[test]
fn store_list_all_returns_every_row() {
    let mut store = MemStore::new();
    assert!(store.init_schema().is_ok());
    assert!(store.list_all().expect("listing").is_empty());

    let a = store.create(&create_req("Ann", "ann@x.com", None)).expect("create");
    let b = store.create(&create_req("Bob", "bob@x.com", None)).expect("create");
    let mut all = store.list_all().expect("listing");
    all.sort_by_key(|u| u.id);
    let mut expected = vec![a, b];
    expected.sort_by_key(|u| u.id);
    assert_eq!(all, expected);
}

#[test]
fn store_seed_inserts_sample_once() {
    let mut store = MemStore::new();
    store.seed_sample_data().expect("seeding");
    let all = store.list_all().expect("listing");
    assert_eq!(all.len(), 1);
    assert_eq!(all[0].name, "John Doe");
    assert_eq!(all[0].email, "john@example.com");
    assert_eq!(all[0].age, Some(30));

    store.seed_sample_data().expect("seeding again");
    assert_eq!(store.list_all().expect("listing").len(), 1);
}

#[test]
fn merged_user_applies_only_given_fields() {
    let u = User {
        id: 7,
        name: "Ann".to_string(),
        email: "ann@x.com".to_string(),
        age: Some(30),
    };
    let r = UpdateUserRequest {
        name: None,
        email: Some("ann@y.com".to_string()),
        age: Some(31),
    };
    let m = merged_user(&u, &r);
    assert_eq!(m.id, 7);
    assert_eq!(m.name, "Ann");
    assert_eq!(m.email, "ann@y.com");
    assert_eq!(m.age, Some(31));
}
