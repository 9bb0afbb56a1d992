use enriching_students::creds::{CredentialStore, getuser};

#[test]
fn get_from_empty_store_is_none() {
    let store = CredentialStore::new();
    assert!(store.get(&String::from("123")).is_none());
}

#[test]
fn upsert_then_get_returns_the_pair() {
    let mut store = CredentialStore::new();
    store.upsert(String::from("123"), String::from("a@x"), String::from("p1"));
    let got = store.get(&String::from("123"));
    match got {
        Some((email, pass)) => {
            assert_eq!(email, "a@x");
            assert_eq!(pass, "p1");
        },
        None => panic!("expected the stored pair"),
    }
}

#[test]
fn upsert_is_idempotent_by_owner() {
    let mut store = CredentialStore::new();
    store.upsert(String::from("123"), String::from("a@x"), String::from("p1"));
    store.upsert(String::from("123"), String::from("a@x"), String::from("p2"));
    assert_eq!(store.rows.len(), 1);
    assert_eq!(store.rows[0].owner_id, "123");
    assert_eq!(store.rows[0].email, "a@x");
    assert_eq!(store.rows[0].password, "p2");
    let got = store.get(&String::from("123"));
    match got {
        Some((email, pass)) => {
            assert_eq!(email, "a@x");
            assert_eq!(pass, "p2");
        },
        None => panic!("expected the stored pair"),
    }
}

#[test]
fn upsert_keeps_other_owners() {
    let mut store = CredentialStore::new();
    store.upsert(String::from("1"), String::from("a@x"), String::from("pa"));
    store.upsert(String::from("2"), String::from("b@x"), String::from("pb"));
    store.upsert(String::from("1"), String::from("c@x"), String::from("pc"));
    assert_eq!(store.rows.len(), 2);
    let one = store.get(&String::from("1")).expect("owner 1 stored");
    assert_eq!(one.0, "c@x");
    assert_eq!(one.1, "pc");
    let two = store.get(&String::from("2")).expect("owner 2 stored");
    assert_eq!(two.0, "b@x");
    assert_eq!(two.1, "pb");
}

#[test]
fn getuser_returns_the_stored_pair() {
    let mut store = CredentialStore::new();
    store.upsert(String::from("u1"), String::from("me@host"), String::from("secret"));
    let (email, pass) = getuser(&store, String::from("u1")).expect("stored");
    assert_eq!(email, "me@host");
    assert_eq!(pass, "secret");
}

#[test]
fn getuser_reports_a_missing_owner() {
    let store = CredentialStore::new();
    assert!(getuser(&store, String::from("u1")).is_none());
}
