use rusty_psql::Vault;
use rusty_psql::VaultBuilder;
use rusty_psql::VaultError;
use rusty_psql::VaultStorage;

/// Drives a construction against a stub vault given as `(key, value)` pairs;
/// a key the stub does not hold simulates a failed fetch.
fn build_with_stub(keys: Vec<&str>, stub: Vec<(&str, &str)>) -> Result<Vault, VaultError> {
    let mut builder = VaultBuilder::new(keys.iter().map(|k| k.to_string()).collect());
    while let Some(key) = builder.next_key() {
        match stub.iter().find(|(k, _)| *k == key.as_str()) {
            Some((_, value)) => {
                assert!(builder.resolve(value.to_string()));
            }
            None => break,
        }
    }
    builder.finish()
}

#[test]
fn scenario_two_keys_resolve_and_lookup_matches() {
    let store = build_with_stub(
        vec!["db-host", "db-user"],
        vec![("db-host", "myhost"), ("db-user", "myuser")],
    )
    .expect("construction must succeed when every key resolves");
    assert_eq!(store.get_required("db-host").unwrap(), "myhost");
    assert_eq!(store.get_required("db-user").unwrap(), "myuser");
}

#[test]
fn scenario_missing_key_error_names_the_key() {
    let store = build_with_stub(
        vec!["db-host", "db-user"],
        vec![("db-host", "myhost"), ("db-user", "myuser")],
    )
    .expect("construction must succeed when every key resolves");
    match store.get_required("db-port") {
        Err(VaultError::MissingKey(k)) => assert_eq!(k, "db-port"),
        other => panic!("expected a missing-key error, got {:?}", other),
    }
}

#[test]
fn scenario_fetch_failure_aborts_construction() {
    let result = build_with_stub(vec!["db-host"], vec![]);
    match result {
        Err(VaultError::SecretFetch(k)) => assert_eq!(k, "db-host"),
        Err(other) => panic!("expected a fetch error naming db-host, got {:?}", other),
        Ok(_) => panic!("expected a fetch error naming db-host, got a store"),
    }
}

#[test]
fn fetch_failure_in_the_middle_names_the_failed_key() {
    let result = build_with_stub(
        vec!["db-host", "db-user", "db-name"],
        vec![("db-host", "myhost"), ("db-name", "mydb")],
    );
    match result {
        Err(VaultError::SecretFetch(k)) => assert_eq!(k, "db-user"),
        Err(other) => panic!("expected a fetch error naming db-user, got {:?}", other),
        Ok(_) => panic!("expected a fetch error naming db-user, got a store"),
    }
}

#[test]
fn empty_key_list_builds_a_store_where_every_lookup_fails() {
    let store = build_with_stub(vec![], vec![])
        .expect("construction over an empty key list must succeed");
    for key in ["db-host", "", "anything"] {
        match store.get_required(key) {
            Err(VaultError::MissingKey(k)) => assert_eq!(k, key),
            other => panic!("expected a missing-key error, got {:?}", other),
        }
    }
}

#[test]
fn duplicate_keys_collapse_to_the_last_value() {
    let store = Vault::new(vec![
        ("db-host".to_string(), "first".to_string()),
        ("db-user".to_string(), "myuser".to_string()),
        ("db-host".to_string(), "second".to_string()),
    ]);
    assert_eq!(store.get_required("db-host").unwrap(), "second");
    assert_eq!(store.get_required("db-user").unwrap(), "myuser");
}

#[test]
fn every_resolved_key_looks_up_to_its_stub_value() {
    let stub = vec![("a", "1"), ("b", "2"), ("c", "3")];
    let store = build_with_stub(vec!["a", "b", "c"], stub.clone())
        .expect("construction must succeed when every key resolves");
    for (key, value) in stub {
        assert_eq!(store.get_required(key).unwrap(), value);
    }
}

#[test]
fn next_key_hands_keys_out_in_input_order() {
    let mut builder = VaultBuilder::new(vec!["one".to_string(), "two".to_string()]);
    assert_eq!(builder.next_key().unwrap(), "one");
    assert!(builder.resolve("v1".to_string()));
    assert_eq!(builder.next_key().unwrap(), "two");
    assert!(builder.resolve("v2".to_string()));
    assert!(builder.next_key().is_none());
}

#[test]
fn resolve_after_completion_is_rejected() {
    let mut builder = VaultBuilder::new(vec!["only".to_string()]);
    assert!(builder.resolve("value".to_string()));
    assert!(!builder.resolve("extra".to_string()));
    let store = builder.finish().expect("construction must succeed");
    assert_eq!(store.get_required("only").unwrap(), "value");
    match store.get_required("extra") {
        Err(VaultError::MissingKey(k)) => assert_eq!(k, "extra"),
        other => panic!("expected a missing-key error, got {:?}", other),
    }
}

#[test]
fn store_built_from_no_pairs_holds_nothing() {
    let store = Vault::new(vec![]);
    match store.get_required("db-host") {
        Err(VaultError::MissingKey(k)) => assert_eq!(k, "db-host"),
        other => panic!("expected a missing-key error, got {:?}", other),
    }
}

#[test]
fn empty_key_name_is_an_ordinary_key() {
    let store = Vault::new(vec![("".to_string(), "blank".to_string())]);
    assert_eq!(store.get_required("").unwrap(), "blank");
}
