use vault_token_helper::store::schema_migration;
use vault_token_helper::store::Error;
use vault_token_helper::store::Store;

fn memory_store() -> Store {
    let mut conn = rusqlite::Connection::open_in_memory().expect("in-memory database opens");
    let (name, script) = schema_migration();
    let migration = refinery::Migration::unapplied(&name, &script).expect("migration name parses");
    refinery::Runner::new(&[migration])
        .run(&mut conn)
        .expect("schema is created");
    Store::with_conn(conn)
}

#[test]
fn store_twice_keeps_last() {
    let mut s = memory_store();
    s.store("https://vault", "t1").unwrap();
    s.store("https://vault", "t2").unwrap();
    assert_eq!(s.get("https://vault").unwrap(), Some("t2".to_string()));
}

#[test]
fn get_before_store_is_none() {
    let mut s = memory_store();
    assert_eq!(s.get("https://vault").unwrap(), None);
}

#[test]
fn erase_never_stored_succeeds() {
    let mut s = memory_store();
    assert!(s.erase("https://vault").is_ok());
    assert_eq!(s.get("https://vault").unwrap(), None);
}

#[test]
fn store_then_erase_is_none() {
    let mut s = memory_store();
    s.store("https://vault", "tok").unwrap();
    s.erase("https://vault").unwrap();
    assert_eq!(s.get("https://vault").unwrap(), None);
}

#[test]
fn erase_twice_is_noop() {
    let mut s = memory_store();
    s.store("https://vault", "tok").unwrap();
    s.erase("https://vault").unwrap();
    assert!(s.erase("https://vault").is_ok());
    assert_eq!(s.get("https://vault").unwrap(), None);
}

#[test]
fn distinct_addresses_kept_apart() {
    let mut s = memory_store();
    s.store("https://host", "t1").unwrap();
    s.store("https://host/", "t2").unwrap();
    assert_eq!(s.get("https://host").unwrap(), Some("t1".to_string()));
    assert_eq!(s.get("https://host/").unwrap(), Some("t2".to_string()));
}

#[test]
fn empty_token_is_stored() {
    let mut s = memory_store();
    s.store("https://vault", "").unwrap();
    assert_eq!(s.get("https://vault").unwrap(), Some(String::new()));
}

#[test]
fn missing_table_is_an_engine_error() {
    let conn = rusqlite::Connection::open_in_memory().expect("in-memory database opens");
    let mut s = Store::with_conn(conn);
    assert!(matches!(s.get("https://vault"), Err(Error::Rusqlite(_))));
    assert!(matches!(s.store("https://vault", "t"), Err(Error::Rusqlite(_))));
    assert!(matches!(s.erase("https://vault"), Err(Error::Rusqlite(_))));
}

#[test]
fn migration_is_named_and_creates_table() {
    let (name, script) = schema_migration();
    assert_eq!(name, "V1__create_vault_tokens");
    assert!(script.starts_with("CREATE TABLE vault_tokens ("));
    assert!(script.contains("vault_addr TEXT NOT NULL UNIQUE"));
}

#[test]
fn reopened_schema_is_not_created_twice() {
    let mut conn = rusqlite::Connection::open_in_memory().expect("in-memory database opens");
    let (name, script) = schema_migration();
    let migration = refinery::Migration::unapplied(&name, &script).expect("migration name parses");
    let runner = refinery::Runner::new(&[migration]);
    runner.run(&mut conn).expect("schema is created");
    runner.run(&mut conn).expect("applied migration is skipped");
    let mut s = Store::with_conn(conn);
    s.store("https://vault", "t").unwrap();
    assert_eq!(s.get("https://vault").unwrap(), Some("t".to_string()));
}
