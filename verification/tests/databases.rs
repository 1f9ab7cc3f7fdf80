use server::query_registrar::QueryRegistrar;
use server::registry::DatabaseRegistry;
use server::{DatabaseSnapshot, DatabaseState, ErrorKind, QueryWindow, ServerError};
use std::collections::hash_map::DefaultHasher;
use std::hash::Hasher;
use std::sync::Arc;

type Db = DatabaseState<String>;

fn hashed(name: &str) -> u64 {
    let mut hasher = DefaultHasher::new();
    hasher.write(name.as_bytes());
    hasher.finish()
}

#[test]
fn identifier_is_the_hash_of_the_name() {
    assert_eq!(Db::get_database_id("orders"), hashed("orders"));
    assert_eq!(Db::get_database_id(""), hashed(""));
    assert_eq!(Db::get_database_id("caf\u{e9}"), hashed("caf\u{e9}"));
}

#[test]
fn identifier_depends_on_the_name_alone() {
    assert_eq!(Db::get_database_id("orders"), Db::get_database_id("orders"));
    assert_ne!(Db::get_database_id("orders"), Db::get_database_id("Orders"));
    assert_ne!(Db::get_database_id("a"), Db::get_database_id("b"));
}

#[test]
fn new_database_is_empty() {
    let db = Db::new_from_name("orders");
    assert_eq!(db.id(), hashed("orders"));
    assert_eq!(db.name(), "orders");
    assert_eq!(db.clock(), 0);
    assert!(!db.has_client(1));
    assert!(!db.is_registered("q"));
}

#[test]
fn loaded_database_has_the_name_and_identifier_of_the_snapshot() {
    let db = Db::load(DatabaseSnapshot { name: "N".to_string() });
    assert_eq!(db.name(), "N");
    assert_eq!(db.id(), hashed("N"));
    assert_eq!(db.snapshot().name, "N");
}

#[test]
fn clients_come_and_go() {
    let mut db = Db::new_from_name("orders");
    db.register_new_client_connection(7);
    db.register_new_client_connection(8);
    assert!(db.has_client(7) && db.has_client(8));
    db.close_client_connection(7);
    assert!(!db.has_client(7) && db.has_client(8));
    db.close_client_connection(7);
    assert!(!db.has_client(7));
}

#[test]
fn clock_only_moves_forward() {
    let mut db = Db::new_from_name("orders");
    db.advance_clock(10);
    assert_eq!(db.clock(), 10);
    db.advance_clock(4);
    assert_eq!(db.clock(), 10);
    db.advance_clock(11);
    assert_eq!(db.clock(), 11);
}

#[test]
fn window_starts_at_the_clock_without_a_start() {
    let mut db = Db::new_from_name("orders");
    db.register_query("q".to_string(), "p.json".to_string(), Arc::new("plan".to_string())).unwrap();
    db.advance_clock(42);
    db.begin_query("q", None, 100).unwrap();
    assert_eq!(db.query_window("q"), Some(QueryWindow { start: 42, end: 100 }));
    db.finish_query("q").unwrap();
    assert_eq!(db.query_window("q"), None);
    db.begin_query("q", Some(5), 6).unwrap();
    assert_eq!(db.query_window("q"), Some(QueryWindow { start: 5, end: 6 }));
}

#[test]
fn reset_takes_a_database_back_to_new() {
    let mut db = Db::new_from_name("orders");
    db.register_new_client_connection(7);
    db.advance_clock(9);
    db.register_query("q".to_string(), "p".to_string(), Arc::new("plan".to_string())).unwrap();
    db.reset();
    assert_eq!(db.name(), "orders");
    assert_eq!(db.id(), hashed("orders"));
    assert_eq!(db.clock(), 0);
    assert!(!db.has_client(7));
    assert!(!db.is_registered("q"));
}

fn expect_error(err: ServerError, kind: ErrorKind, message: &str) {
    assert_eq!(err.kind, kind);
    assert_eq!(err.message, message);
    assert_eq!(err.to_string(), message);
}

#[test]
fn registrar_refuses_an_empty_name() {
    let mut queries = QueryRegistrar::<String>::new();
    let err = queries.register(String::new(), "p".to_string(), Arc::new("x".to_string())).unwrap_err();
    expect_error(err, ErrorKind::InvalidArgument, "Must give query a name");
    assert_eq!(queries.len(), 0);
}

#[test]
fn registrar_refuses_a_name_twice() {
    let mut queries = QueryRegistrar::<String>::new();
    queries.register("q".to_string(), "one.json".to_string(), Arc::new("one".to_string())).unwrap();
    let err = queries.register("q".to_string(), "two.json".to_string(), Arc::new("two".to_string())).unwrap_err();
    expect_error(err, ErrorKind::AlreadyExists, "Query \"q\" is already registered");
    assert_eq!(queries.len(), 1);
    assert_eq!(*queries.begin("q", None, 1, 0).unwrap(), "one");
}

#[test]
fn registrar_follows_the_life_cycle() {
    let mut queries = QueryRegistrar::<String>::new();
    expect_error(
        queries.begin("q", None, 1, 0).unwrap_err(),
        ErrorKind::StateTransition,
        "Query \"q\" has not been registered",
    );
    expect_error(
        queries.finish("q").unwrap_err(),
        ErrorKind::StateTransition,
        "Query \"q\" has not been registered",
    );
    queries.register("q".to_string(), "p".to_string(), Arc::new("plan".to_string())).unwrap();
    assert!(queries.is_registered("q"));
    expect_error(queries.finish("q").unwrap_err(), ErrorKind::StateTransition, "Query \"q\" is not running");
    assert_eq!(*queries.begin("q", Some(3), 9, 100).unwrap(), "plan");
    assert_eq!(queries.window("q"), Some(QueryWindow { start: 3, end: 9 }));
    expect_error(
        queries.begin("q", None, 10, 0).unwrap_err(),
        ErrorKind::StateTransition,
        "Query \"q\" is already running",
    );
    assert_eq!(queries.window("q"), Some(QueryWindow { start: 3, end: 9 }));
    queries.finish("q").unwrap();
    assert_eq!(queries.window("q"), None);
    assert!(queries.is_registered("q"));
    queries.clear();
    assert!(!queries.is_registered("q"));
    assert_eq!(queries.len(), 0);
}

#[test]
fn registrar_keeps_queries_apart() {
    let mut queries = QueryRegistrar::<String>::new();
    queries.register("a".to_string(), "pa".to_string(), Arc::new("plan a".to_string())).unwrap();
    queries.register("b".to_string(), "pb".to_string(), Arc::new("plan b".to_string())).unwrap();
    assert_eq!(*queries.begin("b", None, 8, 2).unwrap(), "plan b");
    assert_eq!(queries.window("a"), None);
    assert_eq!(queries.window("b"), Some(QueryWindow { start: 2, end: 8 }));
    assert_eq!(*queries.begin("a", Some(1), 2, 0).unwrap(), "plan a");
    queries.finish("b").unwrap();
    assert_eq!(queries.window("a"), Some(QueryWindow { start: 1, end: 2 }));
    assert_eq!(queries.window("b"), None);
}

#[test]
fn registry_creates_each_name_once() {
    let mut registry = DatabaseRegistry::<String>::new();
    assert_eq!(registry.create("orders").unwrap(), hashed("orders"));
    assert_eq!(registry.len(), 1);
    assert!(registry.contains(hashed("orders")));
    expect_error(
        registry.create("orders").unwrap_err(),
        ErrorKind::AlreadyExists,
        "database with name \"orders\" already exists",
    );
    assert_eq!(registry.len(), 1);
    assert_eq!(registry.create("users").unwrap(), hashed("users"));
    assert_eq!(registry.len(), 2);
}

#[test]
fn registry_finds_a_database_by_its_name() {
    let mut registry = DatabaseRegistry::<String>::new();
    registry.create("orders").unwrap();
    registry.create("users").unwrap();
    assert_eq!(registry.lookup_by_name("users").unwrap(), hashed("users"));
    assert_eq!(registry.lookup_by_name("orders").unwrap(), hashed("orders"));
    expect_error(registry.lookup_by_name("nobody").unwrap_err(), ErrorKind::NotFound, "db_name not found!");
    assert_eq!(registry.get(hashed("users")).unwrap().name(), "users");
    assert!(registry.get(hashed("nobody")).is_none());
}

#[test]
fn registry_takes_and_puts() {
    let mut registry = DatabaseRegistry::<String>::new();
    registry.create("orders").unwrap();
    let mut db = registry.take(hashed("orders")).unwrap();
    assert_eq!(registry.len(), 0);
    assert!(registry.take(hashed("orders")).is_none());
    db.advance_clock(3);
    registry.put(db);
    assert_eq!(registry.get(hashed("orders")).unwrap().clock(), 3);
}

#[test]
fn registry_persists_each_database_once() {
    let mut registry = DatabaseRegistry::<String>::new();
    for name in ["a", "b", "c", "d"] {
        registry.create(name).unwrap();
    }
    let mut names: Vec<String> = registry.persist_all().into_iter().map(|s| s.name).collect();
    names.sort();
    assert_eq!(names, vec!["a", "b", "c", "d"]);
    registry.reset();
    assert_eq!(registry.len(), 0);
    assert!(registry.persist_all().is_empty());
}

#[test]
fn registry_loads_what_was_persisted() {
    let loaded = vec![
        Ok(DatabaseSnapshot { name: "a".to_string() }),
        Ok(DatabaseSnapshot { name: "b".to_string() }),
        Ok(DatabaseSnapshot { name: "a".to_string() }),
    ];
    let registry = DatabaseRegistry::<String>::load_all(loaded).unwrap();
    assert_eq!(registry.len(), 2);
    assert_eq!(registry.lookup_by_name("a").unwrap(), hashed("a"));
    assert_eq!(registry.lookup_by_name("b").unwrap(), hashed("b"));
}

#[test]
fn registry_load_fails_as_a_whole() {
    let loaded = vec![
        Ok(DatabaseSnapshot { name: "a".to_string() }),
        Err(ServerError { kind: ErrorKind::SerializationFailure, message: "bad file".to_string() }),
        Ok(DatabaseSnapshot { name: "b".to_string() }),
    ];
    match DatabaseRegistry::<String>::load_all(loaded) {
        Ok(_) => panic!("the load should fail"),
        Err(e) => expect_error(e, ErrorKind::SerializationFailure, "bad file"),
    }
}
