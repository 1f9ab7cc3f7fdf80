use server::connections::ConnectionTracker;
use server::server_state::db_dir;
use server::worker::WorkerPool;
use server::{
    DatabaseSnapshot, DatabaseState, ErrorKind, PlanSource, QueryWindow, ServerState, ShutdownStep,
    Worker,
};

type State = ServerState<String, u32>;

fn id_of(name: &str) -> u64 {
    DatabaseState::<String>::get_database_id(name)
}

fn started() -> State {
    State::new("/var/lib/server".to_string(), Vec::new()).unwrap()
}

fn with_orders_and_client() -> State {
    let mut state = started();
    state.create_database("orders".to_string()).unwrap();
    state.connect_to_db("orders".to_string(), 7).unwrap();
    state
}

fn plan(text: &str) -> PlanSource<String> {
    PlanSource::Loaded(text.to_string())
}

#[test]
fn a_new_server_is_empty() {
    let state = started();
    assert_eq!(state.storage_path(), "/var/lib/server");
    assert_eq!(state.database_count(), 0);
    assert_eq!(state.worker_count(), 0);
    assert_eq!(state.connected_database(1), None);
    assert_eq!(db_dir(), "dbs");
}

#[test]
fn created_names_are_quoted_as_debug_does() {
    let mut state = started();
    assert_eq!(state.create_database("a\"b\\c".to_string()).unwrap(), "Created database \"a\\\"b\\\\c\"");
    assert_eq!(state.create_database("tab\there".to_string()).unwrap(), "Created database \"tab\\there\"");
    let err = state.create_database("a\"b\\c".to_string()).unwrap_err();
    assert_eq!(err.message, "database with name \"a\\\"b\\\\c\" already exists");
}

#[test]
fn each_create_adds_one_database() {
    let mut state = started();
    for (i, name) in ["a", "b", "c"].iter().enumerate() {
        assert!(state.create_database(name.to_string()).is_ok());
        assert_eq!(state.database_count(), i + 1);
        assert!(state.create_database(name.to_string()).is_err());
        assert_eq!(state.database_count(), i + 1);
    }
    assert_eq!(state.create_database("a".to_string()).unwrap_err().kind, ErrorKind::AlreadyExists);
}

#[test]
fn lookup_by_name_gives_the_identifier() {
    let mut state = started();
    state.create_database("orders".to_string()).unwrap();
    assert_eq!(state.get_db_id_from_db_name("orders").unwrap(), id_of("orders"));
    let err = state.get_db_id_from_db_name("users").unwrap_err();
    assert_eq!(err.kind, ErrorKind::NotFound);
    assert_eq!(state.database(id_of("orders")).unwrap().name(), "orders");
    assert!(state.database(id_of("users")).is_none());
}

#[test]
fn connect_attaches_and_close_detaches() {
    let mut state = started();
    state.create_database("orders".to_string()).unwrap();
    assert_eq!(state.connect_to_db("orders".to_string(), 7).unwrap(), "Connected to database \"orders\"");
    assert_eq!(state.connected_database(7), Some(id_of("orders")));
    assert!(state.database(id_of("orders")).unwrap().has_client(7));
    state.close_client_connection(7);
    assert_eq!(state.connected_database(7), None);
    assert!(!state.database(id_of("orders")).unwrap().has_client(7));
    state.close_client_connection(7);
    assert_eq!(state.connected_database(7), None);
    assert_eq!(state.database_count(), 1);
}

#[test]
fn a_second_connect_moves_the_client() {
    let mut state = started();
    state.create_database("orders".to_string()).unwrap();
    state.create_database("users".to_string()).unwrap();
    state.connect_to_db("orders".to_string(), 7).unwrap();
    state.connect_to_db("users".to_string(), 7).unwrap();
    state.connect_to_db("orders".to_string(), 8).unwrap();
    assert_eq!(state.connected_database(7), Some(id_of("users")));
    assert_eq!(state.connected_database(8), Some(id_of("orders")));
    state.close_client_connection(7);
    assert_eq!(state.connected_database(7), None);
    assert_eq!(state.connected_database(8), Some(id_of("orders")));
    assert!(!state.database(id_of("users")).unwrap().has_client(7));
}

#[test]
fn registration_needs_a_name() {
    let mut state = with_orders_and_client();
    for line in ["plan.json", "", "   "] {
        let err = state.register_query(line.to_string(), 7, plan("p")).unwrap_err();
        assert_eq!(err.kind, ErrorKind::InvalidArgument);
        assert_eq!(err.message, "Must give query a name");
    }
    let err = state
        .register_query("plan.json".to_string(), 99, PlanSource::OpenFailed("gone".to_string()))
        .unwrap_err();
    assert_eq!(err.kind, ErrorKind::InvalidArgument);
}

#[test]
fn registration_reports_a_file_that_cannot_be_opened() {
    let mut state = with_orders_and_client();
    let err = state
        .register_query(
            "dir/plan.json q1".to_string(),
            7,
            PlanSource::OpenFailed("No such file or directory (os error 2)".to_string()),
        )
        .unwrap_err();
    assert_eq!(err.kind, ErrorKind::IoFailure);
    assert_eq!(err.message, "Error opening file dir/plan.json: No such file or directory (os error 2)");
    assert!(!state.database(id_of("orders")).unwrap().is_registered("q1"));
}

#[test]
fn registration_reports_a_file_that_holds_no_plan() {
    let mut state = with_orders_and_client();
    let err = state
        .register_query(
            "plan.json q1".to_string(),
            7,
            PlanSource::Malformed("expected value at line 1 column 1".to_string()),
        )
        .unwrap_err();
    assert_eq!(err.kind, ErrorKind::SerializationFailure);
    assert_eq!(err.message, "expected value at line 1 column 1");
    assert!(!state.database(id_of("orders")).unwrap().is_registered("q1"));
}

#[test]
fn registration_takes_the_last_token_as_the_name() {
    let mut state = with_orders_and_client();
    assert_eq!(state.register_query("plan.json a b c".to_string(), 7, plan("p")).unwrap(), "Registered query");
    let db = state.database(id_of("orders")).unwrap();
    assert!(db.is_registered("c"));
    assert!(!db.is_registered("a"));
    assert!(!db.is_registered("b"));
}

#[test]
fn registration_refuses_a_name_twice() {
    let mut state = with_orders_and_client();
    state.register_query("one.json q1".to_string(), 7, plan("one")).unwrap();
    let err = state.register_query("two.json q1".to_string(), 7, plan("two")).unwrap_err();
    assert_eq!(err.kind, ErrorKind::AlreadyExists);
    assert_eq!(err.message, "Query \"q1\" is already registered");
    assert_eq!(*state.begin_query("q1", None, 1, 7).unwrap(), "one");
}

#[test]
fn queries_belong_to_the_database_of_the_client() {
    let mut state = with_orders_and_client();
    state.create_database("users".to_string()).unwrap();
    state.connect_to_db("users".to_string(), 8).unwrap();
    state.register_query("plan.json q1".to_string(), 7, plan("p")).unwrap();
    assert!(state.database(id_of("orders")).unwrap().is_registered("q1"));
    assert!(!state.database(id_of("users")).unwrap().is_registered("q1"));
    let err = state.begin_query("q1", None, 10, 8).unwrap_err();
    assert_eq!(err.kind, ErrorKind::StateTransition);
    assert_eq!(err.message, "Query \"q1\" has not been registered");
    assert!(state.begin_query("q1", None, 10, 7).is_ok());
}

#[test]
fn requests_of_a_client_without_connection_are_not_found() {
    let mut state = started();
    state.create_database("orders".to_string()).unwrap();
    let begin = state.begin_query("q1", None, 100, 7).unwrap_err();
    assert_eq!(begin.kind, ErrorKind::NotFound);
    assert_eq!(begin.message, "client is not connected to a database");
    let finish = state.finish_query("q1", 7).unwrap_err();
    assert_eq!(finish.kind, ErrorKind::NotFound);
    let clock = state.advance_clock(7, 5).unwrap_err();
    assert_eq!(clock.kind, ErrorKind::NotFound);
}

#[test]
fn begin_records_the_window() {
    let mut state = with_orders_and_client();
    state.register_query("plan.json q1".to_string(), 7, plan("p")).unwrap();
    state.advance_clock(7, 42).unwrap();
    state.begin_query("q1", None, 100, 7).unwrap();
    let id = id_of("orders");
    assert_eq!(state.database(id).unwrap().query_window("q1"), Some(QueryWindow { start: 42, end: 100 }));
    let again = state.begin_query("q1", Some(1), 2, 7).unwrap_err();
    assert_eq!(again.kind, ErrorKind::StateTransition);
    assert_eq!(again.message, "Query \"q1\" is already running");
    state.finish_query("q1", 7).unwrap();
    assert_eq!(state.database(id).unwrap().query_window("q1"), None);
    state.begin_query("q1", Some(7), 8, 7).unwrap();
    assert_eq!(state.database(id).unwrap().query_window("q1"), Some(QueryWindow { start: 7, end: 8 }));
}

#[test]
fn finish_succeeds_only_after_begin() {
    let mut state = with_orders_and_client();
    state.register_query("plan.json q1".to_string(), 7, plan("p")).unwrap();
    assert_eq!(state.finish_query("q1", 7).unwrap_err().kind, ErrorKind::StateTransition);
    for _ in 0..3 {
        assert!(state.begin_query("q1", None, 100, 7).is_ok());
        assert!(state.finish_query("q1", 7).is_ok());
        assert_eq!(state.finish_query("q1", 7).unwrap_err().kind, ErrorKind::StateTransition);
    }
}

#[test]
fn reset_empties_registry_and_tracker() {
    let mut state = with_orders_and_client();
    state.add_workers(vec![Worker { id: 0, thread: Some(1) }]);
    assert_eq!(state.reset_database().unwrap(), "Reset");
    assert_eq!(state.database_count(), 0);
    assert_eq!(state.connected_database(7), None);
    assert_eq!(state.worker_count(), 1);
    assert_eq!(state.storage_path(), "/var/lib/server");
    assert!(state.create_database("orders".to_string()).is_ok());
    assert!(!state.database(id_of("orders")).unwrap().has_client(7));
}

fn terminates(steps: &[ShutdownStep<u32>]) -> usize {
    steps.iter().filter(|s| matches!(s, ShutdownStep::SendTerminate)).count()
}

fn joined(steps: &[ShutdownStep<u32>]) -> Vec<(usize, u32)> {
    let mut threads = Vec::new();
    for step in steps {
        if let ShutdownStep::JoinWorker { id, thread } = step {
            threads.push((*id, *thread));
        }
    }
    threads
}

fn written(steps: &[ShutdownStep<u32>]) -> Vec<String> {
    let mut names = Vec::new();
    for step in steps {
        if let ShutdownStep::PersistDatabase { snapshot } = step {
            names.push(snapshot.name.clone());
        }
    }
    names
}

#[test]
fn shutdown_terminates_the_workers_added_since_the_last_one() {
    let mut state = started();
    state.add_workers(vec![Worker { id: 1, thread: Some(10) }]);
    state.add_workers(Vec::new());
    state.add_workers(vec![Worker { id: 2, thread: Some(20) }, Worker { id: 3, thread: Some(30) }]);
    let first = state.shutdown();
    assert_eq!(terminates(&first), 3);
    assert_eq!(joined(&first), vec![(1, 10), (2, 20), (3, 30)]);
    let second = state.shutdown();
    assert_eq!(terminates(&second), 0);
    assert!(joined(&second).is_empty());
    state.add_workers(vec![Worker { id: 4, thread: Some(40) }]);
    let third = state.shutdown();
    assert_eq!(terminates(&third), 1);
    assert_eq!(joined(&third), vec![(4, 40)]);
}

#[test]
fn shutdown_counts_a_worker_without_a_thread_and_joins_nothing_for_it() {
    let mut state = started();
    state.add_workers(vec![Worker { id: 1, thread: None }, Worker { id: 2, thread: Some(20) }]);
    let steps = state.shutdown();
    assert_eq!(terminates(&steps), 2);
    assert_eq!(joined(&steps), vec![(2, 20)]);
    assert_eq!(steps.len(), 5);
}

#[test]
fn shutdown_keeps_the_order_of_its_parts() {
    let mut state = started();
    state.create_database("a".to_string()).unwrap();
    state.create_database("b".to_string()).unwrap();
    state.add_workers(vec![Worker { id: 1, thread: Some(10) }, Worker { id: 2, thread: Some(20) }]);
    let steps = state.shutdown();
    let kinds: Vec<u8> = steps
        .iter()
        .map(|s| match s {
            ShutdownStep::SendTerminate => 0,
            ShutdownStep::JoinWorker { .. } => 1,
            ShutdownStep::EnsureDatabaseDir => 2,
            ShutdownStep::PersistDatabase { .. } => 3,
            ShutdownStep::ShutdownStorage => 4,
        })
        .collect();
    assert_eq!(kinds, vec![0, 0, 1, 1, 2, 3, 3, 4]);
    let mut names = written(&steps);
    names.sort();
    assert_eq!(names, vec!["a", "b"]);
    assert_eq!(state.database_count(), 2);
}

#[test]
fn restart_brings_the_databases_back() {
    let mut state = started();
    state.create_database("N".to_string()).unwrap();
    state.create_database("orders".to_string()).unwrap();
    state.connect_to_db("N".to_string(), 7).unwrap();
    let steps = state.shutdown();
    let loaded = written(&steps).into_iter().map(|name| Ok(DatabaseSnapshot { name })).collect();
    let restarted = State::new("/var/lib/server".to_string(), loaded).unwrap();
    assert_eq!(restarted.database_count(), 2);
    let db = restarted.database(id_of("N")).unwrap();
    assert_eq!(db.id(), id_of("N"));
    assert_eq!(db.name(), "N");
    assert_eq!(restarted.get_db_id_from_db_name("orders").unwrap(), id_of("orders"));
    assert_eq!(restarted.connected_database(7), None);
}

#[test]
fn tracker_maps_a_client_to_one_database() {
    let mut tracker = ConnectionTracker::new();
    assert_eq!(tracker.lookup(7), None);
    tracker.connect(7, 100);
    tracker.connect(8, 100);
    tracker.connect(7, 200);
    assert_eq!(tracker.len(), 2);
    assert_eq!(tracker.lookup(7), Some(200));
    assert_eq!(tracker.disconnect(7), Some(200));
    assert_eq!(tracker.disconnect(7), None);
    assert_eq!(tracker.lookup(8), Some(100));
    tracker.clear();
    assert_eq!(tracker.len(), 0);
}

#[test]
fn pool_hands_its_workers_back_in_order() {
    let mut pool = WorkerPool::<u32>::new();
    pool.add_workers(vec![Worker { id: 1, thread: Some(10) }]);
    pool.add_workers(vec![Worker { id: 2, thread: None }, Worker { id: 3, thread: Some(30) }]);
    assert_eq!(pool.len(), 3);
    let mut steps = vec![ShutdownStep::EnsureDatabaseDir];
    pool.shutdown(&mut steps);
    assert_eq!(pool.len(), 0);
    assert_eq!(steps.len(), 6);
    assert!(matches!(steps[0], ShutdownStep::EnsureDatabaseDir));
    assert_eq!(terminates(&steps[1..4]), 3);
    assert_eq!(joined(&steps[4..]), vec![(1, 10), (3, 30)]);
    pool.add_workers(vec![Worker { id: 4, thread: Some(40) }]);
    let released: Vec<usize> = pool.release().into_iter().map(|w| w.id).collect();
    assert_eq!(released, vec![4]);
}
