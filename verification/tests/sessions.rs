use server::{DatabaseSnapshot, ErrorKind, PlanSource, ServerError, ServerState, ShutdownStep, Worker};

type State = ServerState<String, u32>;

fn empty() -> State {
    State::new("/tmp/storage".to_string(), Vec::new()).unwrap()
}

fn loaded_plan(text: &str) -> PlanSource<String> {
    PlanSource::Loaded(text.to_string())
}

#[test]
fn creating_a_database_twice_fails_the_second_time() {
    let mut state = empty();
    let message = state.create_database("orders".to_string()).unwrap();
    assert!(message.contains("orders"));
    assert_eq!(message, "Created database \"orders\"");
    let err = state.create_database("orders".to_string()).unwrap_err();
    assert_eq!(err.kind, ErrorKind::AlreadyExists);
    assert_eq!(err.message, "database with name \"orders\" already exists");
    assert_eq!(state.database_count(), 1);
}

#[test]
fn connecting_to_an_unknown_database_changes_nothing() {
    let mut state = empty();
    let err = state.connect_to_db("orders".to_string(), 7).unwrap_err();
    assert_eq!(err.kind, ErrorKind::NotFound);
    assert_eq!(err.message, "db_name not found!");
    assert_eq!(state.database_count(), 0);
    assert_eq!(state.connected_database(7), None);
}

#[test]
fn registering_without_a_connection_is_not_found() {
    let mut state = empty();
    state.create_database("orders".to_string()).unwrap();
    let err = state
        .register_query("plan.json orders_by_day".to_string(), 7, loaded_plan("{}"))
        .unwrap_err();
    assert_eq!(err.kind, ErrorKind::NotFound);
    assert_eq!(err.message, "client is not connected to a database");
}

#[test]
fn begin_then_finish_then_finish_again() {
    let mut state = empty();
    state.create_database("orders".to_string()).unwrap();
    state.connect_to_db("orders".to_string(), 7).unwrap();
    let answer = state.register_query("plan.json q1".to_string(), 7, loaded_plan("the plan")).unwrap();
    assert_eq!(answer, "Registered query");
    let handed = state.begin_query("q1", None, 100, 7).unwrap();
    assert_eq!(*handed, "the plan");
    assert!(state.finish_query("q1", 7).is_ok());
    let err = state.finish_query("q1", 7).unwrap_err();
    assert_eq!(err.kind, ErrorKind::StateTransition);
    assert_eq!(err.message, "Query \"q1\" is not running");
}

#[test]
fn two_workers_then_shutdown() {
    let mut state = empty();
    state.add_workers(vec![
        Worker { id: 1, thread: Some(11) },
        Worker { id: 2, thread: Some(22) },
    ]);
    assert_eq!(state.worker_count(), 2);
    let steps = state.shutdown();
    assert_eq!(steps.len(), 6);
    assert!(matches!(steps[0], ShutdownStep::SendTerminate));
    assert!(matches!(steps[1], ShutdownStep::SendTerminate));
    assert!(matches!(steps[2], ShutdownStep::JoinWorker { id: 1, thread: 11 }));
    assert!(matches!(steps[3], ShutdownStep::JoinWorker { id: 2, thread: 22 }));
    assert!(matches!(steps[4], ShutdownStep::EnsureDatabaseDir));
    assert!(matches!(steps[5], ShutdownStep::ShutdownStorage));
    assert_eq!(state.worker_count(), 0);
}

#[test]
fn startup_fails_with_the_first_failed_load() {
    let loaded = vec![
        Ok(DatabaseSnapshot { name: "a".to_string() }),
        Err(ServerError { kind: ErrorKind::IoFailure, message: "first".to_string() }),
        Err(ServerError { kind: ErrorKind::SerializationFailure, message: "second".to_string() }),
    ];
    let err = match State::new("/tmp/storage".to_string(), loaded) {
        Ok(_) => panic!("the start should fail"),
        Err(e) => e,
    };
    assert_eq!(err.kind, ErrorKind::IoFailure);
    assert_eq!(err.message, "first");
}
