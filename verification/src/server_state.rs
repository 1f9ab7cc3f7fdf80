//! The coordinator: the one authority over the live databases, the client
//! connections and the workers of a server.
use vstd::prelude::*;
use vstd::string::StringExecFns;
use std::sync::Arc;
use crate::connections::ConnectionTracker;
use crate::database_state::{derive_id, DatabaseModel, DatabaseSnapshot, DatabaseState};
use crate::error::{ErrorKind, ErrorModel, ServerError};
use crate::query_registrar::{
    after_begin, after_finish, after_register, begin_refusal, finish_refusal, not_running,
    register_refusal, resolved_window, unnamed_query, LogicalTimeStamp, QueryWindow,
};
use crate::registry::{
    after_create, create_refusal, fails_first_at, has_name, law_create_grows_by_one, loaded_name,
    loaded_registry, name_not_found, persists, registry_wf, snapshot_names, DatabaseMap,
    DatabaseRegistry, LoadResult,
};
use crate::shutdown::{
    persist_steps, pool_steps, shutdown_steps, step_models, ShutdownStep, StepModel,
};
use crate::text::{debug_quoted, join2, join3, name_of, path_of, quote};
use crate::worker::{Worker, WorkerPool};

verus! {

/// What came of reading the plan file that a registration names.
#[derive(Debug)]
pub enum PlanSource<P> {
    /// The file was read and held this plan.
    Loaded(P),
    /// The file could not be opened; the text says why.
    OpenFailed(String),
    /// The file was read and holds no plan; the text says why.
    Malformed(String),
}

/// The state of a server, apart from how it is stored.
pub struct ServerModel<P, H> {
    pub storage_path: Seq<char>,
    pub databases: DatabaseMap<P>,
    /// Client identifier to database identifier.
    pub connections: Map<u64, u64>,
    pub workers: Seq<Worker<H>>,
}

/// What holds of every server: its registry is in order, and each connected
/// client is attached to a database that is registered and that knows it.
pub open spec fn server_wf<P, H>(m: ServerModel<P, H>) -> bool {
    &&& registry_wf(m.databases)
    &&& forall|client_id: u64| #[trigger]
        m.connections.contains_key(client_id) ==> m.databases.contains_key(
            m.connections[client_id],
        ) && m.databases[m.connections[client_id]].clients.contains(client_id)
}

/// The server with `db` in place of the database of that identifier.
pub open spec fn with_database<P, H>(m: ServerModel<P, H>, db: DatabaseModel<P>) -> ServerModel<
    P,
    H,
> {
    ServerModel { databases: m.databases.insert(db.id, db), ..m }
}

/// The database that `client_id` is attached to; arbitrary for a client
/// that is not connected.
pub open spec fn client_database<P, H>(m: ServerModel<P, H>, client_id: u64) -> DatabaseModel<P> {
    m.databases[m.connections[client_id]]
}

/// The server once `client_id` has been attached to the database `db_id`.
pub open spec fn after_connect<P, H>(m: ServerModel<P, H>, db_id: u64, client_id: u64) -> ServerModel<
    P,
    H,
> {
    ServerModel {
        databases: m.databases.insert(
            db_id,
            DatabaseModel {
                clients: m.databases[db_id].clients.insert(client_id),
                ..m.databases[db_id]
            },
        ),
        connections: m.connections.insert(client_id, db_id),
        ..m
    }
}

/// The server once `client_id` has closed its connection: the database it
/// was attached to has been told, and the tracker has no entry for it.
pub open spec fn after_close<P, H>(m: ServerModel<P, H>, client_id: u64) -> ServerModel<P, H> {
    if m.connections.contains_key(client_id) {
        let db = client_database(m, client_id);
        ServerModel {
            databases: m.databases.insert(
                db.id,
                DatabaseModel { clients: db.clients.remove(client_id), ..db },
            ),
            connections: m.connections.remove(client_id),
            ..m
        }
    } else {
        m
    }
}

/// The error for a client that is attached to no database.
pub open spec fn not_connected() -> ErrorModel {
    ErrorModel { kind: ErrorKind::NotFound, message: "client is not connected to a database"@ }
}

/// The error for a plan file that could not be opened.
pub open spec fn open_failed(path: Seq<char>, reason: Seq<char>) -> ErrorModel {
    ErrorModel {
        kind: ErrorKind::IoFailure,
        message: "Error opening file "@ + path + ": "@ + reason,
    }
}

/// The error for a plan file that holds no plan.
pub open spec fn malformed_plan(reason: Seq<char>) -> ErrorModel {
    ErrorModel { kind: ErrorKind::SerializationFailure, message: reason }
}

/// Why a client cannot be attached to the database called `name`, if it
/// cannot.
pub open spec fn connect_refusal<P, H>(m: ServerModel<P, H>, name: Seq<char>) -> Option<ErrorModel> {
    if has_name(m.databases, name) {
        None
    } else {
        Some(name_not_found())
    }
}

/// Why a request of `client_id` is refused, if it is, where its database
/// would refuse it with `by_database`: a client that is not connected is
/// refused before any database is asked.
pub open spec fn client_refusal<P, H>(
    m: ServerModel<P, H>,
    client_id: u64,
    by_database: Option<ErrorModel>,
) -> Option<ErrorModel> {
    if m.connections.contains_key(client_id) {
        by_database
    } else {
        Some(not_connected())
    }
}

/// Why the registration `line` by `client_id` is refused, if it is. What
/// can be wrong is looked at in this order: the name, the plan file, the
/// connection, the database's own rules.
pub open spec fn registration_refusal<P, H>(
    m: ServerModel<P, H>,
    line: Seq<char>,
    client_id: u64,
    plan: PlanSource<P>,
) -> Option<ErrorModel> {
    if name_of(line).len() == 0 {
        Some(unnamed_query())
    } else {
        match plan {
            PlanSource::OpenFailed(reason) => Some(open_failed(path_of(line), reason@)),
            PlanSource::Malformed(reason) => Some(malformed_plan(reason@)),
            PlanSource::Loaded(_) => client_refusal(
                m,
                client_id,
                register_refusal(client_database(m, client_id).queries, name_of(line)),
            ),
        }
    }
}

/// The server once `client_id` has registered `plan` by `line`.
pub open spec fn after_registration<P, H>(
    m: ServerModel<P, H>,
    line: Seq<char>,
    client_id: u64,
    plan: P,
) -> ServerModel<P, H> {
    let db = client_database(m, client_id);
    with_database(
        m,
        DatabaseModel {
            queries: after_register(db.queries, name_of(line), path_of(line), plan),
            ..db
        },
    )
}

/// The server once `client_id` has begun the query `name` inside `window`.
pub open spec fn after_begin_query<P, H>(
    m: ServerModel<P, H>,
    name: Seq<char>,
    window: QueryWindow,
    client_id: u64,
) -> ServerModel<P, H> {
    let db = client_database(m, client_id);
    with_database(m, DatabaseModel { queries: after_begin(db.queries, name, window), ..db })
}

/// The server once `client_id` has finished the query `name`.
pub open spec fn after_finish_query<P, H>(
    m: ServerModel<P, H>,
    name: Seq<char>,
    client_id: u64,
) -> ServerModel<P, H> {
    let db = client_database(m, client_id);
    with_database(m, DatabaseModel { queries: after_finish(db.queries, name), ..db })
}

/// The server once it has been reset: no database, no connection; the
/// workers stay.
pub open spec fn after_reset<P, H>(m: ServerModel<P, H>) -> ServerModel<P, H> {
    ServerModel { databases: Map::empty(), connections: Map::empty(), ..m }
}

/// The answer to a database that was created.
pub open spec fn created_message(name: Seq<char>) -> Seq<char> {
    "Created database "@ + debug_quoted(name)
}

/// The answer to a client that was connected.
pub open spec fn connected_message(name: Seq<char>) -> Seq<char> {
    "Connected to database "@ + debug_quoted(name)
}

/// The name of the directory, under the storage path, that holds one file
/// for each database.
pub fn db_dir() -> (name: &'static str)
    ensures
        name@ == "dbs"@,
{
    "dbs"
}

/// The state of the server.
pub struct ServerState<P, H> {
    storage_path: String,
    databases: DatabaseRegistry<P>,
    connections: ConnectionTracker,
    pool: WorkerPool<H>,
}

impl<P, H> ServerState<P, H> {
    /// The server, apart from how it is stored.
    pub closed spec fn view(&self) -> ServerModel<P, H> {
        ServerModel {
            storage_path: self.storage_path@,
            databases: self.databases@,
            connections: self.connections@,
            workers: self.pool@,
        }
    }

    /// What holds of the representation.
    pub closed spec fn inv(&self) -> bool {
        self.databases.wf()
    }

    /// The server is in order.
    pub open spec fn wf(&self) -> bool {
        self.inv() && server_wf(self@)
    }

    /// The server as it starts on `storage_path`, with the databases that
    /// were persisted there: `loaded` holds what came of loading each of
    /// their files. No client is connected and there is no worker. One load
    /// that failed fails the start, with the error of the first such load.
    pub fn new(storage_path: String, loaded: Vec<LoadResult>) -> (r: Result<Self, ServerError>)
        ensures
            match r {
                Ok(state) => state.wf() && (forall|i: int|
                    0 <= i < loaded@.len() ==> loaded@[i] is Ok) && state@ == (ServerModel::<P, H> {
                    storage_path: storage_path@,
                    databases: loaded_registry::<P>(
                        loaded@.map_values(|l: LoadResult| loaded_name(l)),
                    ),
                    connections: Map::empty(),
                    workers: Seq::empty(),
                }),
                Err(e) => exists|i: int|
                    fails_first_at(loaded@, i) && loaded@[i] == Err::<DatabaseSnapshot, ServerError>(
                        e,
                    ),
            },
    {
        let databases = match DatabaseRegistry::load_all(loaded) {
            Ok(databases) => databases,
            Err(e) => {
                return Err(e);
            },
        };
        Ok(
            ServerState {
                storage_path,
                databases,
                connections: ConnectionTracker::new(),
                pool: WorkerPool::new(),
            },
        )
    }

    /// The path under which the server keeps its files.
    pub fn storage_path(&self) -> (path: &str)
        ensures
            path@ == self@.storage_path,
    {
        self.storage_path.as_str()
    }

    /// The number of live databases.
    pub fn database_count(&self) -> (n: usize)
        requires
            self.wf(),
        ensures
            n == self@.databases.len(),
    {
        self.databases.len()
    }

    /// The number of workers in the pool.
    pub fn worker_count(&self) -> (n: usize)
        ensures
            n == self@.workers.len(),
    {
        self.pool.len()
    }

    /// The database under `db_id`.
    pub fn database(&self, db_id: u64) -> (db: Option<&DatabaseState<P>>)
        requires
            self.wf(),
        ensures
            match db {
                Some(db) => self@.databases.contains_key(db_id) && db@ == self@.databases[db_id]
                    && db.wf(),
                None => !self@.databases.contains_key(db_id),
            },
    {
        self.databases.get(db_id)
    }

    /// The database that the client `client_id` is attached to.
    pub fn connected_database(&self, client_id: u64) -> (db_id: Option<u64>)
        ensures
            db_id == if self@.connections.contains_key(client_id) {
                Some(self@.connections[client_id])
            } else {
                None
            },
    {
        self.connections.lookup(client_id)
    }

    /// The identifier of the database called `db_name`.
    pub fn get_db_id_from_db_name(&self, db_name: &str) -> (r: Result<u64, ServerError>)
        requires
            self.wf(),
        ensures
            match r {
                Ok(id) => self@.databases.contains_key(id) && self@.databases[id].name == db_name@
                    && id == derive_id(db_name@),
                Err(e) => !has_name(self@.databases, db_name@) && e@ == name_not_found(),
            },
    {
        self.databases.lookup_by_name(db_name)
    }

    /// Takes `new_workers` into the pool.
    pub fn add_workers(&mut self, new_workers: Vec<Worker<H>>)
        requires
            old(self).wf(),
        ensures
            final(self).wf(),
            final(self)@ == (ServerModel {
                workers: old(self)@.workers + new_workers@,
                ..old(self)@
            }),
    {
        self.pool.add_workers(new_workers);
    }

    /// Creates a new database called `name`.
    pub fn create_database(&mut self, name: String) -> (r: Result<String, ServerError>)
        requires
            old(self).wf(),
        ensures
            final(self).wf(),
            match r {
                Ok(message) => create_refusal(old(self)@.databases, name@) is None && final(self)@
                    == (ServerModel {
                    databases: after_create(old(self)@.databases, name@),
                    ..old(self)@
                }) && message@ == created_message(name@) && final(self)@.databases.len() == old(
                    self,
                )@.databases.len() + 1,
                Err(e) => create_refusal(old(self)@.databases, name@) == Some(e@) && final(self)@
                    == old(self)@,
            },
    {
        proof {
            if create_refusal(self@.databases, name@) is None {
                law_create_grows_by_one(self@.databases, name@);
            }
        }
        match self.databases.create(name.as_str()) {
            Ok(_) => {
                let quoted = quote(name.as_str());
                Ok(join2("Created database ", quoted.as_str()))
            },
            Err(e) => Err(e),
        }
    }

    /// Attaches the client `client_id` to the database called `db_name`. A
    /// client that was attached elsewhere is attached here from now on.
    pub fn connect_to_db(&mut self, db_name: String, client_id: u64) -> (r: Result<
        String,
        ServerError,
    >)
        requires
            old(self).wf(),
        ensures
            final(self).wf(),
            match r {
                Ok(message) => connect_refusal(old(self)@, db_name@) is None && final(self)@
                    == after_connect(old(self)@, derive_id(db_name@), client_id) && message@
                    == connected_message(db_name@),
                Err(e) => connect_refusal(old(self)@, db_name@) == Some(e@) && final(self)@ == old(
                    self,
                )@,
            },
    {
        let db_id = match self.get_db_id_from_db_name(db_name.as_str()) {
            Ok(db_id) => db_id,
            Err(e) => {
                return Err(e);
            },
        };
        let mut db = match self.databases.take(db_id) {
            Some(db) => db,
            None => {
                return Err(ServerError::of(ErrorKind::NotFound, "db_name not found!"));
            },
        };
        self.connections.connect(client_id, db_id);
        db.register_new_client_connection(client_id);
        self.databases.put(db);
        proof {
            assert(self@.databases =~= after_connect(old(self)@, db_id, client_id).databases);
        }
        let quoted = quote(db_name.as_str());
        Ok(join2("Connected to database ", quoted.as_str()))
    }

    /// Closes the connection of the client `client_id`: tells the database
    /// it was attached to, then forgets the client. A client that is not
    /// connected is left so.
    pub fn close_client_connection(&mut self, client_id: u64)
        requires
            old(self).wf(),
        ensures
            final(self).wf(),
            final(self)@ == after_close(old(self)@, client_id),
    {
        match self.connections.lookup(client_id) {
            Some(db_id) => {
                match self.databases.take(db_id) {
                    Some(db) => {
                        let mut db = db;
                        db.close_client_connection(client_id);
                        self.databases.put(db);
                    },
                    None => {},
                }
            },
            None => {},
        }
        self.connections.disconnect(client_id);
        proof {
            assert(self@.databases =~= after_close(old(self)@, client_id).databases);
            assert(self@.connections =~= after_close(old(self)@, client_id).connections);
        }
    }

    /// The path of the plan file that the registration line
    /// `name_and_plan_path` names, for the caller to read before it
    /// registers the query. A line that gives no name is refused here, before
    /// any file is touched.
    pub fn plan_path(name_and_plan_path: &str) -> (r: Result<&str, ServerError>)
        ensures
            match r {
                Ok(path) => name_of(name_and_plan_path@).len() > 0 && path@ == path_of(
                    name_and_plan_path@,
                ),
                Err(e) => name_of(name_and_plan_path@).len() == 0 && e@ == unnamed_query(),
            },
    {
        let (query_name, json_path) = Self::parse_name_and_path(name_and_plan_path);
        if query_name.is_empty() {
            return Err(ServerError::of(ErrorKind::InvalidArgument, "Must give query a name"));
        }
        Ok(json_path)
    }

    /// Registers a query for the client `client_id`. The line
    /// `name_and_plan_path` has the form `<path> <name>`; `plan` is what
    /// came of reading the file at that path. The query is registered with
    /// the database that the client is attached to.
    pub fn register_query(
        &mut self,
        name_and_plan_path: String,
        client_id: u64,
        plan: PlanSource<P>,
    ) -> (r: Result<String, ServerError>)
        requires
            old(self).wf(),
        ensures
            final(self).wf(),
            match r {
                Ok(message) => registration_refusal(old(self)@, name_and_plan_path@, client_id, plan)
                    is None && plan is Loaded && final(self)@ == after_registration(
                    old(self)@,
                    name_and_plan_path@,
                    client_id,
                    plan->Loaded_0,
                ) && message@ == "Registered query"@,
                Err(e) => registration_refusal(old(self)@, name_and_plan_path@, client_id, plan)
                    == Some(e@) && final(self)@ == old(self)@,
            },
    {
        let (query_name, json_path) = Self::parse_name_and_path(name_and_plan_path.as_str());
        if query_name.is_empty() {
            return Err(ServerError::of(ErrorKind::InvalidArgument, "Must give query a name"));
        }
        let plan = match plan {
            PlanSource::Loaded(plan) => plan,
            PlanSource::OpenFailed(reason) => {
                let mut message = join3("Error opening file ", json_path, ": ");
                message.append(reason.as_str());
                return Err(ServerError::new(ErrorKind::IoFailure, message));
            },
            PlanSource::Malformed(reason) => {
                return Err(ServerError::new(ErrorKind::SerializationFailure, reason));
            },
        };
        let mut db = match self.take_client_database(client_id) {
            Ok(db) => db,
            Err(e) => {
                return Err(e);
            },
        };
        let registered = db.register_query(
            query_name.to_owned(),
            json_path.to_owned(),
            Arc::new(plan),
        );
        let ghost changed = db@;
        self.databases.put(db);
        proof {
            assert(self@.databases =~= old(self)@.databases.insert(changed.id, changed));
            if registered is Err {
                assert(self@.databases =~= old(self)@.databases);
            }
        }
        match registered {
            Ok(_) => Ok("Registered query".to_owned()),
            Err(e) => Err(e),
        }
    }

    /// Takes the database that `client_id` is attached to out of the
    /// registry, for the caller to work on and to put back.
    fn take_client_database(&mut self, client_id: u64) -> (r: Result<DatabaseState<P>, ServerError>)
        requires
            old(self).wf(),
        ensures
            final(self).inv(),
            final(self)@.storage_path == old(self)@.storage_path,
            final(self)@.connections == old(self)@.connections,
            final(self)@.workers == old(self)@.workers,
            match r {
                Ok(db) => old(self)@.connections.contains_key(client_id) && db.wf() && db@
                    == client_database(old(self)@, client_id) && final(self)@.databases == old(
                    self,
                )@.databases.remove(db@.id),
                Err(e) => !old(self)@.connections.contains_key(client_id) && e@ == not_connected()
                    && final(self)@ == old(self)@,
            },
    {
        let taken = match self.connections.lookup(client_id) {
            Some(db_id) => self.databases.take(db_id),
            None => None,
        };
        match taken {
            Some(db) => Ok(db),
            None => Err(
                ServerError::of(ErrorKind::NotFound, "client is not connected to a database"),
            ),
        }
    }

    /// Begins an execution of the query `query_name` for the client
    /// `client_id`, on the database that the client is attached to. The
    /// execution covers logical time up to `end_timestamp`, from
    /// `start_timestamp` or, without one, from where that database's clock
    /// stands. Hands out the plan to execute.
    pub fn begin_query(
        &mut self,
        query_name: &str,
        start_timestamp: Option<LogicalTimeStamp>,
        end_timestamp: LogicalTimeStamp,
        client_id: u64,
    ) -> (r: Result<Arc<P>, ServerError>)
        requires
            old(self).wf(),
        ensures
            final(self).wf(),
            match r {
                Ok(plan) => client_refusal(
                    old(self)@,
                    client_id,
                    begin_refusal(client_database(old(self)@, client_id).queries, query_name@),
                ) is None && *plan == client_database(old(self)@, client_id).queries[query_name@].plan
                    && final(self)@ == after_begin_query(
                    old(self)@,
                    query_name@,
                    resolved_window(
                        start_timestamp,
                        end_timestamp,
                        client_database(old(self)@, client_id).clock,
                    ),
                    client_id,
                ),
                Err(e) => client_refusal(
                    old(self)@,
                    client_id,
                    begin_refusal(client_database(old(self)@, client_id).queries, query_name@),
                ) == Some(e@) && final(self)@ == old(self)@,
            },
    {
        let mut db = match self.take_client_database(client_id) {
            Ok(db) => db,
            Err(e) => {
                return Err(e);
            },
        };
        let begun = db.begin_query(query_name, start_timestamp, end_timestamp);
        let ghost changed = db@;
        self.databases.put(db);
        proof {
            assert(self@.databases =~= old(self)@.databases.insert(changed.id, changed));
            if begun is Err {
                assert(self@.databases =~= old(self)@.databases);
            }
        }
        begun
    }

    /// Ends the execution of the query `query_name` for the client
    /// `client_id`, on the database that the client is attached to.
    pub fn finish_query(&mut self, query_name: &str, client_id: u64) -> (r: Result<(), ServerError>)
        requires
            old(self).wf(),
        ensures
            final(self).wf(),
            match r {
                Ok(_) => client_refusal(
                    old(self)@,
                    client_id,
                    finish_refusal(client_database(old(self)@, client_id).queries, query_name@),
                ) is None && final(self)@ == after_finish_query(old(self)@, query_name@, client_id),
                Err(e) => client_refusal(
                    old(self)@,
                    client_id,
                    finish_refusal(client_database(old(self)@, client_id).queries, query_name@),
                ) == Some(e@) && final(self)@ == old(self)@,
            },
    {
        let mut db = match self.take_client_database(client_id) {
            Ok(db) => db,
            Err(e) => {
                return Err(e);
            },
        };
        let finished = db.finish_query(query_name);
        let ghost changed = db@;
        self.databases.put(db);
        proof {
            assert(self@.databases =~= old(self)@.databases.insert(changed.id, changed));
            if finished is Err {
                assert(self@.databases =~= old(self)@.databases);
            }
        }
        finished
    }

    /// Moves the logical clock of the database that `client_id` is attached
    /// to forward to `now`.
    pub fn advance_clock(&mut self, client_id: u64, now: LogicalTimeStamp) -> (r: Result<
        (),
        ServerError,
    >)
        requires
            old(self).wf(),
        ensures
            final(self).wf(),
            match r {
                Ok(_) => old(self)@.connections.contains_key(client_id) && final(self)@
                    == with_database(
                    old(self)@,
                    DatabaseModel {
                        clock: if now > client_database(old(self)@, client_id).clock {
                            now
                        } else {
                            client_database(old(self)@, client_id).clock
                        },
                        ..client_database(old(self)@, client_id)
                    },
                ),
                Err(e) => !old(self)@.connections.contains_key(client_id) && e@ == not_connected()
                    && final(self)@ == old(self)@,
            },
    {
        let mut db = match self.take_client_database(client_id) {
            Ok(db) => db,
            Err(e) => {
                return Err(e);
            },
        };
        db.advance_clock(now);
        let ghost changed = db@;
        self.databases.put(db);
        proof {
            assert(self@.databases =~= old(self)@.databases.insert(changed.id, changed));
        }
        Ok(())
    }

    /// Takes the server back to where a server without databases starts:
    /// every database is reset and dropped, every client is detached. What
    /// the storage subsystem holds is for the caller to reset.
    pub fn reset_database(&mut self) -> (r: Result<String, ServerError>)
        requires
            old(self).wf(),
        ensures
            final(self).wf(),
            final(self)@ == after_reset(old(self)@),
            r is Ok,
            r->Ok_0@ == "Reset"@,
    {
        self.databases.reset();
        self.connections.clear();
        Ok("Reset".to_owned())
    }

    /// Shuts the server down. The answer is the list of steps for the caller
    /// to carry out, in this order: one terminate message for each worker;
    /// then a join for each worker that has a thread; then the writing of
    /// each database, once, after making sure of the directory; then the
    /// shutdown of the storage. The pool gives its workers up; the databases
    /// and the connections stay as they are.
    pub fn shutdown(&mut self) -> (steps: Vec<ShutdownStep<H>>)
        requires
            old(self).wf(),
        ensures
            final(self).wf(),
            final(self)@ == (ServerModel { workers: Seq::empty(), ..old(self)@ }),
            exists|names: Seq<Seq<char>>| #[trigger]
                persists(old(self)@.databases, names) && step_models(steps@) == shutdown_steps(
                    old(self)@.workers,
                    names,
                ),
    {
        let mut steps: Vec<ShutdownStep<H>> = Vec::new();
        self.pool.shutdown(&mut steps);
        steps.push(ShutdownStep::EnsureDatabaseDir);
        let snapshots = self.databases.persist_all();
        let ghost names = snapshot_names(snapshots@);
        let ghost stopped = step_models(steps@);
        proof {
            assert(stopped =~= pool_steps(old(self)@.workers) + seq![
                StepModel::<H>::EnsureDatabaseDir,
            ]);
        }
        for snapshot in it: snapshots
            invariant
                it.seq() == snapshots@,
                names == snapshot_names(snapshots@),
                step_models(steps@) == stopped + persist_steps::<H>(names.take(it.index() as int)),
        {
            let ghost so_far = steps@;
            let ghost k = it.index() as int;
            steps.push(ShutdownStep::PersistDatabase { snapshot });
            proof {
                let writing = StepModel::<H>::PersistDatabase { name: names[k] };
                assert(step_models(steps@) =~= step_models(so_far).push(writing));
                assert(persist_steps::<H>(names.take(k + 1)) =~= persist_steps::<H>(
                    names.take(k),
                ).push(writing));
                assert(step_models(steps@) =~= stopped + persist_steps::<H>(names.take(k + 1)));
            }
        }
        let ghost written = steps@;
        steps.push(ShutdownStep::ShutdownStorage);
        proof {
            assert(names.take(names.len() as int) == names);
            assert(step_models(steps@) =~= step_models(written).push(
                StepModel::<H>::ShutdownStorage,
            ));
            assert(step_models(steps@) =~= shutdown_steps(old(self)@.workers, names));
        }
        steps
    }

    /// Splits a registration line of the form `<path> <name>` into the pair
    /// (name, path). Of several tokens after the path the last is the name.
    pub fn parse_name_and_path(input_string: &str) -> (parts: (&str, &str))
        ensures
            parts.0@ == name_of(input_string@),
            parts.1@ == path_of(input_string@),
    {
        crate::text::parse_name_and_path(input_string)
    }
}

/// Connecting attaches the client: after a connect to the database called
/// `name` that was granted, the tracker has the client, attached to the
/// database that `name` identifies, and that database has that name.
pub proof fn law_connect_then_lookup<P, H>(m: ServerModel<P, H>, name: Seq<char>, client_id: u64)
    requires
        server_wf(m),
        connect_refusal(m, name) is None,
    ensures
        ({
            let after = after_connect(m, derive_id(name), client_id);
            &&& server_wf(after)
            &&& after.connections.contains_key(client_id)
            &&& after.connections[client_id] == derive_id(name)
            &&& after.databases.contains_key(derive_id(name))
            &&& after.databases[derive_id(name)].name == name
        }),
{
    let id = choose|id: u64| #[trigger] m.databases.contains_key(id) && m.databases[id].name == name;
    assert(id == derive_id(name));
    let after = after_connect(m, derive_id(name), client_id);
    assert forall|other: u64| #[trigger] after.connections.contains_key(other) implies after.databases.contains_key(
        after.connections[other],
    ) && after.databases[after.connections[other]].clients.contains(other) by {
        if other != client_id {
            assert(m.connections.contains_key(other));
        }
    }
}

/// Closing detaches the client: after a close, the tracker has no entry for
/// the client, and every other client is attached as before.
pub proof fn law_close_then_lookup<P, H>(m: ServerModel<P, H>, client_id: u64)
    requires
        server_wf(m),
    ensures
        server_wf(after_close(m, client_id)),
        !after_close(m, client_id).connections.contains_key(client_id),
        forall|other: u64|
            other != client_id ==> after_close(m, client_id).connections.contains_key(other)
                == m.connections.contains_key(other) && (m.connections.contains_key(other)
                ==> after_close(m, client_id).connections[other] == m.connections[other]),
{
    let after = after_close(m, client_id);
    assert forall|other: u64| #[trigger] after.connections.contains_key(other) implies after.databases.contains_key(
        after.connections[other],
    ) && after.databases[after.connections[other]].clients.contains(other) by {
        assert(m.connections.contains_key(other));
    }
}

/// A query that a client has begun, the same client can finish: after a
/// begin that was granted, its request to finish the same query is granted.
pub proof fn law_client_finishes_what_it_began<P, H>(
    m: ServerModel<P, H>,
    name: Seq<char>,
    window: QueryWindow,
    client_id: u64,
)
    requires
        server_wf(m),
        client_refusal(m, client_id, begin_refusal(client_database(m, client_id).queries, name))
            is None,
    ensures
        ({
            let after = after_begin_query(m, name, window, client_id);
            &&& server_wf(after)
            &&& client_refusal(
                after,
                client_id,
                finish_refusal(client_database(after, client_id).queries, name),
            ) is None
        }),
{
    let after = after_begin_query(m, name, window, client_id);
    assert forall|other: u64| #[trigger] after.connections.contains_key(other) implies after.databases.contains_key(
        after.connections[other],
    ) && after.databases[after.connections[other]].clients.contains(other) by {
        assert(m.connections.contains_key(other));
    }
}

/// A client finishes a query once: after a finish that was granted, its
/// second request to finish the same query is refused as a wrong state
/// transition.
pub proof fn law_client_finishes_only_once<P, H>(m: ServerModel<P, H>, name: Seq<char>, client_id: u64)
    requires
        server_wf(m),
        client_refusal(m, client_id, finish_refusal(client_database(m, client_id).queries, name))
            is None,
    ensures
        ({
            let after = after_finish_query(m, name, client_id);
            &&& server_wf(after)
            &&& client_refusal(
                after,
                client_id,
                finish_refusal(client_database(after, client_id).queries, name),
            ) == Some(not_running(name))
            &&& not_running(name).kind == ErrorKind::StateTransition
        }),
{
    let after = after_finish_query(m, name, client_id);
    assert forall|other: u64| #[trigger] after.connections.contains_key(other) implies after.databases.contains_key(
        after.connections[other],
    ) && after.databases[after.connections[other]].clients.contains(other) by {
        assert(m.connections.contains_key(other));
    }
}

} // verus!
