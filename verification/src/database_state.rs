//! One database as the coordinator sees it: its identity, the clients
//! attached to it, its logical clock and its registered queries.
use vstd::prelude::*;
use vstd::std_specs::hash::DefaultHasherAdditionalSpecFns;
use std::collections::hash_map::DefaultHasher;
use std::collections::HashSet;
use std::hash::Hasher;
use std::sync::Arc;
use crate::error::ServerError;
use crate::query_registrar::{
    after_begin, after_finish, after_register, begin_refusal, finish_refusal, register_refusal,
    resolved_window, LogicalTimeStamp, QueryMap, QueryRegistrar, QueryWindow,
};

verus! {

/// The identifier of the database called `name`: the hash of the name's
/// UTF-8 bytes under the standard library's default hasher. Equal names have
/// equal identifiers, so a name that is taken shows as an identifier that is
/// taken. An identifier is never written to disk: a restart derives it
/// from the name again.
pub open spec fn derive_id(name: Seq<char>) -> u64 {
    DefaultHasher::spec_finish(seq![vstd::utf8::encode_utf8(name)])
}

/// What a database is, apart from how it is stored.
pub struct DatabaseModel<P> {
    pub id: u64,
    pub name: Seq<char>,
    /// The clients attached to the database.
    pub clients: Set<u64>,
    pub queries: QueryMap<P>,
    /// The database's logical clock.
    pub clock: LogicalTimeStamp,
}

/// A database called `name` to which nothing has happened yet.
pub open spec fn fresh_database<P>(name: Seq<char>) -> DatabaseModel<P> {
    DatabaseModel {
        id: derive_id(name),
        name,
        clients: Set::empty(),
        queries: Map::empty(),
        clock: 0,
    }
}

/// What of a database outlives the process: it is written when the server
/// shuts down and read when it starts.
#[derive(Debug)]
pub struct DatabaseSnapshot {
    pub name: String,
}

/// A live database.
pub struct DatabaseState<P> {
    id: u64,
    name: String,
    clients: HashSet<u64>,
    queries: QueryRegistrar<P>,
    clock: LogicalTimeStamp,
}

impl<P> DatabaseState<P> {
    /// The database, apart from how it is stored.
    pub closed spec fn view(&self) -> DatabaseModel<P> {
        DatabaseModel {
            id: self.id,
            name: self.name@,
            clients: self.clients@,
            queries: self.queries@,
            clock: self.clock,
        }
    }

    /// What holds of the representation.
    pub closed spec fn inv(&self) -> bool {
        self.queries.wf()
    }

    /// The identifier is the one that the name gives.
    pub open spec fn wf(&self) -> bool {
        self.inv() && self@.id == derive_id(self@.name)
    }

    /// Computes the identifier of the database called `name`.
    pub fn get_database_id(name: &str) -> (id: u64)
        ensures
            id == derive_id(name@),
    {
        let mut hasher = DefaultHasher::new();
        hasher.write(name.as_bytes());
        hasher.finish()
    }

    /// A new, empty database called `name`.
    pub fn new_from_name(name: &str) -> (db: Self)
        ensures
            db.wf(),
            db@ == fresh_database::<P>(name@),
    {
        DatabaseState {
            id: Self::get_database_id(name),
            name: name.to_owned(),
            clients: HashSet::new(),
            queries: QueryRegistrar::new(),
            clock: 0,
        }
    }

    /// The database that `snapshot` was taken of, as it is after a restart:
    /// with its name and identifier, and nothing else.
    pub fn load(snapshot: DatabaseSnapshot) -> (db: Self)
        ensures
            db.wf(),
            db@ == fresh_database::<P>(snapshot.name@),
    {
        DatabaseState {
            id: Self::get_database_id(snapshot.name.as_str()),
            name: snapshot.name,
            clients: HashSet::new(),
            queries: QueryRegistrar::new(),
            clock: 0,
        }
    }

    /// What is to be written of this database at shutdown.
    pub fn snapshot(&self) -> (s: DatabaseSnapshot)
        ensures
            s.name@ == self@.name,
    {
        DatabaseSnapshot { name: self.name.clone() }
    }

    /// The identifier of the database.
    pub fn id(&self) -> (id: u64)
        ensures
            id == self@.id,
    {
        self.id
    }

    /// The name of the database.
    pub fn name(&self) -> (name: &str)
        ensures
            name@ == self@.name,
    {
        self.name.as_str()
    }

    /// Where the database's logical clock stands.
    pub fn clock(&self) -> (clock: LogicalTimeStamp)
        ensures
            clock == self@.clock,
    {
        self.clock
    }

    /// Whether the client `client_id` is attached to this database.
    pub fn has_client(&self, client_id: u64) -> (b: bool)
        ensures
            b == self@.clients.contains(client_id),
    {
        self.clients.contains(&client_id)
    }

    /// Whether a query is registered under `name`.
    pub fn is_registered(&self, name: &str) -> (b: bool)
        requires
            self.wf(),
        ensures
            b == self@.queries.contains_key(name@),
    {
        self.queries.is_registered(name)
    }

    /// The window inside which the query `name` is running, if it is.
    pub fn query_window(&self, name: &str) -> (w: Option<QueryWindow>)
        requires
            self.wf(),
        ensures
            w == if self@.queries.contains_key(name@) {
                self@.queries[name@].window
            } else {
                None
            },
    {
        self.queries.window(name)
    }

    /// Moves the logical clock forward to `now`. A clock never runs backwards:
    /// an earlier `now` leaves it where it is.
    pub fn advance_clock(&mut self, now: LogicalTimeStamp)
        requires
            old(self).wf(),
        ensures
            final(self).wf(),
            final(self)@ == (DatabaseModel {
                clock: if now > old(self)@.clock {
                    now
                } else {
                    old(self)@.clock
                },
                ..old(self)@
            }),
    {
        if now > self.clock {
            self.clock = now;
        }
    }

    /// Takes the database back to where it was when it was created: no
    /// queries, no clients, the clock at 0.
    pub fn reset(&mut self)
        requires
            old(self).wf(),
        ensures
            final(self).wf(),
            final(self)@ == fresh_database::<P>(old(self)@.name),
    {
        self.clients.clear();
        self.queries.clear();
        self.clock = 0;
    }

    /// Notes that the client `client_id` is attached to this database.
    pub fn register_new_client_connection(&mut self, client_id: u64)
        requires
            old(self).wf(),
        ensures
            final(self).wf(),
            final(self)@ == (DatabaseModel {
                clients: old(self)@.clients.insert(client_id),
                ..old(self)@
            }),
    {
        self.clients.insert(client_id);
    }

    /// Notes that the client `client_id` has left this database.
    pub fn close_client_connection(&mut self, client_id: u64)
        requires
            old(self).wf(),
        ensures
            final(self).wf(),
            final(self)@ == (DatabaseModel {
                clients: old(self)@.clients.remove(client_id),
                ..old(self)@
            }),
    {
        self.clients.remove(&client_id);
    }

    /// Registers the query `name`, whose plan was read from `source_path`.
    pub fn register_query(&mut self, name: String, source_path: String, plan: Arc<P>) -> (r:
        Result<(), ServerError>)
        requires
            old(self).wf(),
        ensures
            final(self).wf(),
            match r {
                Ok(_) => register_refusal(old(self)@.queries, name@) is None && final(self)@ == (
                DatabaseModel {
                    queries: after_register(old(self)@.queries, name@, source_path@, *plan),
                    ..old(self)@
                }),
                Err(e) => register_refusal(old(self)@.queries, name@) == Some(e@) && final(self)@
                    == old(self)@,
            },
    {
        self.queries.register(name, source_path, plan)
    }

    /// Begins an execution of the query `name` up to `end_timestamp`, from
    /// `start_timestamp` or, without one, from where the database's clock
    /// stands now. Hands out the plan to execute.
    pub fn begin_query(
        &mut self,
        name: &str,
        start_timestamp: Option<LogicalTimeStamp>,
        end_timestamp: LogicalTimeStamp,
    ) -> (r: Result<Arc<P>, ServerError>)
        requires
            old(self).wf(),
        ensures
            final(self).wf(),
            match r {
                Ok(plan) => begin_refusal(old(self)@.queries, name@) is None && *plan == old(
                    self,
                )@.queries[name@].plan && final(self)@ == (DatabaseModel {
                    queries: after_begin(
                        old(self)@.queries,
                        name@,
                        resolved_window(start_timestamp, end_timestamp, old(self)@.clock),
                    ),
                    ..old(self)@
                }),
                Err(e) => begin_refusal(old(self)@.queries, name@) == Some(e@) && final(self)@
                    == old(self)@,
            },
    {
        self.queries.begin(name, start_timestamp, end_timestamp, self.clock)
    }

    /// Ends the execution of the query `name`.
    pub fn finish_query(&mut self, name: &str) -> (r: Result<(), ServerError>)
        requires
            old(self).wf(),
        ensures
            final(self).wf(),
            match r {
                Ok(_) => finish_refusal(old(self)@.queries, name@) is None && final(self)@ == (
                DatabaseModel { queries: after_finish(old(self)@.queries, name@), ..old(self)@ }),
                Err(e) => finish_refusal(old(self)@.queries, name@) == Some(e@) && final(self)@
                    == old(self)@,
            },
    {
        self.queries.finish(name)
    }
}

} // verus!
