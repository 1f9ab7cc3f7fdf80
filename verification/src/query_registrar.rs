//! The queries registered with one database, and where each of them stands
//! in its life cycle: registered, or running inside a window of logical time.
use vstd::prelude::*;
use std::sync::Arc;
use crate::error::{ErrorKind, ErrorModel, ServerError};
use crate::text::{debug_quoted, join3, quote, same_text};

verus! {

/// A point of logical time: a value that orders events, not a wall clock.
pub type LogicalTimeStamp = u64;

/// The stretch of logical time that one execution of a query covers.
#[derive(Clone, Copy, Debug, PartialEq, Eq, Structural)]
pub struct QueryWindow {
    pub start: LogicalTimeStamp,
    pub end: LogicalTimeStamp,
}

/// What the registrar knows of one query, apart from its name.
pub struct QueryModel<P> {
    /// Where the plan was read from.
    pub source_path: Seq<char>,
    /// The plan, never changed once registered.
    pub plan: P,
    /// The window of the execution under way; `None` while the query rests.
    pub window: Option<QueryWindow>,
}

/// The queries of one database by name.
pub type QueryMap<P> = Map<Seq<char>, QueryModel<P>>;

/// Whether the query `name` is running.
pub open spec fn is_running<P>(queries: QueryMap<P>, name: Seq<char>) -> bool {
    queries.contains_key(name) && queries[name].window is Some
}

/// The error for a query without a name.
pub open spec fn unnamed_query() -> ErrorModel {
    ErrorModel { kind: ErrorKind::InvalidArgument, message: "Must give query a name"@ }
}

/// The error for a second registration under one name.
pub open spec fn duplicate_query(name: Seq<char>) -> ErrorModel {
    ErrorModel {
        kind: ErrorKind::AlreadyExists,
        message: "Query "@ + debug_quoted(name) + " is already registered"@,
    }
}

/// The error for a query that is asked to run or to finish and was never
/// registered: from there no step leads to running or back.
pub open spec fn unregistered_query(name: Seq<char>) -> ErrorModel {
    ErrorModel {
        kind: ErrorKind::StateTransition,
        message: "Query "@ + debug_quoted(name) + " has not been registered"@,
    }
}

/// The error for beginning a query that is running.
pub open spec fn already_running(name: Seq<char>) -> ErrorModel {
    ErrorModel {
        kind: ErrorKind::StateTransition,
        message: "Query "@ + debug_quoted(name) + " is already running"@,
    }
}

/// The error for finishing a query that is not running.
pub open spec fn not_running(name: Seq<char>) -> ErrorModel {
    ErrorModel {
        kind: ErrorKind::StateTransition,
        message: "Query "@ + debug_quoted(name) + " is not running"@,
    }
}

/// Why `name` cannot be registered, if it cannot.
pub open spec fn register_refusal<P>(queries: QueryMap<P>, name: Seq<char>) -> Option<ErrorModel> {
    if name.len() == 0 {
        Some(unnamed_query())
    } else if queries.contains_key(name) {
        Some(duplicate_query(name))
    } else {
        None
    }
}

/// The queries once `name` has been registered.
pub open spec fn after_register<P>(
    queries: QueryMap<P>,
    name: Seq<char>,
    source_path: Seq<char>,
    plan: P,
) -> QueryMap<P> {
    queries.insert(name, QueryModel { source_path, plan, window: None })
}

/// Why `name` cannot begin to run, if it cannot.
pub open spec fn begin_refusal<P>(queries: QueryMap<P>, name: Seq<char>) -> Option<ErrorModel> {
    if !queries.contains_key(name) {
        Some(unregistered_query(name))
    } else if queries[name].window is Some {
        Some(already_running(name))
    } else {
        None
    }
}

/// The window of an execution asked for with `start` and `end` while the
/// database's clock stands at `clock`: without a start, it starts at the clock.
pub open spec fn resolved_window(
    start: Option<LogicalTimeStamp>,
    end: LogicalTimeStamp,
    clock: LogicalTimeStamp,
) -> QueryWindow {
    QueryWindow {
        start: match start {
            Some(s) => s,
            None => clock,
        },
        end,
    }
}

/// The queries once `name` has begun to run inside `window`.
pub open spec fn after_begin<P>(queries: QueryMap<P>, name: Seq<char>, window: QueryWindow) -> QueryMap<P> {
    queries.insert(name, QueryModel { window: Some(window), ..queries[name] })
}

/// Why `name` cannot finish, if it cannot.
pub open spec fn finish_refusal<P>(queries: QueryMap<P>, name: Seq<char>) -> Option<ErrorModel> {
    if !queries.contains_key(name) {
        Some(unregistered_query(name))
    } else if queries[name].window is None {
        Some(not_running(name))
    } else {
        None
    }
}

/// The queries once `name` has finished: registered as before, its window gone.
pub open spec fn after_finish<P>(queries: QueryMap<P>, name: Seq<char>) -> QueryMap<P> {
    queries.insert(name, QueryModel { window: None, ..queries[name] })
}

/// A query at rest, with the plan that `plan` shares.
pub open spec fn resting<P>(source_path: Seq<char>, plan: Arc<P>) -> QueryModel<P> {
    QueryModel { source_path, plan: *plan, window: None }
}

/// One query as the registrar stores it.
pub struct RegisteredQuery<P> {
    name: String,
    source_path: String,
    plan: Arc<P>,
    window: Option<QueryWindow>,
}

impl<P> RegisteredQuery<P> {
    /// What is stored under the query's name.
    pub closed spec fn model(&self) -> QueryModel<P> {
        QueryModel { source_path: self.source_path@, plan: *self.plan, window: self.window }
    }
}

/// The queries of one database. No two of them share a name, and none has
/// the empty name.
pub struct QueryRegistrar<P> {
    entries: Vec<RegisteredQuery<P>>,
}

impl<P> QueryRegistrar<P> {
    /// Whether the entry at `i` carries `name`.
    closed spec fn named(&self, i: int, name: Seq<char>) -> bool {
        0 <= i < self.entries@.len() && self.entries@[i].name@ == name
    }

    /// The place of the entry for `name`.
    closed spec fn position(&self, name: Seq<char>) -> int {
        choose|i: int| self.named(i, name)
    }

    /// The queries by name.
    pub closed spec fn view(&self) -> QueryMap<P> {
        Map::new(
            |name: Seq<char>| exists|i: int| self.named(i, name),
            |name: Seq<char>| self.entries@[self.position(name)].model(),
        )
    }

    /// No name is empty and none occurs twice.
    pub closed spec fn wf(&self) -> bool {
        &&& forall|i: int| 0 <= i < self.entries@.len() ==> (#[trigger] self.entries@[i]).name@.len() > 0
        &&& forall|i: int, j: int|
            0 <= i < j < self.entries@.len() ==> (#[trigger] self.entries@[i]).name@
                != (#[trigger] self.entries@[j]).name@
    }

    /// The entry at `i` is what the view holds under its name.
    proof fn lemma_entry(&self, i: int)
        requires
            self.wf(),
            0 <= i < self.entries@.len(),
        ensures
            self@.contains_key(self.entries@[i].name@),
            self@[self.entries@[i].name@] == self.entries@[i].model(),
            self.position(self.entries@[i].name@) == i,
    {
        let name = self.entries@[i].name@;
        assert(self.named(i, name));
        let p = self.position(name);
        assert(self.named(p, name));
        if p < i {
            assert(self.entries@[p].name@ != self.entries@[i].name@);
        } else if i < p {
            assert(self.entries@[i].name@ != self.entries@[p].name@);
        }
    }

    /// A registrar without queries.
    pub fn new() -> (r: Self)
        ensures
            r.wf(),
            r@ == Map::<Seq<char>, QueryModel<P>>::empty(),
    {
        let r = QueryRegistrar { entries: Vec::new() };
        assert(r@ =~= Map::<Seq<char>, QueryModel<P>>::empty()) by {
            assert forall|name: Seq<char>| !r@.contains_key(name) by {
                assert(forall|i: int| !r.named(i, name));
            }
        }
        r
    }

    /// The number of registered queries.
    pub fn len(&self) -> (n: usize)
        requires
            self.wf(),
        ensures
            n == self@.len(),
            self@.dom().finite(),
    {
        proof {
            self.lemma_len();
        }
        self.entries.len()
    }

    /// There are as many names as entries.
    proof fn lemma_len(&self)
        requires
            self.wf(),
        ensures
            self@.dom().finite(),
            self@.len() == self.entries@.len(),
    {
        let names = self.entries@.map_values(|e: RegisteredQuery<P>| e.name@);
        assert(names.no_duplicates());
        names.unique_seq_to_set();
        assert(self@.dom() =~= names.to_set()) by {
            assert forall|name: Seq<char>| self@.dom().contains(name) implies names.to_set().contains(
                name,
            ) by {
                let i = choose|i: int| self.named(i, name);
                assert(names[i] == name);
            }
            assert forall|name: Seq<char>| names.to_set().contains(name) implies self@.dom().contains(
                name,
            ) by {
                let i = choose|i: int| 0 <= i < names.len() && names[i] == name;
                assert(self.named(i, name));
            }
        }
    }

    /// The place of the entry for `name`, if there is one.
    fn find(&self, name: &str) -> (at: Option<usize>)
        requires
            self.wf(),
        ensures
            match at {
                Some(i) => i < self.entries@.len() && self.entries@[i as int].name@ == name@
                    && self@.contains_key(name@) && self@[name@] == self.entries@[i as int].model(),
                None => !self@.contains_key(name@),
            },
    {
        let mut i: usize = 0;
        while i < self.entries.len()
            invariant
                self.wf(),
                i <= self.entries@.len(),
                forall|j: int| 0 <= j < i ==> self.entries@[j].name@ != name@,
            decreases self.entries@.len() - i,
        {
            if same_text(self.entries[i].name.as_str(), name) {
                proof {
                    self.lemma_entry(i as int);
                }
                return Some(i);
            }
            i = i + 1;
        }
        assert(forall|j: int| !self.named(j, name@));
        None
    }

    /// Whether a query is registered under `name`.
    pub fn is_registered(&self, name: &str) -> (b: bool)
        requires
            self.wf(),
        ensures
            b == self@.contains_key(name@),
    {
        self.find(name).is_some()
    }

    /// The window inside which `name` is running, if it is.
    pub fn window(&self, name: &str) -> (w: Option<QueryWindow>)
        requires
            self.wf(),
        ensures
            w == if self@.contains_key(name@) {
                self@[name@].window
            } else {
                None
            },
    {
        match self.find(name) {
            Some(i) => self.entries[i].window,
            None => None,
        }
    }

    /// Registers the query `name` with the plan read from `source_path`.
    /// The name must not be empty and must be new to this database.
    pub fn register(&mut self, name: String, source_path: String, plan: Arc<P>) -> (r: Result<
        (),
        ServerError,
    >)
        requires
            old(self).wf(),
        ensures
            final(self).wf(),
            match r {
                Ok(_) => register_refusal(old(self)@, name@) is None && final(self)@
                    == after_register(old(self)@, name@, source_path@, *plan),
                Err(e) => register_refusal(old(self)@, name@) == Some(e@) && final(self)@ == old(
                    self,
                )@,
            },
    {
        if name.as_str().is_empty() {
            return Err(ServerError::of(ErrorKind::InvalidArgument, "Must give query a name"));
        }
        if self.find(name.as_str()).is_some() {
            let quoted = quote(name.as_str());
            return Err(
                ServerError::new(
                    ErrorKind::AlreadyExists,
                    join3("Query ", quoted.as_str(), " is already registered"),
                ),
            );
        }
        let ghost before = *self;
        let ghost model = resting(source_path@, plan);
        let ghost key = name@;
        self.entries.push(RegisteredQuery { name, source_path, plan, window: None });
        proof {
            let n = before.entries@.len() as int;
            assert(forall|i: int| !before.named(i, key));
            assert(self.entries@ == before.entries@.push(self.entries@[n]));
            assert forall|i: int, j: int| 0 <= i < j < self.entries@.len() implies (
            #[trigger] self.entries@[i]).name@ != (#[trigger] self.entries@[j]).name@ by {
                if j == n {
                    assert(!before.named(i, key));
                }
            }
            assert(self.wf());
            assert(self@ =~= before@.insert(key, model)) by {
                self.lemma_entry(n);
                assert(self.entries@[n].name@ == key);
                assert(self@.contains_key(key));
                assert(self@[key] == model);
                let target = before@.insert(key, model);
                assert forall|other: Seq<char>| #[trigger]
                    self@.contains_key(other) == target.contains_key(other) by {
                    if other != key && self@.contains_key(other) {
                        let i = choose|i: int| self.named(i, other);
                        assert(before.named(i, other));
                    }
                    if other != key && before@.contains_key(other) {
                        let i = choose|i: int| before.named(i, other);
                        assert(self.named(i, other));
                    }
                }
                assert forall|other: Seq<char>| #[trigger]
                    self@.contains_key(other) implies self@[other] == target[other] by {
                    if other != key {
                        let i = choose|i: int| self.named(i, other);
                        assert(before.named(i, other));
                        before.lemma_entry(i);
                        self.lemma_entry(i);
                    }
                }
            }
        }
        Ok(())
    }

    /// Replaces the window of the entry at `i`.
    fn set_window(&mut self, i: usize, window: Option<QueryWindow>)
        requires
            old(self).wf(),
            i < old(self).entries@.len(),
        ensures
            final(self).wf(),
            final(self)@ == old(self)@.insert(
                old(self).entries@[i as int].name@,
                QueryModel { window, ..old(self).entries@[i as int].model() },
            ),
    {
        let ghost before = *self;
        self.entries[i].window = window;
        proof {
            let key = before.entries@[i as int].name@;
            assert(self.entries@.len() == before.entries@.len());
            assert(forall|j: int|
                0 <= j < self.entries@.len() ==> (#[trigger] self.entries@[j]).name
                    == before.entries@[j].name);
            assert(forall|j: int|
                0 <= j < self.entries@.len() && j != i ==> (#[trigger] self.entries@[j])
                    == before.entries@[j]);
            assert(self.entries@[i as int].model() == QueryModel {
                window,
                ..before.entries@[i as int].model()
            });
            assert(self.wf());
            assert(self@ =~= before@.insert(
                key,
                QueryModel { window, ..before.entries@[i as int].model() },
            )) by {
                self.lemma_entry(i as int);
                assert(self.entries@[i as int].name@ == key);
                assert(self@.contains_key(key));
                before.lemma_entry(i as int);
                let target = before@.insert(
                    key,
                    QueryModel { window, ..before.entries@[i as int].model() },
                );
                assert forall|other: Seq<char>| #[trigger]
                    self@.contains_key(other) == target.contains_key(other) by {
                    if other != key && self@.contains_key(other) {
                        let j = choose|j: int| self.named(j, other);
                        assert(before.named(j, other));
                    }
                    if other != key && before@.contains_key(other) {
                        let j = choose|j: int| before.named(j, other);
                        assert(self.named(j, other));
                    }
                }
                assert forall|other: Seq<char>| #[trigger]
                    self@.contains_key(other) implies self@[other] == target[other] by {
                    if other != key {
                        let j = choose|j: int| self.named(j, other);
                        assert(before.named(j, other));
                        before.lemma_entry(j);
                        self.lemma_entry(j);
                    }
                }
            }
        }
    }

    /// Begins an execution of the query `name` that ends at `end`. It starts
    /// at `start`, or where `clock` stands if no start is given. Hands out the
    /// plan to execute. The query must be registered and at rest.
    pub fn begin(
        &mut self,
        name: &str,
        start: Option<LogicalTimeStamp>,
        end: LogicalTimeStamp,
        clock: LogicalTimeStamp,
    ) -> (r: Result<Arc<P>, ServerError>)
        requires
            old(self).wf(),
        ensures
            final(self).wf(),
            match r {
                Ok(plan) => begin_refusal(old(self)@, name@) is None && *plan == old(self)@[name@].plan
                    && final(self)@ == after_begin(
                    old(self)@,
                    name@,
                    resolved_window(start, end, clock),
                ),
                Err(e) => begin_refusal(old(self)@, name@) == Some(e@) && final(self)@ == old(
                    self,
                )@,
            },
    {
        let at = match self.find(name) {
            Some(i) => i,
            None => {
                let quoted = quote(name);
                return Err(
                    ServerError::new(
                        ErrorKind::StateTransition,
                        join3("Query ", quoted.as_str(), " has not been registered"),
                    ),
                );
            },
        };
        if self.entries[at].window.is_some() {
            let quoted = quote(name);
            return Err(
                ServerError::new(
                    ErrorKind::StateTransition,
                    join3("Query ", quoted.as_str(), " is already running"),
                ),
            );
        }
        let first = match start {
            Some(s) => s,
            None => clock,
        };
        let plan = self.entries[at].plan.clone();
        self.set_window(at, Some(QueryWindow { start: first, end }));
        Ok(plan)
    }

    /// Ends the execution of the query `name`, which goes back to rest and
    /// loses its window. The query must be running.
    pub fn finish(&mut self, name: &str) -> (r: Result<(), ServerError>)
        requires
            old(self).wf(),
        ensures
            final(self).wf(),
            match r {
                Ok(_) => finish_refusal(old(self)@, name@) is None && final(self)@ == after_finish(
                    old(self)@,
                    name@,
                ),
                Err(e) => finish_refusal(old(self)@, name@) == Some(e@) && final(self)@ == old(
                    self,
                )@,
            },
    {
        let at = match self.find(name) {
            Some(i) => i,
            None => {
                let quoted = quote(name);
                return Err(
                    ServerError::new(
                        ErrorKind::StateTransition,
                        join3("Query ", quoted.as_str(), " has not been registered"),
                    ),
                );
            },
        };
        if self.entries[at].window.is_none() {
            let quoted = quote(name);
            return Err(
                ServerError::new(
                    ErrorKind::StateTransition,
                    join3("Query ", quoted.as_str(), " is not running"),
                ),
            );
        }
        self.set_window(at, None);
        Ok(())
    }

    /// Forgets every query.
    pub fn clear(&mut self)
        ensures
            final(self).wf(),
            final(self)@ == Map::<Seq<char>, QueryModel<P>>::empty(),
    {
        self.entries.clear();
        assert(self@ =~= Map::<Seq<char>, QueryModel<P>>::empty()) by {
            assert forall|name: Seq<char>| !self@.contains_key(name) by {
                assert(forall|i: int| !self.named(i, name));
            }
        }
    }
}

} // verus!
