//! The registry of live databases, keyed by identifier.
use vstd::prelude::*;
use vstd::std_specs::hash::spec_hash_map_iter;
use vstd::std_specs::iter::IteratorSpec;
use std::collections::HashMap;
use crate::database_state::{
    derive_id, fresh_database, DatabaseModel, DatabaseSnapshot, DatabaseState,
};
use crate::error::{ErrorKind, ErrorModel, ServerError};
use crate::text::{debug_quoted, join3, quote, same_text};

verus! {

/// The databases by identifier.
pub type DatabaseMap<P> = Map<u64, DatabaseModel<P>>;

/// What holds of every registry: it is finite, each database stands under
/// its own identifier, and that identifier is the one its name gives.
pub open spec fn registry_wf<P>(dbs: DatabaseMap<P>) -> bool {
    &&& dbs.dom().finite()
    &&& forall|id: u64| #[trigger]
        dbs.contains_key(id) ==> dbs[id].id == id && id == derive_id(dbs[id].name)
}

/// Whether a database called `name` is registered.
pub open spec fn has_name<P>(dbs: DatabaseMap<P>, name: Seq<char>) -> bool {
    exists|id: u64| #[trigger] dbs.contains_key(id) && dbs[id].name == name
}

/// The registry once a database called `name` has been created.
pub open spec fn after_create<P>(dbs: DatabaseMap<P>, name: Seq<char>) -> DatabaseMap<P> {
    dbs.insert(derive_id(name), fresh_database(name))
}

/// The error for a database whose identifier is taken.
pub open spec fn database_exists(name: Seq<char>) -> ErrorModel {
    ErrorModel {
        kind: ErrorKind::AlreadyExists,
        message: "database with name "@ + debug_quoted(name) + " already exists"@,
    }
}

/// The error for a database name that is not registered.
pub open spec fn name_not_found() -> ErrorModel {
    ErrorModel { kind: ErrorKind::NotFound, message: "db_name not found!"@ }
}

/// Why a database called `name` cannot be created, if it cannot.
pub open spec fn create_refusal<P>(dbs: DatabaseMap<P>, name: Seq<char>) -> Option<ErrorModel> {
    if dbs.contains_key(derive_id(name)) {
        Some(database_exists(name))
    } else {
        None
    }
}

/// What a load handed over: a snapshot, or the reason why there is none.
pub type LoadResult = Result<DatabaseSnapshot, ServerError>;

/// The name in a snapshot that was loaded; empty for a load that failed.
pub open spec fn loaded_name(load: LoadResult) -> Seq<char> {
    match load {
        Ok(snapshot) => snapshot.name@,
        Err(_) => Seq::empty(),
    }
}

/// Whether the load at `i` failed and none before it did.
pub open spec fn fails_first_at(loaded: Seq<LoadResult>, i: int) -> bool {
    &&& 0 <= i < loaded.len()
    &&& loaded[i] is Err
    &&& forall|j: int| 0 <= j < i ==> loaded[j] is Ok
}

/// The registry that holds a fresh database for each of `names`, entered in
/// order, so that of two names with one identifier the later one stays.
pub open spec fn loaded_registry<P>(names: Seq<Seq<char>>) -> DatabaseMap<P>
    decreases names.len(),
{
    if names.len() == 0 {
        Map::empty()
    } else {
        after_create(loaded_registry(names.drop_last()), names.last())
    }
}

/// The names in `snapshots`, in order.
pub open spec fn snapshot_names(snapshots: Seq<DatabaseSnapshot>) -> Seq<Seq<char>> {
    snapshots.map_values(|s: DatabaseSnapshot| s.name@)
}

/// Whether `names` are the names of the databases in `dbs`, each database
/// once, in whatever order.
pub open spec fn persists<P>(dbs: DatabaseMap<P>, names: Seq<Seq<char>>) -> bool {
    let ids = names.map_values(|n: Seq<char>| derive_id(n));
    &&& ids.no_duplicates()
    &&& ids.to_set() == dbs.dom()
    &&& forall|i: int| 0 <= i < names.len() ==> (#[trigger] dbs[ids[i]]).name == names[i]
}

/// The live databases.
pub struct DatabaseRegistry<P> {
    dbs: HashMap<u64, DatabaseState<P>>,
}

impl<P> DatabaseRegistry<P> {
    /// The databases by identifier.
    pub closed spec fn view(&self) -> DatabaseMap<P> {
        self.dbs@.map_values(|db: DatabaseState<P>| db@)
    }

    /// What holds of the representation.
    pub closed spec fn inv(&self) -> bool {
        forall|id: u64| #[trigger] self.dbs@.contains_key(id) ==> self.dbs@[id].wf()
    }

    /// The registry is in order.
    pub open spec fn wf(&self) -> bool {
        self.inv() && registry_wf(self@)
    }

    /// A registry without databases.
    pub fn new() -> (r: Self)
        ensures
            r.wf(),
            r@ == Map::<u64, DatabaseModel<P>>::empty(),
    {
        let r = DatabaseRegistry { dbs: HashMap::new() };
        assert(r@ =~= Map::<u64, DatabaseModel<P>>::empty());
        r
    }

    /// The number of databases.
    pub fn len(&self) -> (n: usize)
        requires
            self.wf(),
        ensures
            n == self@.len(),
    {
        assert(self@.dom() =~= self.dbs@.dom());
        self.dbs.len()
    }

    /// Whether a database stands under `id`.
    pub fn contains(&self, id: u64) -> (b: bool)
        ensures
            b == self@.contains_key(id),
    {
        self.dbs.contains_key(&id)
    }

    /// The database under `id`.
    pub fn get(&self, id: u64) -> (db: Option<&DatabaseState<P>>)
        requires
            self.wf(),
        ensures
            match db {
                Some(db) => self@.contains_key(id) && db@ == self@[id] && db.wf(),
                None => !self@.contains_key(id),
            },
    {
        self.dbs.get(&id)
    }

    /// Takes the database under `id` out of the registry.
    pub fn take(&mut self, id: u64) -> (db: Option<DatabaseState<P>>)
        requires
            old(self).wf(),
        ensures
            final(self).wf(),
            match db {
                Some(db) => old(self)@.contains_key(id) && db@ == old(self)@[id] && db.wf()
                    && final(self)@ == old(self)@.remove(id),
                None => !old(self)@.contains_key(id) && final(self)@ == old(self)@,
            },
    {
        let db = self.dbs.remove(&id);
        assert(self@ =~= old(self)@.remove(id));
        assert(old(self)@.contains_key(id) || old(self)@.remove(id) =~= old(self)@);
        db
    }

    /// Enters `db` under its identifier, in place of what stood there.
    pub fn put(&mut self, db: DatabaseState<P>)
        requires
            old(self).wf(),
            db.wf(),
        ensures
            final(self).wf(),
            final(self)@ == old(self)@.insert(db@.id, db@),
    {
        let id = db.id();
        self.dbs.insert(id, db);
        assert(self@ =~= old(self)@.insert(db@.id, db@));
    }

    /// Creates a database called `name`. Its identifier follows from the
    /// name, and must be free.
    pub fn create(&mut self, name: &str) -> (r: Result<u64, ServerError>)
        requires
            old(self).wf(),
        ensures
            final(self).wf(),
            match r {
                Ok(id) => create_refusal(old(self)@, name@) is None && id == derive_id(name@)
                    && final(self)@ == after_create(old(self)@, name@),
                Err(e) => create_refusal(old(self)@, name@) == Some(e@) && final(self)@ == old(
                    self,
                )@,
            },
    {
        let id = DatabaseState::<P>::get_database_id(name);
        if self.contains(id) {
            let quoted = quote(name);
            return Err(
                ServerError::new(
                    ErrorKind::AlreadyExists,
                    join3("database with name ", quoted.as_str(), " already exists"),
                ),
            );
        }
        self.put(DatabaseState::new_from_name(name));
        Ok(id)
    }

    /// Builds the registry at startup from what was loaded of each persisted
    /// database, in order. One load that failed fails the whole: the error is
    /// that of the first such load.
    pub fn load_all(loaded: Vec<LoadResult>) -> (r: Result<Self, ServerError>)
        ensures
            match r {
                Ok(registry) => registry.wf() && (forall|i: int|
                    0 <= i < loaded@.len() ==> loaded@[i] is Ok) && registry@ == loaded_registry::<
                    P,
                >(loaded@.map_values(|l: LoadResult| loaded_name(l))),
                Err(e) => exists|i: int|
                    fails_first_at(loaded@, i) && loaded@[i] == Err::<DatabaseSnapshot, ServerError>(
                        e,
                    ),
            },
    {
        let ghost names = loaded@.map_values(|l: LoadResult| loaded_name(l));
        let mut registry = DatabaseRegistry::new();
        for load in it: loaded
            invariant
                it.seq() == loaded@,
                names == loaded@.map_values(|l: LoadResult| loaded_name(l)),
                registry.wf(),
                forall|j: int| 0 <= j < it.index() ==> loaded@[j] is Ok,
                registry@ == loaded_registry::<P>(names.take(it.index() as int)),
        {
            match load {
                Ok(snapshot) => {
                    let ghost k = it.index() as int;
                    registry.put(DatabaseState::load(snapshot));
                    assert(names.take(k + 1).drop_last() == names.take(k));
                    assert(names.take(k + 1).last() == snapshot.name@);
                },
                Err(e) => {
                    assert(fails_first_at(loaded@, it.index() as int));
                    return Err(e);
                },
            }
        }
        assert(names.take(names.len() as int) == names);
        Ok(registry)
    }

    /// The identifier of the database called `name`, found by going through
    /// the databases one by one.
    pub fn lookup_by_name(&self, name: &str) -> (r: Result<u64, ServerError>)
        requires
            self.wf(),
        ensures
            match r {
                Ok(id) => self@.contains_key(id) && self@[id].name == name@ && id == derive_id(name@),
                Err(e) => !has_name(self@, name@) && e@ == name_not_found(),
            },
    {
        for entry in it: self.dbs.iter()
            invariant
                self.wf(),
                forall|i: int| 0 <= i < it.index() ==> (*it.seq()[i].1)@.name != name@,
        {
            let (id, db) = entry;
            if same_text(db.name(), name) {
                assert(self.dbs@.contains_key(*id) && self.dbs@[*id] == *db);
                assert(self@.contains_key(*id));
                return Ok(*id);
            }
        }
        assert(!has_name(self@, name@)) by {
            assert forall|id: u64| #[trigger] self@.contains_key(id) implies self@[id].name
                != name@ by {
                assert(self.dbs@.contains_key(id));
            }
        }
        Err(ServerError::of(ErrorKind::NotFound, "db_name not found!"))
    }

    /// Takes a snapshot of each database, for writing to disk. Each database
    /// appears once; the order is the one in which the registry hands them out.
    pub fn persist_all(&self) -> (snapshots: Vec<DatabaseSnapshot>)
        requires
            self.wf(),
        ensures
            persists(self@, snapshot_names(snapshots@)),
    {
        let mut snapshots: Vec<DatabaseSnapshot> = Vec::new();
        let ghost walked = spec_hash_map_iter(&self.dbs).remaining();
        for entry in it: self.dbs.iter()
            invariant
                self.wf(),
                it.seq() == walked,
                snapshots@.len() == it.index(),
                forall|i: int|
                    0 <= i < it.index() ==> (#[trigger] snapshots@[i]).name@ == (*walked[i].1)@.name,
        {
            let (id, db) = entry;
            snapshots.push(db.snapshot());
        }
        proof {
            assert(walked.no_duplicates());
            assert(snapshots@.len() == walked.len());
            let names = snapshot_names(snapshots@);
            let ids = names.map_values(|n: Seq<char>| derive_id(n));
            assert forall|i: int| 0 <= i < ids.len() implies #[trigger] ids[i] == *walked[i].0
                && self@.contains_key(ids[i]) && self@[ids[i]].name == names[i] by {
                let id = *walked[i].0;
                assert(self.dbs@.contains_key(id));
                assert(self@.contains_key(id));
                assert(names[i] == snapshots@[i].name@);
            }
            assert forall|i: int, j: int| 0 <= i < ids.len() && 0 <= j < ids.len() && i != j implies ids[i]
                != ids[j] by {
                if ids[i] == ids[j] {
                    assert(*walked[i].0 == *walked[j].0);
                    assert(*walked[i].1 == *walked[j].1);
                    assert(walked[i] == walked[j]);
                }
            }
            assert(ids.to_set() =~= self@.dom()) by {
                assert forall|id: u64| self@.dom().contains(id) implies ids.to_set().contains(id) by {
                    assert(self.dbs@.contains_key(id));
                    let pair = (&id, &self.dbs@[id]);
                    assert(walked.contains(pair));
                    let i = choose|i: int| 0 <= i < walked.len() && walked[i] == pair;
                    assert(ids[i] == id);
                }
                assert forall|id: u64| ids.to_set().contains(id) implies self@.dom().contains(id) by {
                    let i = choose|i: int| 0 <= i < ids.len() && ids[i] == id;
                    assert(self@.contains_key(ids[i]));
                }
            }
        }
        snapshots
    }

    /// Forgets every database.
    pub fn reset(&mut self)
        ensures
            final(self).wf(),
            final(self)@ == Map::<u64, DatabaseModel<P>>::empty(),
    {
        self.dbs.clear();
        assert(self@ =~= Map::<u64, DatabaseModel<P>>::empty());
    }
}

/// The registry once a request to create `name` has been answered: with
/// the new database if the request is granted, as it was if not.
pub open spec fn create_answered<P>(dbs: DatabaseMap<P>, name: Seq<char>) -> DatabaseMap<P> {
    if create_refusal(dbs, name) is None {
        after_create(dbs, name)
    } else {
        dbs
    }
}

/// The registry once a request to create each of `names` has been answered,
/// in order.
pub open spec fn created_all<P>(dbs: DatabaseMap<P>, names: Seq<Seq<char>>) -> DatabaseMap<P>
    decreases names.len(),
{
    if names.len() == 0 {
        dbs
    } else {
        create_answered(created_all(dbs, names.drop_last()), names.last())
    }
}

/// How many of the requests to create each of `names`, answered in order,
/// are granted.
pub open spec fn creations<P>(dbs: DatabaseMap<P>, names: Seq<Seq<char>>) -> nat
    decreases names.len(),
{
    if names.len() == 0 {
        0
    } else {
        let earlier = creations(dbs, names.drop_last());
        if create_refusal(created_all(dbs, names.drop_last()), names.last()) is None {
            earlier + 1
        } else {
            earlier
        }
    }
}

/// Creating a database keeps the registry in order.
pub proof fn law_create_keeps_order<P>(dbs: DatabaseMap<P>, name: Seq<char>)
    requires
        registry_wf(dbs),
    ensures
        registry_wf(after_create(dbs, name)),
        registry_wf(create_answered(dbs, name)),
{
}

/// A database that is created makes the registry larger by exactly one.
pub proof fn law_create_grows_by_one<P>(dbs: DatabaseMap<P>, name: Seq<char>)
    requires
        dbs.dom().finite(),
        create_refusal(dbs, name) is None,
    ensures
        after_create(dbs, name).dom().finite(),
        after_create(dbs, name).len() == dbs.len() + 1,
{
}

/// A name is taken for good: once a request to create `names[i]` has been
/// answered, whatever the answer was and whichever requests to create came
/// before and after it, a new request to create a database of that name is
/// refused, because the database already exists.
pub proof fn law_second_create_fails<P>(dbs: DatabaseMap<P>, names: Seq<Seq<char>>, i: int)
    requires
        0 <= i < names.len(),
    ensures
        create_refusal(created_all(dbs, names), names[i]) == Some(database_exists(names[i])),
        database_exists(names[i]).kind == ErrorKind::AlreadyExists,
    decreases names.len(),
{
    if i < names.len() - 1 {
        law_second_create_fails(dbs, names.drop_last(), i);
    }
}

/// Over any sequence of requests to create, the registry grows by one for
/// each request that is granted, and by nothing else.
pub proof fn law_size_counts_creations<P>(dbs: DatabaseMap<P>, names: Seq<Seq<char>>)
    requires
        dbs.dom().finite(),
    ensures
        created_all(dbs, names).dom().finite(),
        created_all(dbs, names).len() == dbs.len() + creations(dbs, names),
    decreases names.len(),
{
    if names.len() > 0 {
        law_size_counts_creations(dbs, names.drop_last());
        if create_refusal(created_all(dbs, names.drop_last()), names.last()) is None {
            law_create_grows_by_one(created_all(dbs, names.drop_last()), names.last());
        }
    }
}

/// What loading `names` gives: a database for each identifier that a name
/// gives, and under each identifier the fresh database of the last name
/// that gives it.
proof fn lemma_loaded_registry<P>(names: Seq<Seq<char>>)
    ensures
        loaded_registry::<P>(names).dom() == names.map_values(|n: Seq<char>| derive_id(n)).to_set(),
        forall|i: int|
            0 <= i < names.len() && (forall|j: int|
                i < j < names.len() ==> derive_id(#[trigger] names[j]) != derive_id(names[i]))
                ==> loaded_registry::<P>(names)[derive_id(#[trigger] names[i])] == fresh_database::<
                P,
            >(names[i]),
    decreases names.len(),
{
    let ids = names.map_values(|n: Seq<char>| derive_id(n));
    if names.len() == 0 {
        assert(loaded_registry::<P>(names).dom() =~= ids.to_set());
    } else {
        let earlier = names.drop_last();
        let earlier_ids = earlier.map_values(|n: Seq<char>| derive_id(n));
        lemma_loaded_registry::<P>(earlier);
        assert(loaded_registry::<P>(names).dom() =~= ids.to_set()) by {
            assert forall|id: u64| ids.to_set().contains(id) implies loaded_registry::<P>(
                names,
            ).dom().contains(id) by {
                let i = choose|i: int| 0 <= i < ids.len() && ids[i] == id;
                if i < earlier.len() {
                    assert(earlier_ids[i] == id);
                }
            }
            assert forall|id: u64| loaded_registry::<P>(names).dom().contains(id) implies ids.to_set().contains(
                id,
            ) by {
                if id == derive_id(names.last()) {
                    assert(ids[names.len() - 1] == id);
                } else {
                    assert(earlier_ids.to_set().contains(id));
                    let i = choose|i: int| 0 <= i < earlier_ids.len() && earlier_ids[i] == id;
                    assert(ids[i] == id);
                }
            }
        }
        assert forall|i: int|
            0 <= i < names.len() && (forall|j: int|
                i < j < names.len() ==> derive_id(#[trigger] names[j]) != derive_id(
                    names[i],
                )) implies loaded_registry::<P>(names)[derive_id(#[trigger] names[i])]
            == fresh_database::<P>(names[i]) by {
            if i < earlier.len() {
                assert(earlier[i] == names[i]);
                assert forall|j: int| i < j < earlier.len() implies derive_id(
                    #[trigger] earlier[j],
                ) != derive_id(earlier[i]) by {
                    assert(earlier[j] == names[j]);
                }
                assert(derive_id(names[names.len() - 1]) != derive_id(names[i]));
            }
        }
    }
}

/// A restart brings the databases back: where `names` are the names that a
/// shutdown wrote, one for each database in `dbs`, loading `names` gives a
/// registry with the same identifiers, and under each identifier a database
/// of the same name, whose identifier is the one that the name gives.
pub proof fn law_restart_restores<P>(dbs: DatabaseMap<P>, names: Seq<Seq<char>>)
    requires
        registry_wf(dbs),
        persists(dbs, names),
    ensures
        registry_wf(loaded_registry::<P>(names)),
        loaded_registry::<P>(names).dom() == dbs.dom(),
        forall|id: u64| #[trigger]
            dbs.contains_key(id) ==> loaded_registry::<P>(names)[id] == fresh_database::<P>(
                dbs[id].name,
            ) && loaded_registry::<P>(names)[id].id == derive_id(dbs[id].name)
                && loaded_registry::<P>(names)[id].name == dbs[id].name,
{
    let ids = names.map_values(|n: Seq<char>| derive_id(n));
    lemma_loaded_registry::<P>(names);
    assert forall|id: u64| #[trigger] dbs.contains_key(id) implies loaded_registry::<P>(names)[id]
        == fresh_database::<P>(dbs[id].name) by {
        assert(ids.to_set().contains(id));
        let i = choose|i: int| 0 <= i < ids.len() && ids[i] == id;
        assert(dbs[ids[i]].name == names[i]);
        assert forall|j: int| i < j < names.len() implies derive_id(#[trigger] names[j])
            != derive_id(names[i]) by {
            assert(ids[j] != ids[i]);
        }
    }
    vstd::seq_lib::seq_to_set_is_finite(ids);
}

} // verus!
