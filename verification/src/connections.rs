//! The table of client connections: which client is attached to which
//! database. A client is attached to one database at most.
use vstd::prelude::*;
use std::collections::HashMap;

verus! {

/// The client connections: client identifier to database identifier.
pub struct ConnectionTracker {
    map: HashMap<u64, u64>,
}

impl ConnectionTracker {
    /// The connections: client identifier to database identifier.
    pub closed spec fn view(&self) -> Map<u64, u64> {
        self.map@
    }

    /// A tracker without connections.
    pub fn new() -> (r: Self)
        ensures
            r@ == Map::<u64, u64>::empty(),
    {
        ConnectionTracker { map: HashMap::new() }
    }

    /// The number of clients that are connected.
    pub fn len(&self) -> (n: usize)
        ensures
            n == self@.len(),
            self@.dom().finite(),
    {
        self.map.len()
    }

    /// The database that `client_id` is attached to.
    pub fn lookup(&self, client_id: u64) -> (db_id: Option<u64>)
        ensures
            db_id == if self@.contains_key(client_id) {
                Some(self@[client_id])
            } else {
                None
            },
    {
        match self.map.get(&client_id) {
            Some(db_id) => Some(*db_id),
            None => None,
        }
    }

    /// Attaches `client_id` to `db_id`, away from where it was attached before.
    pub fn connect(&mut self, client_id: u64, db_id: u64)
        ensures
            final(self)@ == old(self)@.insert(client_id, db_id),
    {
        self.map.insert(client_id, db_id);
    }

    /// Detaches `client_id`, and says which database it was attached to.
    pub fn disconnect(&mut self, client_id: u64) -> (db_id: Option<u64>)
        ensures
            final(self)@ == old(self)@.remove(client_id),
            db_id == if old(self)@.contains_key(client_id) {
                Some(old(self)@[client_id])
            } else {
                None
            },
    {
        self.map.remove(&client_id)
    }

    /// Detaches every client.
    pub fn clear(&mut self)
        ensures
            final(self)@ == Map::<u64, u64>::empty(),
    {
        self.map.clear();
    }
}

} // verus!
