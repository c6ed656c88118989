//! The client registry: the set of clients that are connected right now.

use std::collections::HashSet;
use vstd::prelude::*;
use vstd::std_specs::hash::spec_hash_keys_iter;
use vstd::std_specs::iter::IteratorSpec;

verus! {

/// Opaque identifier of one live connection, assigned by the transport.
pub type ClientId = u64;

/// The set of currently connected clients.
pub struct ClientRegistry {
    members: HashSet<ClientId>,
}

impl View for ClientRegistry {
    type V = Set<ClientId>;

    closed spec fn view(&self) -> Set<ClientId> {
        self.members@
    }
}

impl ClientRegistry {
    /// A registry has finitely many members.
    pub proof fn lemma_finite(self)
        ensures
            self@.finite(),
    {
        let keys = spec_hash_keys_iter(&self.members).remaining();
        assert(keys.unref().to_set() == self.members@);
        vstd::seq_lib::seq_to_set_is_finite(keys.unref());
    }

    pub fn new() -> (registry: Self)
        ensures
            registry@ == Set::<ClientId>::empty(),
    {
        ClientRegistry { members: HashSet::new() }
    }

    /// Adds a client and returns the number of clients then connected. A
    /// client that is already registered is not counted twice.
    pub fn register(&mut self, client: ClientId) -> (count: usize)
        ensures
            final(self)@ == old(self)@.insert(client),
            final(self)@.finite(),
            count == final(self)@.len(),
    {
        self.members.insert(client);
        proof {
            self.lemma_finite();
        }
        self.members.len()
    }

    /// Removes a client and returns the number of clients still connected.
    /// Removing a client that is not registered changes nothing.
    pub fn unregister(&mut self, client: ClientId) -> (count: usize)
        ensures
            final(self)@ == old(self)@.remove(client),
            final(self)@.finite(),
            count == final(self)@.len(),
    {
        self.members.remove(&client);
        proof {
            self.lemma_finite();
        }
        self.members.len()
    }

    /// Number of connected clients.
    pub fn count(&self) -> (count: usize)
        ensures
            self@.finite(),
            count == self@.len(),
    {
        proof {
            self.lemma_finite();
        }
        self.members.len()
    }

    pub fn contains(&self, client: ClientId) -> (present: bool)
        ensures
            present == self@.contains(client),
    {
        self.members.contains(&client)
    }

    /// The connected clients, each listed once, in no particular order.
    pub fn members(&self) -> (list: Vec<ClientId>)
        ensures
            list@.no_duplicates(),
            list@.to_set() == self@,
    {
        let mut list: Vec<ClientId> = Vec::new();
        for client in it: self.members.iter()
            invariant
                it.seq() == spec_hash_keys_iter(&self.members).remaining(),
                list@ == it.seq().unref().take(it.index()),
        {
            list.push(*client);
        }
        proof {
            let keys = spec_hash_keys_iter(&self.members).remaining();
            assert(list@ == keys.unref());
            assert(keys.unref().to_set() == self.members@);
        }
        list
    }
}

} // verus!
