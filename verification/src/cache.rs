use vstd::prelude::*;

use crate::records::{
    find_index, ids_unique, lemma_map_at_index, lemma_map_push, lemma_map_remove,
    lemma_map_update, map_of,
};
use crate::user::{User, UserView};

verus! {

/// The volatile identifier-to-entity mapping kept in front of the store.
///
/// Entries are full value copies: a cached entity is a snapshot, independent
/// of later mutations until it is explicitly overwritten or removed.
pub struct UserCache {
    entries: Vec<User>,
}

impl UserCache {
    /// The cache read as a map from identifier to entity image.
    pub closed spec fn as_map(self) -> Map<u128, UserView> {
        map_of(self.entries@)
    }

    /// Each identifier is cached at most once.
    pub closed spec fn wf(self) -> bool {
        ids_unique(self.entries@)
    }

    pub fn new() -> (c: Self)
        ensures
            c.wf(),
            c@ == Map::<u128, UserView>::empty(),
    {
        let c = UserCache { entries: Vec::new() };
        proof {
            assert(c@ =~= Map::<u128, UserView>::empty());
        }
        c
    }

    /// The cached snapshot for `id`, if one is present; the read path serves
    /// a hit without consulting the store.
    pub fn lookup(&self, id: u128) -> (r: Option<User>)
        requires
            self.wf(),
        ensures
            match r {
                Some(u) => self@.contains_key(id) && u@ == self@[id],
                None => !self@.contains_key(id),
            },
    {
        match find_index(&self.entries, id) {
            Some(j) => {
                let u = self.entries[j].clone();
                proof {
                    lemma_map_at_index(self.entries@, j as int);
                }
                Some(u)
            },
            None => None,
        }
    }

    /// Insert the snapshot `u`, overwriting any prior entry for its
    /// identifier.
    pub fn upsert(&mut self, u: User)
        requires
            old(self).wf(),
        ensures
            final(self).wf(),
            final(self)@ == old(self)@.insert(u@.id, u@),
    {
        let ghost s0 = self.entries@;
        match find_index(&self.entries, u.id) {
            Some(j) => {
                proof {
                    lemma_map_update(s0, j as int, u);
                }
                self.entries.set(j, u);
            },
            None => {
                proof {
                    lemma_map_push(s0, u);
                }
                self.entries.push(u);
            },
        }
    }

    /// Drop the snapshot for `id`, if any.
    pub fn remove(&mut self, id: u128)
        requires
            old(self).wf(),
        ensures
            final(self).wf(),
            final(self)@ == old(self)@.remove(id),
    {
        let ghost s0 = self.entries@;
        match find_index(&self.entries, id) {
            Some(j) => {
                proof {
                    lemma_map_remove(s0, j as int);
                }
                self.entries.remove(j);
            },
            None => {
                proof {
                    assert(map_of(s0) =~= map_of(s0).remove(id));
                }
            },
        }
    }

    /// Clear every entry unconditionally.
    pub fn clear(&mut self)
        ensures
            final(self).wf(),
            final(self)@ == Map::<u128, UserView>::empty(),
    {
        self.entries.clear();
        proof {
            assert(self@ =~= Map::<u128, UserView>::empty());
        }
    }
}

impl View for UserCache {
    type V = Map<u128, UserView>;

    open spec fn view(&self) -> Map<u128, UserView> {
        self.as_map()
    }
}

} // verus!
