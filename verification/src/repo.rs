use vstd::prelude::*;

use crate::cache::UserCache;
use crate::records::{has_id, ids_unique};
use crate::store::{email_taken, sample_user, update_conflicts, MemStore, StoreError};
use crate::user::{
    apply_update, opt_user_view, CreateReqView, CreateUserRequest, UpdateReqView,
    UpdateUserRequest, User, UserView,
};

verus! {

/// The cache never holds an identifier the store lacks, nor a value that
/// differs from the store's current row for it.
spec fn mirrors(c: Map<u128, UserView>, s: Map<u128, UserView>) -> bool {
    forall|id: u128| #[trigger] c.contains_key(id) ==> s.contains_key(id) && c[id] == s[id]
}

proof fn lemma_mirrors_insert_both(
    c: Map<u128, UserView>,
    s: Map<u128, UserView>,
    id: u128,
    u: UserView,
)
    requires
        mirrors(c, s),
    ensures
        mirrors(c.insert(id, u), s.insert(id, u)),
{
    assert forall|x: u128| #[trigger] c.insert(id, u).contains_key(x) implies s.insert(
        id,
        u,
    ).contains_key(x) && c.insert(id, u)[x] == s.insert(id, u)[x] by {
        if x != id {
            assert(c.contains_key(x));
        }
    }
}

proof fn lemma_mirrors_remove_both(c: Map<u128, UserView>, s: Map<u128, UserView>, id: u128)
    requires
        mirrors(c, s),
    ensures
        mirrors(c.remove(id), s.remove(id)),
{
    assert forall|x: u128| #[trigger] c.remove(id).contains_key(x) implies s.remove(
        id,
    ).contains_key(x) && c.remove(id)[x] == s.remove(id)[x] by {
        assert(c.contains_key(x));
    }
}

proof fn lemma_mirrors_cache_remove(c: Map<u128, UserView>, s: Map<u128, UserView>, id: u128)
    requires
        mirrors(c, s),
    ensures
        mirrors(c.remove(id), s),
{
    assert forall|x: u128| #[trigger] c.remove(id).contains_key(x) implies s.contains_key(x)
        && c.remove(id)[x] == s[x] by {
        assert(c.contains_key(x));
    }
}

proof fn lemma_mirrors_refresh(c: Map<u128, UserView>, s: Map<u128, UserView>, id: u128)
    requires
        mirrors(c, s),
        s.contains_key(id),
    ensures
        mirrors(c.insert(id, s[id]), s),
{
    assert forall|x: u128| #[trigger] c.insert(id, s[id]).contains_key(x) implies s.contains_key(
        x,
    ) && c.insert(id, s[id])[x] == s[x] by {
        if x != id {
            assert(c.contains_key(x));
        }
    }
}

/// A read-through / write-through cached repository over a store.
///
/// Reads are served from the cache when possible; every mutation goes to the
/// store first and the cache is reconciled only after the store has
/// succeeded, so no entity is ever cached before being durably persisted.
/// Store failures propagate unchanged and leave the cache untouched.
pub struct CachedUserRepository {
    store: MemStore,
    cache: UserCache,
}

impl CachedUserRepository {
    /// The durable contents, the source of truth.
    pub closed spec fn store_view(self) -> Map<u128, UserView> {
        self.store.contents()
    }

    /// The volatile cache contents.
    pub closed spec fn cache_view(self) -> Map<u128, UserView> {
        self.cache@
    }

    /// The store's point-lookup log, oldest first (test instrumentation).
    pub closed spec fn lookups(self) -> Seq<u128> {
        self.store.lookups()
    }

    /// How many identifiers the store has handed out.
    pub closed spec fn ids_used(self) -> u128 {
        self.store.ids_used()
    }

    /// Store and cache are each well formed and the cache mirrors the store:
    /// it is a subset of the store's rows, never a superset.
    pub closed spec fn wf(self) -> bool {
        &&& self.store.wf()
        &&& self.cache.wf()
        &&& mirrors(self.cache@, self.store.contents())
    }

    /// Well-formedness, exported: the cache never holds an identifier the
    /// store lacks, nor a value differing from the store's current row.
    pub proof fn lemma_cache_mirrors_store(self)
        requires
            self.wf(),
        ensures
            forall|id: u128| #[trigger] self.cache_view().contains_key(id)
                ==> self.store_view().contains_key(id) && self.cache_view()[id]
                == self.store_view()[id],
    {
    }

    /// Every present entry of either view carries its key as its identifier.
    pub proof fn lemma_keyed(self, id: u128)
        requires
            self.wf(),
        ensures
            self.store_view().contains_key(id) ==> self.store_view()[id].id == id,
            self.cache_view().contains_key(id) ==> self.cache_view()[id].id == id,
    {
        if self.store_view().contains_key(id) {
            self.store.lemma_keyed_by_id(id);
        }
    }

    /// What a read of `id` returns: the cached snapshot on a hit, otherwise
    /// the store's row, otherwise absent.
    pub open spec fn read_result(self, id: u128) -> Option<UserView> {
        if self.cache_view().contains_key(id) {
            Some(self.cache_view()[id])
        } else if self.store_view().contains_key(id) {
            Some(self.store_view()[id])
        } else {
            None
        }
    }

    /// Whether a read of `id` is served from the cache alone, without a
    /// store lookup.
    pub open spec fn serves_from_cache(self, id: u128) -> bool {
        self.cache_view().contains_key(id)
    }

    /// The state change and result of a successful `create`.
    pub open spec fn create_ok(pre: Self, post: Self, req: CreateReqView, u: UserView) -> bool {
        &&& u.name == req.name && u.email == req.email && u.age == req.age
        &&& !pre.store_view().contains_key(u.id)
        &&& post.store_view() == pre.store_view().insert(u.id, u)
        &&& post.cache_view() == pre.cache_view().insert(u.id, u)
        &&& post.lookups() == pre.lookups()
        &&& post.ids_used() == pre.ids_used() + 1
    }

    /// The state change and result of a `get_by_id` that returned `r`.
    pub open spec fn get_post(pre: Self, post: Self, id: u128, r: Option<UserView>) -> bool {
        &&& r == pre.read_result(id)
        &&& post.store_view() == pre.store_view()
        &&& post.ids_used() == pre.ids_used()
        &&& post.cache_view() == if pre.serves_from_cache(id) {
            pre.cache_view()
        } else {
            match r {
                Some(u) => pre.cache_view().insert(id, u),
                None => pre.cache_view(),
            }
        }
        &&& post.lookups() == if pre.serves_from_cache(id) {
            pre.lookups()
        } else {
            pre.lookups().push(id)
        }
    }

    /// The state change of an `update` that merged and returned `u`.
    pub open spec fn update_ok(
        pre: Self,
        post: Self,
        id: u128,
        req: UpdateReqView,
        u: UserView,
    ) -> bool {
        &&& pre.store_view().contains_key(id)
        &&& u == apply_update(pre.store_view()[id], req)
        &&& post.store_view() == pre.store_view().insert(id, u)
        &&& post.cache_view() == pre.cache_view().insert(id, u)
        &&& post.lookups() == pre.lookups()
        &&& post.ids_used() == pre.ids_used()
    }

    /// The state change of an `update` whose entity no longer exists: the
    /// store is untouched and any stale cache entry is dropped defensively.
    pub open spec fn update_absent(pre: Self, post: Self, id: u128) -> bool {
        &&& !pre.store_view().contains_key(id)
        &&& post.store_view() == pre.store_view()
        &&& post.cache_view() == pre.cache_view().remove(id)
        &&& post.lookups() == pre.lookups()
        &&& post.ids_used() == pre.ids_used()
    }

    /// The state change of a `delete` that removed the entity.
    pub open spec fn delete_ok(pre: Self, post: Self, id: u128) -> bool {
        &&& pre.store_view().contains_key(id)
        &&& post.store_view() == pre.store_view().remove(id)
        &&& post.cache_view() == pre.cache_view().remove(id)
        &&& post.lookups() == pre.lookups()
        &&& post.ids_used() == pre.ids_used()
    }

    /// The state change of `invalidate_cache`: the cache is empty, nothing
    /// else moved.
    pub open spec fn invalidated(pre: Self, post: Self) -> bool {
        &&& post.store_view() == pre.store_view()
        &&& post.cache_view() == Map::<u128, UserView>::empty()
        &&& post.lookups() == pre.lookups()
        &&& post.ids_used() == pre.ids_used()
    }

    /// Wrap a store with an empty cache.
    pub fn new(store: MemStore) -> (r: Self)
        requires
            store.wf(),
        ensures
            r.wf(),
            r.store_view() == store.contents(),
            r.cache_view() == Map::<u128, UserView>::empty(),
            r.lookups() == store.lookups(),
            r.ids_used() == store.ids_used(),
    {
        CachedUserRepository { store, cache: UserCache::new() }
    }

    /// Idempotently ensure the backing structure exists.
    pub fn init_db(&self) -> (r: Result<(), StoreError>)
        ensures
            r is Ok,
    {
        self.store.init_schema()
    }

    /// Fetch every entity from the store — the source of truth — and repair
    /// the cache with a fresh snapshot of each row; afterwards the cache
    /// holds exactly the store's rows.  The store's listing is returned
    /// unmodified.
    pub fn get_all(&mut self) -> (r: Result<Vec<User>, StoreError>)
        requires
            old(self).wf(),
        ensures
            final(self).wf(),
            final(self).store_view() == old(self).store_view(),
            final(self).lookups() == old(self).lookups(),
            final(self).ids_used() == old(self).ids_used(),
            r is Ok,
            r matches Ok(all) ==> {
                &&& ids_unique(all@)
                &&& forall|i: int|
                    0 <= i < all@.len() ==> old(self).store_view().contains_key(
                        (#[trigger] all@[i])@.id,
                    ) && old(self).store_view()[all@[i]@.id] == all@[i]@
                &&& forall|id: u128|
                    #[trigger] old(self).store_view().contains_key(id) ==> has_id(all@, id)
                &&& final(self).cache_view() == old(self).store_view()
            },
    {
        let users = match self.store.list_all() {
            Ok(us) => us,
            Err(e) => {
                return Err(e);
            },
        };
        let ghost m = self.store.contents();
        let ghost c0 = self.cache@;
        let mut k: usize = 0;
        while k < users.len()
            invariant
                k <= users@.len(),
                self.store == old(self).store,
                self.cache.wf(),
                ids_unique(users@),
                forall|i: int|
                    0 <= i < users@.len() ==> m.contains_key((#[trigger] users@[i])@.id)
                        && m[users@[i]@.id] == users@[i]@,
                forall|id: u128| #[trigger] m.contains_key(id) ==> has_id(users@, id),
                forall|id: u128|
                    #[trigger] self.cache@.contains_key(id) ==> m.contains_key(id)
                        && self.cache@[id] == m[id],
                forall|id: u128|
                    #[trigger] self.cache@.contains_key(id) <==> (c0.contains_key(id) || exists|i: int|
                        0 <= i < k && (#[trigger] users@[i])@.id == id),
                mirrors(c0, m),
            decreases users@.len() - k,
        {
            let u = users[k].clone();
            proof {
                assert(m.contains_key(u@.id) && m[u@.id] == u@);
            }
            self.cache.upsert(u);
            k = k + 1;
            proof {
                assert forall|id: u128| #[trigger] self.cache@.contains_key(id) implies (
                c0.contains_key(id) || exists|i: int|
                    0 <= i < k && (#[trigger] users@[i])@.id == id) by {
                    if id == users@[k - 1]@.id {
                        assert(0 <= k - 1 < k && users@[k - 1]@.id == id);
                    }
                }
                assert forall|id: u128| (c0.contains_key(id) || exists|i: int|
                    0 <= i < k && (#[trigger] users@[i])@.id == id) implies #[trigger] self.cache@.contains_key(
                    id,
                ) by {}
            }
        }
        proof {
            assert(self.cache@ =~= m) by {
                assert forall|id: u128| #[trigger] m.contains_key(id) implies self.cache@.contains_key(
                    id,
                ) by {
                    assert(has_id(users@, id));
                    let i = choose|i: int| 0 <= i < users@.len() && users@[i]@.id == id;
                    assert(0 <= i < k && users@[i]@.id == id);
                }
                assert forall|id: u128| #[trigger] self.cache@.contains_key(id) implies m.contains_key(
                    id,
                ) by {}
                assert forall|id: u128| #[trigger] self.cache@.contains_key(id) implies self.cache@[id]
                    == m[id] by {}
            }
        }
        Ok(users)
    }

    /// Read-through lookup: a cache hit is served immediately without
    /// touching the store; on a miss the store is consulted and a found
    /// entity is cached before being returned.  An absent row is returned as
    /// absent and caches nothing — there is no negative caching.
    ///
    /// A concurrent delete between the store read and the cache insert can
    /// re-insert a just-deleted entity; with no TTL and no versioning that
    /// staleness is accepted and repaired only by the administrative
    /// operations.
    pub fn get_by_id(&mut self, id: u128) -> (r: Result<Option<User>, StoreError>)
        requires
            old(self).wf(),
        ensures
            final(self).wf(),
            r is Ok,
            r matches Ok(o) ==> Self::get_post(*old(self), *final(self), id, opt_user_view(o)),
    {
        match self.cache.lookup(id) {
            Some(u) => {
                return Ok(Some(u));
            },
            None => {},
        }
        let got = match self.store.get_by_id(id) {
            Ok(o) => o,
            Err(e) => {
                return Err(e);
            },
        };
        match got {
            Some(u) => {
                let cu = u.clone();
                proof {
                    lemma_mirrors_refresh(self.cache@, self.store.contents(), id);
                }
                self.cache.upsert(cu);
                Ok(Some(u))
            },
            None => Ok(None),
        }
    }

    /// Write-through create: persist first; only on success insert the new
    /// entity, keyed by its generated identifier, into the cache.  On
    /// failure the cache is untouched and the store error propagates
    /// unchanged — no entity is ever cached before being durably persisted.
    pub fn create(&mut self, req: &CreateUserRequest) -> (r: Result<User, StoreError>)
        requires
            old(self).wf(),
            old(self).ids_used() < u128::MAX,
        ensures
            final(self).wf(),
            r is Err <==> email_taken(old(self).store_view(), req@.email),
            r matches Err(e) ==> e == StoreError::Constraint && *final(self) == *old(self),
            r matches Ok(u) ==> Self::create_ok(*old(self), *final(self), req@, u@),
    {
        let u = match self.store.create(req) {
            Ok(u) => u,
            Err(e) => {
                return Err(e);
            },
        };
        let cu = u.clone();
        proof {
            lemma_mirrors_insert_both(self.cache@, old(self).store.contents(), u@.id, u@);
        }
        self.cache.upsert(cu);
        Ok(u)
    }

    /// Write-through update: apply at the store first.  A merged result
    /// replaces the whole cached entry; an absent result drops any stale
    /// cache entry defensively; a store failure leaves the cache untouched
    /// and propagates unchanged.
    pub fn update(&mut self, id: u128, req: &UpdateUserRequest) -> (r: Result<
        Option<User>,
        StoreError,
    >)
        requires
            old(self).wf(),
        ensures
            final(self).wf(),
            !old(self).store_view().contains_key(id) ==> r == Ok::<Option<User>, StoreError>(None)
                && Self::update_absent(*old(self), *final(self), id),
            old(self).store_view().contains_key(id) && update_conflicts(
                old(self).store_view(),
                id,
                req@,
            ) ==> r == Err::<Option<User>, StoreError>(StoreError::Constraint) && *final(self)
                == *old(self),
            old(self).store_view().contains_key(id) && !update_conflicts(
                old(self).store_view(),
                id,
                req@,
            ) ==> (r matches Ok(Some(u)) && Self::update_ok(
                *old(self),
                *final(self),
                id,
                req@,
                u@,
            )),
    {
        let res = match self.store.update(id, req) {
            Ok(o) => o,
            Err(e) => {
                return Err(e);
            },
        };
        match res {
            Some(u) => {
                let cu = u.clone();
                proof {
                    old(self).store.lemma_keyed_by_id(id);
                    lemma_mirrors_insert_both(self.cache@, old(self).store.contents(), id, u@);
                }
                self.cache.upsert(cu);
                Ok(Some(u))
            },
            None => {
                proof {
                    lemma_mirrors_cache_remove(self.cache@, self.store.contents(), id);
                }
                self.cache.remove(id);
                Ok(None)
            },
        }
    }

    /// Write-through delete: delete at the store first; only a confirmed
    /// removal drops the cache entry.  A miss or a failure leaves the cache
    /// as it is.
    pub fn delete(&mut self, id: u128) -> (r: Result<bool, StoreError>)
        requires
            old(self).wf(),
        ensures
            final(self).wf(),
            r is Ok,
            r == Ok::<bool, StoreError>(true) <==> old(self).store_view().contains_key(id),
            r == Ok::<bool, StoreError>(true) ==> Self::delete_ok(*old(self), *final(self), id),
            r == Ok::<bool, StoreError>(false) ==> *final(self) == *old(self),
    {
        let deleted = match self.store.delete(id) {
            Ok(b) => b,
            Err(e) => {
                return Err(e);
            },
        };
        if deleted {
            proof {
                lemma_mirrors_remove_both(self.cache@, old(self).store.contents(), id);
            }
            self.cache.remove(id);
        }
        Ok(deleted)
    }

    /// Seed the store with its sample entity when empty, then refresh the
    /// whole cache from a full listing.
    pub fn seed_sample_data(&mut self) -> (r: Result<(), StoreError>)
        requires
            old(self).wf(),
            old(self).ids_used() < u128::MAX,
        ensures
            final(self).wf(),
            r is Ok,
            final(self).lookups() == old(self).lookups(),
            (exists|id: u128| #[trigger] old(self).store_view().contains_key(id))
                ==> final(self).store_view() == old(self).store_view(),
            (forall|id: u128| !(#[trigger] old(self).store_view().contains_key(id)))
                ==> final(self).store_view() == old(self).store_view().insert(
                old(self).ids_used(),
                sample_user(old(self).ids_used()),
            ),
            final(self).cache_view() == final(self).store_view(),
    {
        match self.store.seed_sample_data() {
            Ok(_) => {},
            Err(e) => {
                return Err(e);
            },
        };
        proof {
            if exists|id: u128| #[trigger] old(self).store.contents().contains_key(id) {
                assert(self.store.contents() == old(self).store.contents());
            } else {
                assert(forall|id: u128|
                    !(#[trigger] old(self).store.contents().contains_key(id)));
                assert forall|id: u128| #[trigger] self.cache@.contains_key(id)
                    implies self.store.contents().contains_key(id) && self.cache@[id]
                    == self.store.contents()[id] by {
                    assert(old(self).store.contents().contains_key(id));
                }
            }
        }
        match self.get_all() {
            Ok(_) => {},
            Err(e) => {
                return Err(e);
            },
        };
        Ok(())
    }

    /// Administrative: clear the entire cache unconditionally; the store is
    /// not consulted.  Intended for manual drift correction.
    pub fn invalidate_cache(&mut self)
        requires
            old(self).wf(),
        ensures
            final(self).wf(),
            Self::invalidated(*old(self), *final(self)),
    {
        self.cache.clear();
    }

    /// Administrative: re-read one entity from the store and force the cache
    /// entry to match — overwrite it when the row exists, drop it when it
    /// does not — regardless of prior cache state.
    pub fn refresh_cache_entry(&mut self, id: u128) -> (r: Result<(), StoreError>)
        requires
            old(self).wf(),
        ensures
            final(self).wf(),
            r is Ok,
            final(self).store_view() == old(self).store_view(),
            final(self).ids_used() == old(self).ids_used(),
            final(self).lookups() == old(self).lookups().push(id),
            final(self).cache_view() == if old(self).store_view().contains_key(id) {
                old(self).cache_view().insert(id, old(self).store_view()[id])
            } else {
                old(self).cache_view().remove(id)
            },
    {
        let got = match self.store.get_by_id(id) {
            Ok(o) => o,
            Err(e) => {
                return Err(e);
            },
        };
        match got {
            Some(u) => {
                proof {
                    lemma_mirrors_refresh(self.cache@, self.store.contents(), id);
                }
                self.cache.upsert(u);
            },
            None => {
                proof {
                    lemma_mirrors_cache_remove(self.cache@, self.store.contents(), id);
                }
                self.cache.remove(id);
            },
        }
        Ok(())
    }

    /// The recorded store point lookups, for instrumented tests.
    pub fn store_lookup_log(&self) -> (r: &Vec<u128>)
        ensures
            r@ == self.lookups(),
    {
        self.store.lookup_log()
    }
}

} // verus!
