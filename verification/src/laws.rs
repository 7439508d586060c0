use vstd::prelude::*;

use crate::repo::CachedUserRepository;
use crate::user::{CreateReqView, UpdateReqView, UserView};

verus! {

/// Read-your-write: an entity a successful `create` returned is immediately
/// read back by `get_by_id` of its identifier, served from the cache.
pub proof fn created_entity_reads_back(
    pre: CachedUserRepository,
    post: CachedUserRepository,
    req: CreateReqView,
    u: UserView,
)
    requires
        pre.wf(),
        CachedUserRepository::create_ok(pre, post, req, u),
    ensures
        post.serves_from_cache(u.id),
        post.read_result(u.id) == Some(u),
{
}

/// An identifier the store does not hold reads back as absent, and the read
/// inserts nothing into the cache — there is no negative caching.
pub proof fn absent_read_caches_nothing(
    pre: CachedUserRepository,
    post: CachedUserRepository,
    id: u128,
    r: Option<UserView>,
)
    requires
        pre.wf(),
        !pre.store_view().contains_key(id),
        CachedUserRepository::get_post(pre, post, id, r),
    ensures
        r is None,
        post.cache_view() == pre.cache_view(),
{
    pre.lemma_cache_mirrors_store();
    assert(!pre.cache_view().contains_key(id));
}

/// After a delete reported as performed, the cache no longer holds the
/// identifier — a following read must consult the store — and that read
/// returns absent.
pub proof fn deleted_entity_reads_absent(
    pre: CachedUserRepository,
    post: CachedUserRepository,
    id: u128,
)
    requires
        pre.wf(),
        CachedUserRepository::delete_ok(pre, post, id),
    ensures
        !post.serves_from_cache(id),
        post.read_result(id) is None,
{
}

/// Updating only the name of an existing entity: the following read returns
/// the merged entity, whose name is the requested one and whose identifier,
/// address and age are unchanged from before the update.
pub proof fn update_name_changes_only_name(
    pre: CachedUserRepository,
    post: CachedUserRepository,
    id: u128,
    req: UpdateReqView,
    u: UserView,
)
    requires
        pre.wf(),
        req.name is Some,
        req.email is None,
        req.age is None,
        CachedUserRepository::update_ok(pre, post, id, req, u),
    ensures
        post.read_result(id) == Some(u),
        u.id == id,
        u.name == req.name->0,
        u.email == pre.store_view()[id].email,
        u.age == pre.store_view()[id].age,
{
    pre.lemma_keyed(id);
}

/// A cache invalidation followed by a read of any identifier — in
/// particular a previously cached one — always performs a store lookup: the
/// intermediate state serves nothing from the cache, and the read lands in
/// the store's lookup log.
pub proof fn invalidated_read_consults_store(
    pre: CachedUserRepository,
    mid: CachedUserRepository,
    post: CachedUserRepository,
    id: u128,
    r: Option<UserView>,
)
    requires
        CachedUserRepository::invalidated(pre, mid),
        CachedUserRepository::get_post(mid, post, id, r),
    ensures
        !mid.serves_from_cache(id),
        post.lookups() == pre.lookups().push(id),
{
}

} // verus!
