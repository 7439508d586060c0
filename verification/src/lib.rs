//! A user store with an in-process read-through / write-through cache.
//!
//! The durable store of record is modelled by [`store::MemStore`], an
//! in-memory realization of the minimal store contract (create, point read,
//! partial update, delete, full enumeration).  [`repo::CachedUserRepository`]
//! wraps a store together with a volatile identifier-to-entity cache
//! ([`cache::UserCache`]) and keeps the two consistent: reads are served from
//! the cache when possible, every mutation goes to the store first and the
//! cache is reconciled only after the store has succeeded.

pub mod cache;
pub mod laws;
pub mod records;
pub mod repo;
pub mod store;
pub mod user;
