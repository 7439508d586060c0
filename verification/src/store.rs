use vstd::prelude::*;

use crate::records::{
    find_index, has_id, ids_unique, index_of_id, lemma_map_at_index, lemma_map_push,
    lemma_map_remove, lemma_map_update, map_of,
};
use crate::user::{
    apply_update, merged_user, CreateUserRequest, UpdateUserRequest, User, UserView,
};

verus! {

/// A failure of the durable store: the backend unreachable or out of
/// resources, a uniqueness constraint violated, or a malformed operation.
/// A missing row is an absent result, never an error.
#[derive(Debug, Clone, Copy, PartialEq, Eq, Structural)]
pub enum StoreError {
    Connection,
    Constraint,
    Query,
}

/// Some entity in `m` already carries the address `email`.
pub open spec fn email_taken(m: Map<u128, UserView>, email: Seq<char>) -> bool {
    exists|id: u128| #[trigger] m.contains_key(id) && m[id].email == email
}

/// Some entity other than `id` carries the address `email`.
pub open spec fn email_conflict(m: Map<u128, UserView>, id: u128, email: Seq<char>) -> bool {
    exists|other: u128|
        #[trigger] m.contains_key(other) && other != id && m[other].email == email
}

/// An update request asks for an address that another entity already carries.
pub open spec fn update_conflicts(m: Map<u128, UserView>, id: u128, r: crate::user::UpdateReqView) -> bool {
    match r.email {
        Some(e) => email_conflict(m, id, e),
        None => false,
    }
}

/// The sample entity that seeding inserts into an empty store.
pub open spec fn sample_user(id: u128) -> UserView {
    UserView { id, name: "John Doe"@, email: "john@example.com"@, age: Some(30u8) }
}

spec fn seq_has_email(s: Seq<User>, email: Seq<char>) -> bool {
    exists|i: int| 0 <= i < s.len() && s[i]@.email == email
}

spec fn seq_email_conflict(s: Seq<User>, id: u128, email: Seq<char>) -> bool {
    exists|i: int| 0 <= i < s.len() && s[i]@.email == email && s[i]@.id != id
}

spec fn emails_unique(s: Seq<User>) -> bool {
    forall|i: int, j: int| 0 <= i < j < s.len() ==> s[i]@.email != s[j]@.email
}

proof fn lemma_email_taken_iff(s: Seq<User>, email: Seq<char>)
    requires
        ids_unique(s),
    ensures
        email_taken(map_of(s), email) <==> seq_has_email(s, email),
{
    if email_taken(map_of(s), email) {
        let id = choose|id: u128| #[trigger] map_of(s).contains_key(id) && map_of(s)[id].email == email;
        assert(has_id(s, id));
        let i = index_of_id(s, id);
        assert(0 <= i < s.len() && s[i]@.id == id);
        lemma_map_at_index(s, i);
        assert(s[i]@.email == email);
    }
    if seq_has_email(s, email) {
        let i = choose|i: int| 0 <= i < s.len() && s[i]@.email == email;
        lemma_map_at_index(s, i);
        assert(map_of(s).contains_key(s[i]@.id) && map_of(s)[s[i]@.id].email == email);
    }
}

proof fn lemma_email_conflict_iff(s: Seq<User>, id: u128, email: Seq<char>)
    requires
        ids_unique(s),
    ensures
        email_conflict(map_of(s), id, email) <==> seq_email_conflict(s, id, email),
{
    if email_conflict(map_of(s), id, email) {
        let other = choose|other: u128|
            #[trigger] map_of(s).contains_key(other) && other != id && map_of(s)[other].email
                == email;
        assert(has_id(s, other));
        let i = index_of_id(s, other);
        assert(0 <= i < s.len() && s[i]@.id == other);
        lemma_map_at_index(s, i);
        assert(s[i]@.email == email && s[i]@.id != id);
    }
    if seq_email_conflict(s, id, email) {
        let i = choose|i: int| 0 <= i < s.len() && s[i]@.email == email && s[i]@.id != id;
        lemma_map_at_index(s, i);
        assert(map_of(s).contains_key(s[i]@.id) && s[i]@.id != id && map_of(s)[s[i]@.id].email
            == email);
    }
}

proof fn lemma_emails_unique_remove(s: Seq<User>, j: int)
    requires
        emails_unique(s),
        0 <= j < s.len(),
    ensures
        emails_unique(s.remove(j)),
{
    let t = s.remove(j);
    s.remove_ensures(j);
    assert forall|i: int, k: int| 0 <= i < k < t.len() implies t[i]@.email != t[k]@.email by {
        let i0 = if i < j { i } else { i + 1 };
        let k0 = if k < j { k } else { k + 1 };
        assert(t[i] == s[i0] && t[k] == s[k0]);
        assert(0 <= i0 < k0 < s.len());
    }
}

fn scan_email(rows: &Vec<User>, email: &String) -> (b: bool)
    ensures
        b == seq_has_email(rows@, email@),
{
    let mut k: usize = 0;
    while k < rows.len()
        invariant
            k <= rows@.len(),
            forall|i: int| 0 <= i < k ==> rows@[i]@.email != email@,
        decreases rows@.len() - k,
    {
        if rows[k].email == *email {
            proof {
                assert(seq_has_email(rows@, email@));
            }
            return true;
        }
        k = k + 1;
    }
    false
}

fn scan_email_conflict(rows: &Vec<User>, email: &String, id: u128) -> (b: bool)
    ensures
        b == seq_email_conflict(rows@, id, email@),
{
    let mut k: usize = 0;
    while k < rows.len()
        invariant
            k <= rows@.len(),
            forall|i: int| 0 <= i < k ==> !(rows@[i]@.email == email@ && rows@[i]@.id != id),
        decreases rows@.len() - k,
    {
        if rows[k].id != id && rows[k].email == *email {
            proof {
                assert(seq_email_conflict(rows@, id, email@));
            }
            return true;
        }
        k = k + 1;
    }
    false
}

/// The in-memory realization of the minimal durable-store contract, and the
/// instrumented double the cached repository is verified and tested against:
/// rows keyed by a unique identifier, addresses unique across rows, and a log
/// of every point lookup that was served.
pub struct MemStore {
    rows: Vec<User>,
    next_id: u128,
    get_log: Vec<u128>,
}

impl MemStore {
    /// The persisted rows as a map from identifier to entity image.
    pub closed spec fn contents(self) -> Map<u128, UserView> {
        map_of(self.rows@)
    }

    /// How many identifiers were handed out so far; the next fresh
    /// identifier is this value.
    pub closed spec fn ids_used(self) -> u128 {
        self.next_id
    }

    /// The identifier of every point lookup served, oldest first.
    pub closed spec fn lookups(self) -> Seq<u128> {
        self.get_log@
    }

    /// Rows are uniquely keyed, addresses are unique, and every stored
    /// identifier was handed out before `ids_used`.
    pub closed spec fn wf(self) -> bool {
        &&& ids_unique(self.rows@)
        &&& emails_unique(self.rows@)
        &&& forall|i: int| 0 <= i < self.rows@.len() ==> (#[trigger] self.rows@[i]@.id) < self.next_id
    }

    pub fn new() -> (s: Self)
        ensures
            s.wf(),
            s.contents() == Map::<u128, UserView>::empty(),
            s.ids_used() == 0,
            s.lookups() == Seq::<u128>::empty(),
    {
        let s = MemStore { rows: Vec::new(), next_id: 0, get_log: Vec::new() };
        proof {
            assert(s.contents() =~= Map::<u128, UserView>::empty());
        }
        s
    }

    /// Each entry carries its key as its identifier field.
    pub proof fn lemma_keyed_by_id(self, id: u128)
        requires
            self.wf(),
            self.contents().contains_key(id),
        ensures
            self.contents()[id].id == id,
    {
        assert(has_id(self.rows@, id));
        let i = index_of_id(self.rows@, id);
        assert(0 <= i < self.rows@.len() && self.rows@[i]@.id == id);
        lemma_map_at_index(self.rows@, i);
    }

    /// The recorded point lookups, for instrumented tests.
    pub fn lookup_log(&self) -> (r: &Vec<u128>)
        ensures
            r@ == self.lookups(),
    {
        &self.get_log
    }

    /// Idempotently ensure the backing structure exists.  The in-memory
    /// backing always exists, so this succeeds without effect.
    pub fn init_schema(&self) -> (r: Result<(), StoreError>)
        ensures
            r is Ok,
    {
        Ok(())
    }

    /// Every entity currently persisted, in unspecified order.
    pub fn list_all(&self) -> (r: Result<Vec<User>, StoreError>)
        requires
            self.wf(),
        ensures
            r is Ok,
            r matches Ok(all) ==> {
                &&& ids_unique(all@)
                &&& forall|i: int|
                    0 <= i < all@.len() ==> self.contents().contains_key(
                        (#[trigger] all@[i])@.id,
                    ) && self.contents()[all@[i]@.id] == all@[i]@
                &&& forall|id: u128| #[trigger] self.contents().contains_key(id) ==> has_id(all@, id)
            },
    {
        let mut out: Vec<User> = Vec::new();
        let mut k: usize = 0;
        while k < self.rows.len()
            invariant
                k <= self.rows@.len(),
                out@.len() == k,
                forall|i: int| 0 <= i < k ==> out@[i] == self.rows@[i],
            decreases self.rows@.len() - k,
        {
            out.push(self.rows[k].clone());
            k = k + 1;
        }
        proof {
            assert(out@ =~= self.rows@);
            assert forall|i: int| 0 <= i < out@.len() implies self.contents().contains_key(
                (#[trigger] out@[i])@.id,
            ) && self.contents()[out@[i]@.id] == out@[i]@ by {
                lemma_map_at_index(self.rows@, i);
            }
        }
        Ok(out)
    }

    /// Point lookup; an absent row is not an error.  Every call is recorded
    /// in the lookup log.
    pub fn get_by_id(&mut self, id: u128) -> (r: Result<Option<User>, StoreError>)
        requires
            old(self).wf(),
        ensures
            final(self).wf(),
            final(self).contents() == old(self).contents(),
            final(self).ids_used() == old(self).ids_used(),
            final(self).lookups() == old(self).lookups().push(id),
            r is Ok,
            r matches Ok(o) ==> match o {
                Some(u) => old(self).contents().contains_key(id) && u@ == old(
                    self,
                ).contents()[id] && u@.id == id,
                None => !old(self).contents().contains_key(id),
            },
    {
        self.get_log.push(id);
        match find_index(&self.rows, id) {
            Some(j) => {
                let u = self.rows[j].clone();
                proof {
                    lemma_map_at_index(self.rows@, j as int);
                }
                Ok(Some(u))
            },
            None => Ok(None),
        }
    }

    /// Persist a new entity under a fresh identifier and return it in full.
    /// Fails exactly when the requested address is already taken.
    pub fn create(&mut self, req: &CreateUserRequest) -> (r: Result<User, StoreError>)
        requires
            old(self).wf(),
            old(self).ids_used() < u128::MAX,
        ensures
            final(self).wf(),
            final(self).lookups() == old(self).lookups(),
            r is Err <==> email_taken(old(self).contents(), req@.email),
            r matches Err(e) ==> e == StoreError::Constraint && *final(self) == *old(self),
            r matches Ok(u) ==> {
                &&& u@.name == req@.name && u@.email == req@.email && u@.age == req@.age
                &&& u@.id == old(self).ids_used()
                &&& !old(self).contents().contains_key(u@.id)
                &&& final(self).contents() == old(self).contents().insert(u@.id, u@)
                &&& final(self).ids_used() == old(self).ids_used() + 1
            },
    {
        proof {
            lemma_email_taken_iff(self.rows@, req@.email);
        }
        if scan_email(&self.rows, &req.email) {
            return Err(StoreError::Constraint);
        }
        let id = self.next_id;
        self.next_id = self.next_id + 1;
        let u = User { id, name: req.name.clone(), email: req.email.clone(), age: req.age };
        let ghost s0 = self.rows@;
        proof {
            assert forall|i: int| 0 <= i < s0.len() implies s0[i]@.id != id by {}
            lemma_map_push(s0, u);
            assert forall|i: int, j: int| 0 <= i < j < s0.push(u).len() implies s0.push(u)[i]@.email
                != s0.push(u)[j]@.email by {
                if j < s0.len() {
                    assert(s0.push(u)[i] == s0[i] && s0.push(u)[j] == s0[j]);
                } else {
                    assert(s0.push(u)[j] == u && s0.push(u)[i] == s0[i]);
                }
            }
        }
        let ret = u.clone();
        self.rows.push(u);
        Ok(ret)
    }

    /// Apply exactly the fields present in `req` to the entity `id` and
    /// return the merged entity, or absent when `id` does not exist.  Moving
    /// the entity to an address another entity holds fails the uniqueness
    /// constraint and changes nothing.
    pub fn update(&mut self, id: u128, req: &UpdateUserRequest) -> (r: Result<
        Option<User>,
        StoreError,
    >)
        requires
            old(self).wf(),
        ensures
            final(self).wf(),
            final(self).lookups() == old(self).lookups(),
            final(self).ids_used() == old(self).ids_used(),
            !old(self).contents().contains_key(id) ==> r == Ok::<Option<User>, StoreError>(None)
                && *final(self) == *old(self),
            old(self).contents().contains_key(id) && update_conflicts(
                old(self).contents(),
                id,
                req@,
            ) ==> r == Err::<Option<User>, StoreError>(StoreError::Constraint) && *final(self)
                == *old(self),
            old(self).contents().contains_key(id) && !update_conflicts(
                old(self).contents(),
                id,
                req@,
            ) ==> {
                &&& r matches Ok(Some(u)) && u@ == apply_update(old(self).contents()[id], req@)
                &&& final(self).contents() == old(self).contents().insert(
                    id,
                    apply_update(old(self).contents()[id], req@),
                )
            },
    {
        let j = match find_index(&self.rows, id) {
            Some(j) => j,
            None => {
                return Ok(None);
            },
        };
        proof {
            lemma_map_at_index(self.rows@, j as int);
        }
        if let Some(e) = &req.email {
            proof {
                lemma_email_conflict_iff(self.rows@, id, e@);
            }
            if scan_email_conflict(&self.rows, e, id) {
                return Err(StoreError::Constraint);
            }
        }
        let merged = merged_user(&self.rows[j], req);
        let ghost s0 = self.rows@;
        let ghost t = s0.update(j as int, merged);
        proof {
            lemma_map_update(s0, j as int, merged);
            assert forall|i: int, k: int| 0 <= i < k < t.len() implies t[i]@.email != t[k]@.email by {
                if i != j {
                    assert(t[i] == s0[i]);
                }
                if k != j {
                    assert(t[k] == s0[k]);
                }
                if i == j || k == j {
                    let n = if i == j { k } else { i };
                    assert(t[n] == s0[n]);
                    assert(s0[n]@.id != id);
                    match req@.email {
                        Some(e) => {
                            if s0[n]@.email == e {
                                assert(seq_email_conflict(s0, id, e));
                            }
                        },
                        None => {},
                    }
                }
            }
        }
        let ret = merged.clone();
        self.rows.set(j, merged);
        Ok(Some(ret))
    }

    /// Remove the entity `id`; report whether a row was removed.
    pub fn delete(&mut self, id: u128) -> (r: Result<bool, StoreError>)
        requires
            old(self).wf(),
        ensures
            final(self).wf(),
            final(self).lookups() == old(self).lookups(),
            final(self).ids_used() == old(self).ids_used(),
            r is Ok,
            r == Ok::<bool, StoreError>(true) <==> old(self).contents().contains_key(id),
            r == Ok::<bool, StoreError>(true) ==> final(self).contents() == old(
                self,
            ).contents().remove(id),
            r == Ok::<bool, StoreError>(false) ==> *final(self) == *old(self),
    {
        match find_index(&self.rows, id) {
            Some(j) => {
                proof {
                    lemma_map_at_index(self.rows@, j as int);
                    lemma_map_remove(self.rows@, j as int);
                    lemma_emails_unique_remove(self.rows@, j as int);
                    s_remove_ids_bound(self.rows@, j as int, self.next_id);
                }
                self.rows.remove(j);
                Ok(true)
            },
            None => Ok(false),
        }
    }

    /// Insert one sample entity when the store is empty; otherwise leave the
    /// rows untouched.
    pub fn seed_sample_data(&mut self) -> (r: Result<(), StoreError>)
        requires
            old(self).wf(),
            old(self).ids_used() < u128::MAX,
        ensures
            final(self).wf(),
            final(self).lookups() == old(self).lookups(),
            r is Ok,
            (exists|id: u128| #[trigger] old(self).contents().contains_key(id)) ==> *final(self)
                == *old(self),
            (forall|id: u128| !(#[trigger] old(self).contents().contains_key(id))) ==> {
                &&& final(self).contents() == old(self).contents().insert(
                    old(self).ids_used(),
                    sample_user(old(self).ids_used()),
                )
                &&& final(self).ids_used() == old(self).ids_used() + 1
            },
    {
        if self.rows.len() > 0 {
            proof {
                lemma_map_at_index(self.rows@, 0);
            }
            return Ok(());
        }
        let req = CreateUserRequest {
            name: String::from_str("John Doe"),
            email: String::from_str("john@example.com"),
            age: Some(30),
        };
        proof {
            assert(!email_taken(self.contents(), req@.email)) by {
                if email_taken(self.contents(), req@.email) {
                    let id = choose|id: u128|
                        #[trigger] self.contents().contains_key(id) && self.contents()[id].email
                            == req@.email;
                    assert(has_id(self.rows@, id));
                }
            }
        }
        let ghost id0 = self.next_id;
        let r = self.create(&req);
        proof {
            match r {
                Ok(u) => {
                    assert(u@ == sample_user(id0));
                },
                Err(_) => {
                    assert(false);
                },
            }
        }
        Ok(())
    }
}

proof fn s_remove_ids_bound(s: Seq<User>, j: int, bound: u128)
    requires
        0 <= j < s.len(),
        forall|i: int| 0 <= i < s.len() ==> (#[trigger] s[i]@.id) < bound,
    ensures
        forall|i: int| 0 <= i < s.remove(j).len() ==> (#[trigger] s.remove(j)[i]@.id) < bound,
{
    let t = s.remove(j);
    s.remove_ensures(j);
    assert forall|i: int| 0 <= i < t.len() implies (#[trigger] t[i]@.id) < bound by {
        let i0 = if i < j { i } else { i + 1 };
        assert(t[i] == s[i0]);
    }
}

} // verus!
