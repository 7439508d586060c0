use vstd::prelude::*;

use crate::user::{User, UserView};

verus! {

/// No two records in the sequence carry the same identifier.
pub open spec fn ids_unique(s: Seq<User>) -> bool {
    forall|i: int, j: int| 0 <= i < j < s.len() ==> s[i]@.id != s[j]@.id
}

/// Some record in the sequence carries the identifier `id`.
pub open spec fn has_id(s: Seq<User>, id: u128) -> bool {
    exists|i: int| 0 <= i < s.len() && s[i]@.id == id
}

/// The position of the record carrying `id`; unique when `ids_unique` holds.
pub open spec fn index_of_id(s: Seq<User>, id: u128) -> int {
    choose|i: int| 0 <= i < s.len() && s[i]@.id == id
}

/// The records read as a finite map from identifier to record image.
pub open spec fn map_of(s: Seq<User>) -> Map<u128, UserView> {
    Map::new(|id: u128| has_id(s, id), |id: u128| s[index_of_id(s, id)]@)
}

/// The map holds, under its identifier, exactly the record at each position.
pub proof fn lemma_map_at_index(s: Seq<User>, j: int)
    requires
        ids_unique(s),
        0 <= j < s.len(),
    ensures
        map_of(s).contains_key(s[j]@.id),
        map_of(s)[s[j]@.id] == s[j]@,
{
    let id = s[j]@.id;
    assert(has_id(s, id));
    let i = index_of_id(s, id);
    assert(0 <= i < s.len() && s[i]@.id == id);
    assert(i == j);
}

/// Appending a record with a fresh identifier inserts it into the map.
pub proof fn lemma_map_push(s: Seq<User>, u: User)
    requires
        ids_unique(s),
        !has_id(s, u@.id),
    ensures
        ids_unique(s.push(u)),
        map_of(s.push(u)) =~= map_of(s).insert(u@.id, u@),
{
    let t = s.push(u);
    assert forall|i: int, j: int| 0 <= i < j < t.len() implies t[i]@.id != t[j]@.id by {
        if j < s.len() {
            assert(t[i] == s[i] && t[j] == s[j]);
        } else {
            assert(t[j] == u && t[i] == s[i]);
            if s[i]@.id == u@.id {
                assert(has_id(s, u@.id));
            }
        }
    }
    assert forall|id: u128| #[trigger] map_of(t).contains_key(id) implies map_of(s).insert(
        u@.id,
        u@,
    ).contains_key(id) && map_of(t)[id] == map_of(s).insert(u@.id, u@)[id] by {
        let i = index_of_id(t, id);
        assert(0 <= i < t.len() && t[i]@.id == id);
        lemma_map_at_index(t, i);
        if i < s.len() {
            assert(t[i] == s[i]);
            lemma_map_at_index(s, i);
            if id == u@.id {
                assert(has_id(s, u@.id));
            }
        } else {
            assert(t[i] == u);
        }
    }
    assert forall|id: u128| #[trigger] map_of(s).insert(u@.id, u@).contains_key(id) implies map_of(
        t,
    ).contains_key(id) by {
        if id == u@.id {
            assert(t[s.len() as int]@.id == id);
            assert(has_id(t, id));
        } else {
            let i = index_of_id(s, id);
            assert(0 <= i < s.len() && s[i]@.id == id);
            assert(t[i]@.id == id);
            assert(has_id(t, id));
        }
    }
    assert(map_of(t) =~= map_of(s).insert(u@.id, u@));
}

/// Overwriting the record at a position with one of the same identifier
/// re-inserts that identifier's entry.
pub proof fn lemma_map_update(s: Seq<User>, j: int, u: User)
    requires
        ids_unique(s),
        0 <= j < s.len(),
        u@.id == s[j]@.id,
    ensures
        ids_unique(s.update(j, u)),
        map_of(s.update(j, u)) =~= map_of(s).insert(u@.id, u@),
{
    let t = s.update(j, u);
    assert forall|x: int| 0 <= x < t.len() implies #[trigger] t[x]@.id == s[x]@.id by {
        if x != j {
            assert(t[x] == s[x]);
        }
    }
    assert forall|i: int, k: int| 0 <= i < k < t.len() implies t[i]@.id != t[k]@.id by {
        assert(t[i]@.id == s[i]@.id);
        assert(t[k]@.id == s[k]@.id);
    }
    assert forall|id: u128| #[trigger] map_of(t).contains_key(id) implies map_of(s).insert(
        u@.id,
        u@,
    ).contains_key(id) && map_of(t)[id] == map_of(s).insert(u@.id, u@)[id] by {
        let i = index_of_id(t, id);
        assert(0 <= i < t.len() && t[i]@.id == id);
        lemma_map_at_index(t, i);
        assert(s[i]@.id == id);
        lemma_map_at_index(s, i);
        if id == u@.id {
            assert(i == j);
            assert(t[i] == u);
        } else {
            assert(i != j);
            assert(t[i] == s[i]);
        }
    }
    assert forall|id: u128| #[trigger] map_of(s).insert(u@.id, u@).contains_key(id) implies map_of(
        t,
    ).contains_key(id) by {
        if id == u@.id {
            assert(t[j]@.id == id);
            assert(has_id(t, id));
        } else {
            let i = index_of_id(s, id);
            assert(0 <= i < s.len() && s[i]@.id == id);
            assert(t[i]@.id == id);
            assert(has_id(t, id));
        }
    }
    assert(map_of(t) =~= map_of(s).insert(u@.id, u@));
}

/// Taking out the record at a position removes its identifier from the map.
pub proof fn lemma_map_remove(s: Seq<User>, j: int)
    requires
        ids_unique(s),
        0 <= j < s.len(),
    ensures
        ids_unique(s.remove(j)),
        map_of(s.remove(j)) =~= map_of(s).remove(s[j]@.id),
{
    let t = s.remove(j);
    s.remove_ensures(j);
    let rid = s[j]@.id;
    assert forall|x: int| 0 <= x < t.len() implies #[trigger] t[x] == s[if x < j {
        x
    } else {
        x + 1
    }] by {}
    assert forall|i: int, k: int| 0 <= i < k < t.len() implies t[i]@.id != t[k]@.id by {
        let i0 = if i < j { i } else { i + 1 };
        let k0 = if k < j { k } else { k + 1 };
        assert(t[i] == s[i0] && t[k] == s[k0]);
        assert(0 <= i0 < k0 < s.len());
    }
    assert forall|id: u128| #[trigger] map_of(t).contains_key(id) implies map_of(s).remove(
        rid,
    ).contains_key(id) && map_of(t)[id] == map_of(s).remove(rid)[id] by {
        let i = index_of_id(t, id);
        assert(0 <= i < t.len() && t[i]@.id == id);
        lemma_map_at_index(t, i);
        let i0 = if i < j { i } else { i + 1 };
        assert(t[i] == s[i0]);
        lemma_map_at_index(s, i0);
        assert(i0 != j);
        assert(id != rid);
    }
    assert forall|id: u128| #[trigger] map_of(s).remove(rid).contains_key(id) implies map_of(
        t,
    ).contains_key(id) by {
        let i = index_of_id(s, id);
        assert(0 <= i < s.len() && s[i]@.id == id);
        assert(id != rid);
        assert(i != j);
        let i1 = if i < j { i } else { i - 1 };
        assert(t[i1] == s[i]);
        assert(t[i1]@.id == id);
        assert(has_id(t, id));
    }
    assert(map_of(t) =~= map_of(s).remove(rid));
}

/// Position of the record with identifier `id`, if one is present.
pub fn find_index(v: &Vec<User>, id: u128) -> (r: Option<usize>)
    ensures
        match r {
            Some(j) => j < v@.len() && v@[j as int]@.id == id,
            None => !has_id(v@, id),
        },
{
    let mut k: usize = 0;
    while k < v.len()
        invariant
            k <= v@.len(),
            forall|i: int| 0 <= i < k ==> v@[i]@.id != id,
        decreases v@.len() - k,
    {
        if v[k].id == id {
            return Some(k);
        }
        k = k + 1;
    }
    None
}

} // verus!
