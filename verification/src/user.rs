use vstd::prelude::*;

verus! {

/// Mathematical image of a user record: the identifier together with the
/// plain value of every field.
pub ghost struct UserView {
    pub id: u128,
    pub name: Seq<char>,
    pub email: Seq<char>,
    pub age: Option<u8>,
}

/// A user entity as the store and the cache hold it.  The identifier is a
/// 128-bit key generated by the store at creation time and never reassigned.
#[derive(Debug, PartialEq, Eq)]
pub struct User {
    pub id: u128,
    pub name: String,
    pub email: String,
    pub age: Option<u8>,
}

impl View for User {
    type V = UserView;

    open spec fn view(&self) -> UserView {
        UserView { id: self.id, name: self.name@, email: self.email@, age: self.age }
    }
}

impl Clone for User {
    fn clone(&self) -> (r: Self)
        ensures
            r == *self,
    {
        User {
            id: self.id,
            name: self.name.clone(),
            email: self.email.clone(),
            age: self.age,
        }
    }
}

/// The fields a caller supplies when creating an entity; the store picks the
/// identifier.
pub ghost struct CreateReqView {
    pub name: Seq<char>,
    pub email: Seq<char>,
    pub age: Option<u8>,
}

#[derive(Debug)]
pub struct CreateUserRequest {
    pub name: String,
    pub email: String,
    pub age: Option<u8>,
}

impl View for CreateUserRequest {
    type V = CreateReqView;

    open spec fn view(&self) -> CreateReqView {
        CreateReqView { name: self.name@, email: self.email@, age: self.age }
    }
}

/// A partial update: a field that is present replaces the stored value, a
/// field that is absent means "no change" (there is no field clearing).
pub ghost struct UpdateReqView {
    pub name: Option<Seq<char>>,
    pub email: Option<Seq<char>>,
    pub age: Option<u8>,
}

#[derive(Debug)]
pub struct UpdateUserRequest {
    pub name: Option<String>,
    pub email: Option<String>,
    pub age: Option<u8>,
}

impl View for UpdateUserRequest {
    type V = UpdateReqView;

    open spec fn view(&self) -> UpdateReqView {
        UpdateReqView {
            name: match self.name {
                Some(s) => Some(s@),
                None => None,
            },
            email: match self.email {
                Some(s) => Some(s@),
                None => None,
            },
            age: self.age,
        }
    }
}

/// The image of an optional entity.
pub open spec fn opt_user_view(o: Option<User>) -> Option<UserView> {
    match o {
        Some(u) => Some(u@),
        None => None,
    }
}

/// The merge an update performs: a field present in the request replaces the
/// stored one, an absent field keeps it, and the identifier never changes.
pub open spec fn apply_update(u: UserView, r: UpdateReqView) -> UserView {
    UserView {
        id: u.id,
        name: match r.name {
            Some(n) => n,
            None => u.name,
        },
        email: match r.email {
            Some(e) => e,
            None => u.email,
        },
        age: match r.age {
            Some(a) => Some(a),
            None => u.age,
        },
    }
}

/// Build the entity that results from applying the partial update `r` to `u`.
pub fn merged_user(u: &User, r: &UpdateUserRequest) -> (m: User)
    ensures
        m@ == apply_update(u@, r@),
{
    User {
        id: u.id,
        name: match &r.name {
            Some(n) => n.clone(),
            None => u.name.clone(),
        },
        email: match &r.email {
            Some(e) => e.clone(),
            None => u.email.clone(),
        },
        age: match r.age {
            Some(a) => Some(a),
            None => u.age,
        },
    }
}

} // verus!
