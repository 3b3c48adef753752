//! The user registry: sequentially assigned ids, globally unique names,
//! and the create-or-rename operation.

use vstd::prelude::*;

use crate::errors::ApiError;
use crate::text::str_eq;

verus! {

/// A registered user. A freshly submitted record carries no id; the
/// registry assigns the next sequential one.
#[derive(Debug)]
pub struct User {
    pub id: Option<u32>,
    pub name: String,
}

impl Clone for User {
    fn clone(&self) -> (r: User)
        ensures
            r == *self,
    {
        User { id: self.id, name: self.name.clone() }
    }
}

/// Registry invariant: the user stored at index `i` carries id `i`.
pub open spec fn users_wf(users: Seq<User>) -> bool {
    forall|i: int| 0 <= i < users.len() ==> users[i].id == Some(i as u32)
}

/// Whether some registered user carries this name.
pub open spec fn has_user_name(users: Seq<User>, name: Seq<char>) -> bool {
    exists|i: int| 0 <= i < users.len() && users[i].name@ == name
}

/// Whether some registered user carries this id.
pub open spec fn has_user_id(users: Seq<User>, id: u32) -> bool {
    exists|i: int| 0 <= i < users.len() && users[i].id == Some(id)
}

/// Decides [`has_user_id`].
pub fn find_user_by_id(users: &Vec<User>, id: u32) -> (r: Option<usize>)
    ensures
        match r {
            Some(i) => i < users@.len() && users@[i as int].id == Some(id) && forall|j: int|
                0 <= j < i ==> users@[j].id != Some(id),
            None => !has_user_id(users@, id),
        },
{
    let n = users.len();
    let mut i: usize = 0;
    while i < n
        invariant
            i <= n,
            n == users@.len(),
            forall|j: int| 0 <= j < i ==> users@[j].id != Some(id),
        decreases n - i,
    {
        let matches = match users[i].id {
            Some(uid) => uid == id,
            None => false,
        };
        if matches {
            return Some(i);
        }
        i = i + 1;
    }
    None
}

/// Decides [`has_user_name`].
fn name_taken(users: &Vec<User>, name: &str) -> (r: bool)
    ensures
        r == has_user_name(users@, name@),
{
    let n = users.len();
    let mut i: usize = 0;
    while i < n
        invariant
            i <= n,
            n == users@.len(),
            forall|j: int| 0 <= j < i ==> users@[j].name@ != name@,
        decreases n - i,
    {
        if str_eq(users[i].name.as_str(), name) {
            return true;
        }
        i = i + 1;
    }
    false
}

/// Creates a user (no id given) or renames one (id given).
///
/// A create rejects a taken name; a rename rejects an unknown id, then a
/// taken name — the user's own current name included.
pub fn post_user(users: &mut Vec<User>, user: User) -> (r: Result<User, ApiError>)
    requires
        old(users)@.len() < u32::MAX,
    ensures
        match user.id {
            None => {
                if has_user_name(old(users)@, user.name@) {
                    r == Err::<User, ApiError>(ApiError::InvalidArgument) && final(users)@ == old(users)@
                } else {
                    &&& r matches Ok(u) && u.id == Some(old(users)@.len() as u32) && u.name
                        == user.name
                    &&& final(users)@ == old(users)@.push(
                        User { id: Some(old(users)@.len() as u32), name: user.name },
                    )
                }
            },
            Some(uid) => {
                if !has_user_id(old(users)@, uid) {
                    r == Err::<User, ApiError>(ApiError::NotFound) && final(users)@ == old(users)@
                } else if has_user_name(old(users)@, user.name@) {
                    r == Err::<User, ApiError>(ApiError::InvalidArgument) && final(users)@ == old(users)@
                } else {
                    exists|i: int|
                        {
                            &&& 0 <= i < old(users)@.len()
                            &&& old(users)@[i].id == Some(uid)
                            &&& (forall|j: int| 0 <= j < i ==> old(users)@[j].id != Some(uid))
                            &&& final(users)@ == old(users)@.update(
                                i,
                                User { id: old(users)@[i].id, name: user.name },
                            )
                            &&& r matches Ok(u) && u.id == Some(uid) && u.name == user.name
                        }
                }
            },
        },
        users_wf(old(users)@) ==> users_wf(final(users)@),
{
    match user.id {
        None => {
            if name_taken(users, user.name.as_str()) {
                Err(ApiError::InvalidArgument)
            } else {
                let id: u32 = users.len() as u32;
                let stored = User { id: Some(id), name: user.name.clone() };
                users.push(stored);
                proof {
                    assert(users_wf(old(users)@) ==> users_wf(users@));
                }
                Ok(User { id: Some(id), name: user.name })
            }
        },
        Some(uid) => {
            match find_user_by_id(users, uid) {
                None => Err(ApiError::NotFound),
                Some(i) => {
                    if name_taken(users, user.name.as_str()) {
                        Err(ApiError::InvalidArgument)
                    } else {
                        let renamed = User { id: users[i].id, name: user.name.clone() };
                        users[i] = renamed;
                        proof {
                            assert(users_wf(old(users)@) ==> users_wf(users@));
                        }
                        Ok(User { id: Some(uid), name: user.name })
                    }
                },
            }
        },
    }
}

} // verus!
