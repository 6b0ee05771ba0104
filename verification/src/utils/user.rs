use std::collections::HashMap;
use vstd::prelude::*;

use crate::types::types::AuthData;

verus! {

broadcast use vstd::std_specs::hash::group_hash_axioms;

/// A registered account.
#[derive(Clone, Debug)]
pub struct User {
    pub id: u64,
    pub username: String,
    pub password: String,
}

/// Why a sign up or a sign in was refused.
#[derive(Clone, Copy, Debug, PartialEq, Eq, Structural)]
pub enum AuthError {
    /// The id is registered already.
    UserExists,
    /// No account has the id.
    UserNotFound,
    /// The password does not match the account's.
    IncorrectPassword,
    /// A session token did not decode, or lacks a claim.
    InvalidToken,
    /// A session token's expiry has passed.
    TokenExpired,
}

/// Registers an account for `data.user_id`, named by the id in decimal and
/// holding `data.password`; `UserExists` when the id is taken, in which case
/// nothing changes.
pub fn sign_up_user(users: &mut HashMap<u64, User>, data: AuthData) -> (r: Result<(), AuthError>)
    ensures
        old(users)@.contains_key(data.user_id) ==> {
            &&& r == Err::<(), AuthError>(AuthError::UserExists)
            &&& final(users)@ == old(users)@
        },
        !old(users)@.contains_key(data.user_id) ==> {
            let u = final(users)@[data.user_id];
            &&& r == Ok::<(), AuthError>(())
            &&& final(users)@ == old(users)@.insert(data.user_id, u)
            &&& u.id == data.user_id
            &&& u.password == data.password
            &&& vstd::string::to_string_from_display_ensures::<u64>(&data.user_id, u.username)
        },
{
    proof {
        assert(vstd::std_specs::hash::obeys_key_model::<u64>());
    }
    if users.contains_key(&data.user_id) {
        return Err(AuthError::UserExists);
    }
    let username = data.user_id.to_string();
    let new_user = User { id: data.user_id, username, password: data.password };
    users.insert(data.user_id, new_user);
    Ok(())
}

/// Checks the credentials `data`: the account's id when the password
/// matches, `UserNotFound` when no account has the id, `IncorrectPassword`
/// otherwise.
pub fn sign_in_user(users: &HashMap<u64, User>, data: &AuthData) -> (r: Result<u64, AuthError>)
    ensures
        !users@.contains_key(data.user_id) ==> r == Err::<u64, AuthError>(AuthError::UserNotFound),
        users@.contains_key(data.user_id) && users@[data.user_id].password@ == data.password@ ==> r == Ok::<
            u64,
            AuthError,
        >(users@[data.user_id].id),
        users@.contains_key(data.user_id) && users@[data.user_id].password@ != data.password@ ==> r == Err::<
            u64,
            AuthError,
        >(AuthError::IncorrectPassword),
{
    proof {
        assert(vstd::std_specs::hash::obeys_key_model::<u64>());
    }
    match users.get(&data.user_id) {
        Some(u) => {
            if u.password == data.password {
                Ok(u.id)
            } else {
                Err(AuthError::IncorrectPassword)
            }
        },
        None => Err(AuthError::UserNotFound),
    }
}

} // verus!
