//! The decisions of the account store that do not depend on the store
//! itself.

use vstd::prelude::*;

verus! {

/// An account: the id of its user and what it signs in with.
#[derive(Debug, Clone, PartialEq, Eq)]
pub struct AuthUser {
    pub id: i64,
    pub email: Option<String>,
    pub hashed_password: Option<String>,
}

/// Why an operation on accounts failed.
#[derive(Debug, Clone, Copy, PartialEq, Eq, Structural)]
pub enum AuthRepoError {
    UserNotFound,
    DatabaseError,
}

impl AuthRepoError {
    /// The error in words.
    pub fn message(&self) -> (text: String)
        ensures
            text@ == match *self {
                AuthRepoError::UserNotFound => "User not found"@,
                AuthRepoError::DatabaseError => "Database error"@,
            },
    {
        match self {
            AuthRepoError::UserNotFound => "User not found".to_owned(),
            AuthRepoError::DatabaseError => "Database error".to_owned(),
        }
    }
}

/// Whether a password reset may be tried with this token: an empty token
/// belongs to no user.
pub fn check_reset_token(token: &str) -> (res: Result<(), AuthRepoError>)
    ensures
        res == if token@.len() == 0 {
            Err::<(), AuthRepoError>(AuthRepoError::UserNotFound)
        } else {
            Ok::<(), AuthRepoError>(())
        },
{
    if token.is_empty() {
        Err(AuthRepoError::UserNotFound)
    } else {
        Ok(())
    }
}

/// The outcome of a password reset from the number of accounts that the
/// update reached: none means that no user holds a valid token.
pub fn reset_outcome(rows_affected: u64) -> (res: Result<(), AuthRepoError>)
    ensures
        res == if rows_affected == 0 {
            Err::<(), AuthRepoError>(AuthRepoError::UserNotFound)
        } else {
            Ok::<(), AuthRepoError>(())
        },
{
    if rows_affected == 0 {
        Err(AuthRepoError::UserNotFound)
    } else {
        Ok(())
    }
}

} // verus!
