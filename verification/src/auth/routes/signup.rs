//! The sign-up payload (current naming) and what the sign-up endpoint
//! decides.

use vstd::prelude::*;

use crate::error::AppError;
use crate::task::{byte_len_between, byte_len_within};
use crate::user::User;

verus! {

/// Payload that registers the user under sign-up.
pub struct CreateUser {
    pub name: String,
    pub profile: String,
}

impl CreateUser {
    /// The name holds between 1 and 100 bytes; the profile is not checked.
    pub open spec fn is_valid(&self) -> bool {
        byte_len_within(self.name@, 1, 100)
    }

    /// Checks the payload's rules.
    pub fn validate(&self) -> (r: bool)
        ensures
            r == self.is_valid(),
    {
        byte_len_between(&self.name, 1, 100)
    }
}

/// The user to register, decided as
/// [`crate::auth::routers::signup::signup_user`] decides it.
pub fn signup_user(signup_user_id: Option<String>, payload: CreateUser) -> (r: Result<User, AppError>)
    ensures
        !payload.is_valid() ==> r == Err::<User, AppError>(AppError { code: crate::error::UNPROCESSABLE_ENTITY, body: None }),
        payload.is_valid() && signup_user_id is None ==> r == Err::<User, AppError>(AppError { code: crate::error::BAD_REQUEST, body: None }),
        payload.is_valid() && signup_user_id is Some ==> (r matches Ok(u) && u.id@ == signup_user_id->0@
            && u.name@ == payload.name@ && u.profile@ == payload.profile@),
{
    let older = crate::auth::routers::signup::CreateUser { name: payload.name, profile: payload.profile };
    crate::auth::routers::signup::signup_user(signup_user_id, older)
}

} // verus!
