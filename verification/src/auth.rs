//! Authentication: the session a signed-in user holds, and the rules of the
//! sign-in and sign-up endpoints.

pub mod routers;
pub mod routes;

use vstd::prelude::*;

use crate::auth::routes::login_callback::Authentication;
use crate::user::User;

verus! {

/// The session of a signed-in user.
pub struct Session {
    pub user: User,
}

/// The first check of a sign-in answer: the CSRF state it carries must be
/// the one stored when the sign-in started; when it differs, the answer
/// names nobody.
pub fn same_state(old_state: &str, new_state: &str) -> (r: bool)
    ensures
        r == (old_state@ == new_state@),
{
    let old = old_state.to_string();
    let new = new_state.to_string();
    old == new
}

/// The last step of a sign-in: the user registered under the subject of the
/// verified token, or, when there is none, a sign-up for that subject.
pub fn authentication_from_lookup(subject: String, found: Option<User>)
    -> (r: Authentication)
    ensures
        found is Some ==> r == Authentication::Authenticated(found->0),
        found is None ==> (r matches Authentication::UserNotFound(id) && id@ == subject@),
{
    match found {
        Some(user) => Authentication::Authenticated(user),
        None => Authentication::UserNotFound(subject),
    }
}

} // verus!
