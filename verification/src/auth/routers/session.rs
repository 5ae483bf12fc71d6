//! What the session endpoint answers.

use vstd::prelude::*;

use crate::auth::Session;
use crate::user::User;

verus! {

/// Answer of the session endpoint: the signed-in user's session, if any.
pub struct SessionResponse {
    pub session: Option<Session>,
}

/// The session of the signed-in user, if there is one.
pub open spec fn session_of(user: Option<User>) -> Option<Session> {
    match user {
        Some(u) => Some(Session { user: u }),
        None => None,
    }
}

/// The answer for the signed-in user `user`.
pub fn session_response(user: Option<User>) -> (r: SessionResponse)
    ensures
        r.session == session_of(user),
{
    let session = match user {
        Some(u) => Some(Session { user: u }),
        None => None,
    };
    SessionResponse { session }
}

} // verus!
