//! What the sign-up session endpoint answers.

use vstd::prelude::*;

verus! {

/// Answer of the sign-up session endpoint: whether a sign-up is under way.
pub struct SignupSessionResponse {
    pub session_exists: bool,
}

/// The answer, given the user id that the session keeps for a sign-up.
pub fn signup_session_response(signup_user_id: Option<String>) -> (r: SignupSessionResponse)
    ensures
        r.session_exists == signup_user_id is Some,
{
    SignupSessionResponse { session_exists: signup_user_id.is_some() }
}

} // verus!
