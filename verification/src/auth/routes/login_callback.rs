//! What the sign-in callback decides once the identity provider answered.

use vstd::prelude::*;
use vstd::string::*;

use crate::error::{AppError, BAD_REQUEST, INTERNAL_SERVER_ERROR, UNAUTHORIZED};
use crate::user::User;

verus! {

/// What the identity provider's answer came to.
pub enum Authentication {
    /// The person signed in as a registered user.
    Authenticated(User),
    /// The person signed in, but no user is registered under this id.
    UserNotFound(String),
    /// The answer named nobody.
    Nobody,
    /// The check of the answer failed.
    Failed,
}

/// What the callback does next.
pub enum LoginCallbackAction {
    /// Sign `user` in and send the browser to `redirect`.
    Login { user: User, redirect: String },
    /// Start a fresh sign-up session for `user_id` and send the browser to
    /// `redirect`.
    StartSignup { user_id: String, redirect: String },
}

/// `client_url` followed by `path`: where the browser is sent on the client.
pub fn client_redirect(client_url: &str, path: &str) -> (s: String)
    ensures
        s@ == client_url@ + path@,
{
    client_url.to_string().concat(path)
}

/// The path to show after signing in, which the sign-in step stored in the
/// session; the callback is refused with `400` when the session misses the
/// CSRF state, the nonce or that path.
pub fn callback_session(state_found: bool, nonce_found: bool, after_login_redirect: Option<String>)
    -> (r: Result<String, AppError>)
    ensures
        state_found && nonce_found && after_login_redirect is Some
            ==> (r matches Ok(p) && p@ == after_login_redirect->0@),
        !(state_found && nonce_found && after_login_redirect is Some)
            ==> r == Err::<String, AppError>(AppError { code: BAD_REQUEST, body: None }),
{
    if !state_found || !nonce_found {
        return Err(AppError::new(BAD_REQUEST));
    }
    match after_login_redirect {
        Some(p) => Ok(p),
        None => Err(AppError::new(BAD_REQUEST)),
    }
}

/// The next step once the answer is known: a registered user is signed in
/// and sent to `after_login_redirect`; an unknown one starts a sign-up and
/// is sent to `signup_page`; an answer that names nobody is `401`, a failed
/// check `500`. Paths are on the client at `client_url`.
pub fn login_callback_action(
    client_url: &str,
    signup_page: &str,
    after_login_redirect: &str,
    outcome: Authentication,
) -> (r: Result<LoginCallbackAction, AppError>)
    ensures
        match outcome {
            Authentication::Authenticated(u) => r matches Ok(LoginCallbackAction::Login { user, redirect })
                && user == u && redirect@ == client_url@ + after_login_redirect@,
            Authentication::UserNotFound(id) => r matches Ok(LoginCallbackAction::StartSignup { user_id, redirect })
                && user_id@ == id@ && redirect@ == client_url@ + signup_page@,
            Authentication::Nobody => r == Err::<LoginCallbackAction, AppError>(AppError { code: UNAUTHORIZED, body: None }),
            Authentication::Failed => r == Err::<LoginCallbackAction, AppError>(AppError { code: INTERNAL_SERVER_ERROR, body: None }),
        },
{
    match outcome {
        Authentication::Authenticated(user) => {
            let redirect = client_redirect(client_url, after_login_redirect);
            Ok(LoginCallbackAction::Login { user, redirect })
        },
        Authentication::UserNotFound(user_id) => {
            let redirect = client_redirect(client_url, signup_page);
            Ok(LoginCallbackAction::StartSignup { user_id, redirect })
        },
        Authentication::Nobody => Err(AppError::new(UNAUTHORIZED)),
        Authentication::Failed => Err(AppError::new(INTERNAL_SERVER_ERROR)),
    }
}

/// Whether a status code is a client error (`4xx`) or a server error (`5xx`).
pub open spec fn is_error_status(code: u16) -> bool {
    400 <= code <= 599
}

/// Errors of the callback cannot be shown by the client, so an error answer
/// is replaced by a redirect to the client's error page; other answers stay.
pub fn error_page_redirect(status: u16, client_url: &str, auth_error_page: &str) -> (r: Option<String>)
    ensures
        is_error_status(status) ==> (r matches Some(s) && s@ == client_url@ + auth_error_page@),
        !is_error_status(status) ==> r is None,
{
    if 400 <= status && status <= 599 {
        Some(client_redirect(client_url, auth_error_page))
    } else {
        None
    }
}

} // verus!
