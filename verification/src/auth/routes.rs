//! Paths of the authentication endpoints and, in submodules, what their
//! handlers decide.

pub mod login_callback;
pub mod signup;

use vstd::prelude::*;
use vstd::string::*;

verus! {

/// Route paths of the authentication endpoints (current naming).
pub struct AuthPaths;

impl AuthPaths {
    fn auth() -> (s: String)
        ensures
            s@ == "/auth"@,
    {
        "/auth".to_owned()
    }

    /// `/auth/login-callback`
    pub fn login_callback() -> (s: String)
        ensures
            s@ == "/auth/login-callback"@,
    {
        let s = Self::auth().concat("/login-callback");
        proof {
            reveal_strlit("/auth");
            reveal_strlit("/login-callback");
            reveal_strlit("/auth/login-callback");
        }
        s
    }

    /// `/auth/login`
    pub fn login() -> (s: String)
        ensures
            s@ == "/auth/login"@,
    {
        let s = Self::auth().concat("/login");
        proof {
            reveal_strlit("/auth");
            reveal_strlit("/login");
            reveal_strlit("/auth/login");
        }
        s
    }

    /// `/auth/session`
    pub fn session() -> (s: String)
        ensures
            s@ == "/auth/session"@,
    {
        let s = Self::auth().concat("/session");
        proof {
            reveal_strlit("/auth");
            reveal_strlit("/session");
            reveal_strlit("/auth/session");
        }
        s
    }

    /// `/auth/signup`
    pub fn signup() -> (s: String)
        ensures
            s@ == "/auth/signup"@,
    {
        let s = Self::auth().concat("/signup");
        proof {
            reveal_strlit("/auth");
            reveal_strlit("/signup");
            reveal_strlit("/auth/signup");
        }
        s
    }

    /// `/auth/signup-session`
    pub fn signup_session() -> (s: String)
        ensures
            s@ == "/auth/signup-session"@,
    {
        let s = Self::auth().concat("/signup-session");
        proof {
            reveal_strlit("/auth");
            reveal_strlit("/signup-session");
            reveal_strlit("/auth/signup-session");
        }
        s
    }

    /// `/auth/cancel-signup`
    pub fn cancel_signup() -> (s: String)
        ensures
            s@ == "/auth/cancel-signup"@,
    {
        let s = Self::auth().concat("/cancel-signup");
        proof {
            reveal_strlit("/auth");
            reveal_strlit("/cancel-signup");
            reveal_strlit("/auth/cancel-signup");
        }
        s
    }

    /// `/auth/logout`
    pub fn logout() -> (s: String)
        ensures
            s@ == "/auth/logout"@,
    {
        let s = Self::auth().concat("/logout");
        proof {
            reveal_strlit("/auth");
            reveal_strlit("/logout");
            reveal_strlit("/auth/logout");
        }
        s
    }
}

} // verus!
