//! The start of the sign-in flow.

use vstd::prelude::*;

verus! {

/// Query of the sign-in endpoint.
pub struct LoginRedirectsQuery {
    /// Path of the page to show after signing in.
    pub after_login_redirect: Option<String>,
}

/// The path to show after signing in: the one asked for, or `/`.
pub open spec fn redirect_path(asked: Option<String>) -> Seq<char> {
    match asked {
        Some(p) => p@,
        None => "/"@,
    }
}

/// Whether a path is one the client can be sent to: it starts with `/`.
pub open spec fn is_client_path(p: Seq<char>) -> bool {
    p.len() > 0 && p[0] == '/'
}

/// The path to store for after the sign-in, or `None` when the one asked
/// for does not start with `/` (the request is then refused with
/// `400 Bad Request`).
pub fn after_login_redirect(query: LoginRedirectsQuery) -> (r: Option<String>)
    ensures
        r is Some <==> is_client_path(redirect_path(query.after_login_redirect)),
        r matches Some(p) ==> p@ == redirect_path(query.after_login_redirect),
{
    let path = match query.after_login_redirect {
        Some(p) => p,
        None => "/".to_owned(),
    };
    proof {
        reveal_strlit("/");
    }
    let s = path.as_str();
    if s.unicode_len() > 0 && s.get_char(0) == '/' {
        Some(path)
    } else {
        None
    }
}

} // verus!
