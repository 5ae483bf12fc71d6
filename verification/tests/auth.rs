use task_server::auth::routers::login::{after_login_redirect, LoginRedirectsQuery};
use task_server::auth::routers::session::session_response;
use task_server::auth::routers::signup::{signup_user, CreateUser};
use task_server::auth::routers::signup_session::signup_session_response;
use task_server::auth::routes::login_callback::{
    callback_session, client_redirect, error_page_redirect, login_callback_action, Authentication,
    LoginCallbackAction,
};
use task_server::auth::routes::signup::{signup_user as current_signup_user, CreateUser as CurrentCreateUser};
use task_server::auth::{authentication_from_lookup, same_state};
use task_server::error::{AppError, BAD_REQUEST, INTERNAL_SERVER_ERROR, UNAUTHORIZED, UNPROCESSABLE_ENTITY};
use task_server::user::User;

fn user(id: &str) -> User {
    User { id: id.to_string(), name: "name".to_string(), profile: "profile".to_string() }
}

#[test]
fn after_login_redirect_defaults_to_the_root() {
    let r = after_login_redirect(LoginRedirectsQuery { after_login_redirect: None });
    assert_eq!(r, Some("/".to_string()));
}

#[test]
fn after_login_redirect_keeps_a_path() {
    let r = after_login_redirect(LoginRedirectsQuery { after_login_redirect: Some("/tasks/1".to_string()) });
    assert_eq!(r, Some("/tasks/1".to_string()));
}

#[test]
fn after_login_redirect_refuses_what_is_not_a_path() {
    let q = LoginRedirectsQuery { after_login_redirect: Some("https://example.com/".to_string()) };
    assert_eq!(after_login_redirect(q), None);
    let q = LoginRedirectsQuery { after_login_redirect: Some(String::new()) };
    assert_eq!(after_login_redirect(q), None);
}

#[test]
fn session_response_holds_the_signed_in_user() {
    let r = session_response(Some(user("u1")));
    assert_eq!(r.session.unwrap().user.id, "u1");
    assert!(session_response(None).session.is_none());
}

#[test]
fn signup_session_response_tells_whether_a_sign_up_is_under_way() {
    assert!(signup_session_response(Some("sub".to_string())).session_exists);
    assert!(!signup_session_response(None).session_exists);
}

#[test]
fn signup_user_registers_the_user_under_sign_up() {
    let payload = CreateUser { name: "alice".to_string(), profile: "hello".to_string() };
    let u = signup_user(Some("sub-1".to_string()), payload).ok().unwrap();
    assert_eq!(u.id, "sub-1");
    assert_eq!(u.name, "alice");
    assert_eq!(u.profile, "hello");
}

#[test]
fn signup_user_refuses_without_a_sign_up_session() {
    let payload = CreateUser { name: "alice".to_string(), profile: String::new() };
    assert_eq!(signup_user(None, payload).err(), Some(AppError { code: BAD_REQUEST, body: None }));
}

#[test]
fn signup_user_refuses_an_empty_name() {
    let payload = CreateUser { name: String::new(), profile: String::new() };
    let r = signup_user(Some("sub-1".to_string()), payload);
    assert_eq!(r.err(), Some(AppError { code: UNPROCESSABLE_ENTITY, body: None }));
}

#[test]
fn current_signup_user_decides_alike() {
    let payload = CurrentCreateUser { name: "bob".to_string(), profile: String::new() };
    let u = current_signup_user(Some("sub-2".to_string()), payload).ok().unwrap();
    assert_eq!(u.id, "sub-2");
    assert_eq!(u.name, "bob");
    let payload = CurrentCreateUser { name: "bob".to_string(), profile: String::new() };
    assert_eq!(current_signup_user(None, payload).err(), Some(AppError { code: BAD_REQUEST, body: None }));
}

#[test]
fn callback_session_needs_state_nonce_and_redirect() {
    assert_eq!(callback_session(true, true, Some("/tasks".to_string())), Ok("/tasks".to_string()));
    let bad = Err(AppError { code: BAD_REQUEST, body: None });
    assert_eq!(callback_session(false, true, Some("/".to_string())), bad);
    assert_eq!(callback_session(true, false, Some("/".to_string())), bad);
    assert_eq!(callback_session(true, true, None), bad);
}

#[test]
fn login_callback_signs_a_registered_user_in() {
    let r = login_callback_action("http://localhost:3000", "/signup", "/tasks", Authentication::Authenticated(user("u1")));
    match r {
        Ok(LoginCallbackAction::Login { user, redirect }) => {
            assert_eq!(user.id, "u1");
            assert_eq!(redirect, "http://localhost:3000/tasks");
        },
        _ => panic!("expected a sign-in"),
    }
}

#[test]
fn login_callback_starts_a_sign_up_for_an_unknown_user() {
    let r = login_callback_action("http://localhost:3000", "/signup", "/tasks", Authentication::UserNotFound("sub".to_string()));
    match r {
        Ok(LoginCallbackAction::StartSignup { user_id, redirect }) => {
            assert_eq!(user_id, "sub");
            assert_eq!(redirect, "http://localhost:3000/signup");
        },
        _ => panic!("expected a sign-up"),
    }
}

#[test]
fn login_callback_refuses_nobody_and_failures() {
    let r = login_callback_action("c", "/s", "/", Authentication::Nobody);
    assert_eq!(r.err(), Some(AppError { code: UNAUTHORIZED, body: None }));
    let r = login_callback_action("c", "/s", "/", Authentication::Failed);
    assert_eq!(r.err(), Some(AppError { code: INTERNAL_SERVER_ERROR, body: None }));
}

#[test]
fn error_page_redirect_replaces_error_answers() {
    let target = Some("http://localhost:3000/auth-error".to_string());
    assert_eq!(error_page_redirect(400, "http://localhost:3000", "/auth-error"), target);
    assert_eq!(error_page_redirect(500, "http://localhost:3000", "/auth-error"), target);
    assert_eq!(error_page_redirect(599, "http://localhost:3000", "/auth-error"), target);
    assert_eq!(error_page_redirect(303, "http://localhost:3000", "/auth-error"), None);
    assert_eq!(error_page_redirect(200, "http://localhost:3000", "/auth-error"), None);
    assert_eq!(error_page_redirect(600, "http://localhost:3000", "/auth-error"), None);
}

#[test]
fn client_redirect_joins_url_and_path() {
    assert_eq!(client_redirect("http://localhost:3000", "/login"), "http://localhost:3000/login");
}

#[test]
fn same_state_compares_the_csrf_states() {
    assert!(same_state("abc", "abc"));
    assert!(!same_state("abc", "abd"));
}

#[test]
fn authentication_from_lookup_turns_a_miss_into_a_sign_up() {
    match authentication_from_lookup("sub".to_string(), None) {
        Authentication::UserNotFound(id) => assert_eq!(id, "sub"),
        _ => panic!("expected a sign-up"),
    }
    match authentication_from_lookup("sub".to_string(), Some(user("sub"))) {
        Authentication::Authenticated(u) => assert_eq!(u.id, "sub"),
        _ => panic!("expected a user"),
    }
}
