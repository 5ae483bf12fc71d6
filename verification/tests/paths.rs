use task_server::auth::routers::Paths as AuthRouterPaths;
use task_server::auth::routes::AuthPaths;
use task_server::block_task::routes::BlockTaskPaths;
use task_server::sub_task::routes::SubTaskPaths;
use task_server::task::routers::Paths as TaskRouterPaths;
use task_server::task::routes::TaskPaths;

#[test]
fn auth_paths() {
    assert_eq!(AuthPaths::login_callback(), "/auth/login-callback");
    assert_eq!(AuthPaths::login(), "/auth/login");
    assert_eq!(AuthPaths::session(), "/auth/session");
    assert_eq!(AuthPaths::signup(), "/auth/signup");
    assert_eq!(AuthPaths::signup_session(), "/auth/signup-session");
    assert_eq!(AuthPaths::cancel_signup(), "/auth/cancel-signup");
    assert_eq!(AuthPaths::logout(), "/auth/logout");
}

#[test]
fn auth_router_paths() {
    assert_eq!(AuthRouterPaths::login_callback(), "/auth/login-callback");
    assert_eq!(AuthRouterPaths::login(), "/auth/login");
    assert_eq!(AuthRouterPaths::session(), "/auth/session");
    assert_eq!(AuthRouterPaths::signup(), "/auth/signup");
    assert_eq!(AuthRouterPaths::signup_session(), "/auth/signup-session");
    assert_eq!(AuthRouterPaths::cancel_signup(), "/auth/cancel-signup");
    assert_eq!(AuthRouterPaths::logout(), "/auth/logout");
}

#[test]
fn task_paths() {
    assert_eq!(TaskPaths::tasks(), "/tasks");
    assert_eq!(TaskPaths::task(), "/tasks/:id");
    assert_eq!(TaskPaths::task_open_api(), "/tasks/{id}");
    assert_eq!(TaskPaths::update_task_status_base(), "/update-status");
    assert_eq!(TaskPaths::update_task_status(), "/tasks/:id/update-status");
    assert_eq!(TaskPaths::update_task_status_open_api(), "/tasks/{id}/update-status");
    assert_eq!(TaskPaths::subtask(), "/subtask");
    assert_eq!(TaskPaths::connect_subtask(), "/subtask/connect");
    assert_eq!(TaskPaths::reconnect_subtask(), "/subtask/reconnect");
    assert_eq!(TaskPaths::disconnect_subtask(), "/subtask/disconnect");
    assert_eq!(TaskPaths::block_task(), "/block-task");
    assert_eq!(TaskPaths::connect_block_task(), "/block-task/connect");
    assert_eq!(TaskPaths::reconnect_block_task(), "/block-task/reconnect");
    assert_eq!(TaskPaths::disconnect_block_task(), "/block-task/disconnect");
}

#[test]
fn task_paths_of_one_task() {
    assert_eq!(TaskPaths::one_task("abc"), "/tasks/abc");
    assert_eq!(TaskPaths::one_update_task_status("abc"), "/tasks/abc/update-status");
}

#[test]
fn task_router_paths() {
    assert_eq!(TaskRouterPaths::tasks(), "/tasks");
    assert_eq!(TaskRouterPaths::task(), "/tasks/:id");
    assert_eq!(TaskRouterPaths::oas_task(), "/tasks/{id}");
}

#[test]
fn sub_task_paths() {
    assert_eq!(SubTaskPaths::sub_task(), "/sub-task");
    assert_eq!(SubTaskPaths::connect_sub_task(), "/sub-task/connect");
    assert_eq!(SubTaskPaths::reconnect_sub_task(), "/sub-task/reconnect");
    assert_eq!(SubTaskPaths::disconnect_sub_task(), "/sub-task/disconnect");
}

#[test]
fn block_task_paths() {
    assert_eq!(BlockTaskPaths::block_task(), "/block-task");
    assert_eq!(BlockTaskPaths::connect_block_task(), "/block-task/connect");
    assert_eq!(BlockTaskPaths::reconnect_block_task(), "/block-task/reconnect");
    assert_eq!(BlockTaskPaths::disconnect_block_task(), "/block-task/disconnect");
}
