use task_server::error::{AppError, BAD_REQUEST, INTERNAL_SERVER_ERROR};
use task_server::graph::Link;
use task_server::store::{TaskRecord, TaskStore};
use task_server::task::routes::update_task_status::handler as update_task_status;
use task_server::task::{TaskStatus, UpdateTaskStatus};
use task_server::user::User;

fn user(id: &str) -> User {
    User { id: id.to_string(), name: "name".to_string(), profile: String::new() }
}

fn task(id: &str, user_id: &str, status: TaskStatus) -> TaskRecord {
    TaskRecord {
        id: id.to_string(),
        title: "title".to_string(),
        description: "description".to_string(),
        user_id: user_id.to_string(),
        status,
        created_at: String::new(),
        updated_at: String::new(),
    }
}

fn link(parent: &str, child: &str, user_id: &str) -> Link {
    Link { parent: parent.to_string(), child: child.to_string(), user_id: user_id.to_string() }
}

fn store(tasks: Vec<TaskRecord>, subs: Vec<Link>, blocks: Vec<Link>) -> TaskStore {
    TaskStore { tasks, sub_tasks: subs, blocking_tasks: blocks }
}

fn status(db: &TaskStore, id: &str) -> TaskStatus {
    db.tasks.iter().find(|t| t.id == id).unwrap().status
}

fn has_link(links: &[Link], parent: &str, child: &str) -> bool {
    links.iter().any(|l| l.parent == parent && l.child == child)
}

fn todo(id: &str) -> TaskRecord {
    task(id, "u1", TaskStatus::Todo)
}

fn done(id: &str) -> TaskRecord {
    task(id, "u1", TaskStatus::Done)
}

fn set(db: &mut TaskStore, id: &str, status: TaskStatus) -> Result<TaskStatus, AppError> {
    update_task_status(db, Some(&user("u1")), id, &UpdateTaskStatus { status }).map(|t| t.status)
}

#[test]
fn update_task_status_brings_every_main_task_up_to_date() {
    let mut db = store(
        vec![todo("t1"), todo("t12"), todo("t121"), todo("t122"), todo("t123")],
        vec![
            link("t1", "t12", "u1"),
            link("t12", "t121", "u1"),
            link("t12", "t122", "u1"),
            link("t12", "t123", "u1"),
        ],
        vec![],
    );
    assert_eq!(set(&mut db, "t121", TaskStatus::Done), Ok(TaskStatus::Done));
    assert_eq!(set(&mut db, "t122", TaskStatus::Done), Ok(TaskStatus::Done));
    assert_eq!(status(&db, "t12"), TaskStatus::Todo);
    assert_eq!(set(&mut db, "t123", TaskStatus::Done), Ok(TaskStatus::Done));
    for id in ["t1", "t12", "t121", "t122", "t123"] {
        assert_eq!(status(&db, id), TaskStatus::Done);
    }
}

#[test]
fn update_task_status_keeps_the_main_task_todo_until_all_sub_tasks_are_done() {
    let mut db = store(
        vec![todo("t1"), todo("t2"), todo("t3")],
        vec![link("t1", "t2", "u1"), link("t1", "t3", "u1")],
        vec![],
    );
    assert!(set(&mut db, "t2", TaskStatus::Done).is_ok());
    assert_eq!(status(&db, "t1"), TaskStatus::Todo);
    assert_eq!(status(&db, "t2"), TaskStatus::Done);
}

#[test]
fn update_task_status_done_on_a_main_task_makes_every_sub_task_done() {
    let mut db = store(
        vec![todo("main"), todo("sub1"), todo("sub2"), todo("sub11")],
        vec![link("main", "sub1", "u1"), link("main", "sub2", "u1"), link("sub1", "sub11", "u1")],
        vec![],
    );
    assert!(set(&mut db, "main", TaskStatus::Done).is_ok());
    for id in ["main", "sub1", "sub2", "sub11"] {
        assert_eq!(status(&db, id), TaskStatus::Done);
    }
}

#[test]
fn update_task_status_todo_on_a_main_task_makes_every_sub_task_todo() {
    let mut db = store(
        vec![todo("main"), done("sub1"), done("sub2"), done("sub11")],
        vec![link("main", "sub1", "u1"), link("main", "sub2", "u1"), link("sub1", "sub11", "u1")],
        vec![],
    );
    assert!(set(&mut db, "main", TaskStatus::Todo).is_ok());
    for id in ["main", "sub1", "sub2", "sub11"] {
        assert_eq!(status(&db, id), TaskStatus::Todo);
    }
}

#[test]
fn update_task_status_done_is_allowed_when_the_blocking_task_is_done() {
    let mut db = store(vec![done("blocking"), todo("blocked")], vec![], vec![link("blocking", "blocked", "u1")]);
    assert_eq!(set(&mut db, "blocked", TaskStatus::Done), Ok(TaskStatus::Done));
    assert_eq!(status(&db, "blocked"), TaskStatus::Done);
}

#[test]
fn update_task_status_done_is_refused_while_the_blocking_task_is_todo() {
    let mut db = store(vec![todo("blocking"), todo("blocked")], vec![], vec![link("blocking", "blocked", "u1")]);
    assert_eq!(set(&mut db, "blocked", TaskStatus::Done), Err(AppError { code: BAD_REQUEST, body: None }));
    assert_eq!(status(&db, "blocked"), TaskStatus::Todo);
}

#[test]
fn update_task_status_todo_is_allowed_while_the_blocking_task_is_todo() {
    let mut db = store(vec![todo("blocking"), done("blocked")], vec![], vec![link("blocking", "blocked", "u1")]);
    assert_eq!(set(&mut db, "blocked", TaskStatus::Todo), Ok(TaskStatus::Todo));
    assert_eq!(status(&db, "blocked"), TaskStatus::Todo);
}

#[test]
fn update_task_status_done_is_refused_while_a_main_task_is_blocked() {
    let mut db = store(
        vec![todo("blocking"), todo("main"), todo("sub")],
        vec![link("main", "sub", "u1")],
        vec![link("blocking", "main", "u1")],
    );
    assert_eq!(set(&mut db, "sub", TaskStatus::Done), Err(AppError { code: BAD_REQUEST, body: None }));
    assert_eq!(status(&db, "sub"), TaskStatus::Todo);
}

#[test]
fn update_task_status_skips_sub_tasks_under_a_todo_blocking_task() {
    let mut db = store(
        vec![todo("main"), todo("sub1"), todo("sub11"), todo("blocking")],
        vec![link("main", "sub1", "u1"), link("sub1", "sub11", "u1")],
        vec![link("blocking", "sub1", "u1")],
    );
    assert!(set(&mut db, "main", TaskStatus::Done).is_ok());
    assert_eq!(status(&db, "main"), TaskStatus::Todo);
    assert_eq!(status(&db, "sub1"), TaskStatus::Todo);
    assert_eq!(status(&db, "sub11"), TaskStatus::Todo);
}

#[test]
fn update_task_status_skips_a_sub_task_with_one_todo_blocking_task() {
    let mut db = store(
        vec![todo("main"), todo("sub"), done("blocking1"), todo("blocking2")],
        vec![link("main", "sub", "u1")],
        vec![link("blocking1", "sub", "u1"), link("blocking2", "sub", "u1")],
    );
    assert!(set(&mut db, "main", TaskStatus::Done).is_ok());
    assert_eq!(status(&db, "main"), TaskStatus::Todo);
    assert_eq!(status(&db, "sub"), TaskStatus::Todo);
}

#[test]
fn update_task_status_todo_reaches_sub_tasks_whatever_blocks_them() {
    let mut db = store(
        vec![todo("main"), done("sub"), done("blocking1"), todo("blocking2")],
        vec![link("main", "sub", "u1")],
        vec![link("blocking1", "sub", "u1"), link("blocking2", "sub", "u1")],
    );
    assert!(set(&mut db, "main", TaskStatus::Todo).is_ok());
    assert_eq!(status(&db, "main"), TaskStatus::Todo);
    assert_eq!(status(&db, "sub"), TaskStatus::Todo);
}

#[test]
fn update_task_status_reaches_a_sub_task_whose_blocking_task_is_done() {
    let mut db = store(
        vec![todo("main"), todo("sub"), done("blocking")],
        vec![link("main", "sub", "u1")],
        vec![link("blocking", "sub", "u1")],
    );
    assert!(set(&mut db, "main", TaskStatus::Done).is_ok());
    assert_eq!(status(&db, "main"), TaskStatus::Done);
    assert_eq!(status(&db, "sub"), TaskStatus::Done);
}

#[test]
fn update_task_status_answers_a_server_error_for_an_unknown_task() {
    let mut db = store(vec![task("other", "u2", TaskStatus::Todo)], vec![], vec![]);
    assert_eq!(set(&mut db, "other", TaskStatus::Done), Err(AppError { code: INTERNAL_SERVER_ERROR, body: None }));
    assert_eq!(status(&db, "other"), TaskStatus::Todo);
}
