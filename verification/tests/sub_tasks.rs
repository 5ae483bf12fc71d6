use task_server::error::{AppError, ErrorBody, BAD_REQUEST, INTERNAL_SERVER_ERROR, NOT_FOUND, UNAUTHORIZED};
use task_server::graph::Link;
use task_server::store::{TaskRecord, TaskStore};
use task_server::sub_task::routes::connect_sub_task::{
    handler as connect_sub_task, ConnectSubTaskErrorBody, ConnectSubTaskErrorType,
};
use task_server::sub_task::ConnectSubTask;
use task_server::task::routes::connect_subtask::{
    handler as connect_subtask, ConnectSubtaskErrorBody, ConnectSubtaskErrorType,
};
use task_server::task::routes::create_subtask::handler as create_subtask;
use task_server::task::{ConnectSubtask, CreateSubtask, TaskStatus};
use task_server::user::User;

fn user(id: &str) -> User {
    User { id: id.to_string(), name: "name".to_string(), profile: String::new() }
}

fn task(id: &str, user_id: &str, status: TaskStatus) -> TaskRecord {
    TaskRecord {
        id: id.to_string(),
        title: "title".to_string(),
        description: "description".to_string(),
        user_id: user_id.to_string(),
        status,
        created_at: String::new(),
        updated_at: String::new(),
    }
}

fn link(parent: &str, child: &str, user_id: &str) -> Link {
    Link { parent: parent.to_string(), child: child.to_string(), user_id: user_id.to_string() }
}

fn store(tasks: Vec<TaskRecord>, subs: Vec<Link>, blocks: Vec<Link>) -> TaskStore {
    TaskStore { tasks, sub_tasks: subs, blocking_tasks: blocks }
}

fn status(db: &TaskStore, id: &str) -> TaskStatus {
    db.tasks.iter().find(|t| t.id == id).unwrap().status
}

fn has_link(links: &[Link], parent: &str, child: &str) -> bool {
    links.iter().any(|l| l.parent == parent && l.child == child)
}

fn todo(id: &str) -> TaskRecord {
    task(id, "u1", TaskStatus::Todo)
}

fn connect(db: &mut TaskStore, main: &str, sub: &str) -> Result<(), AppError> {
    let payload = ConnectSubTask { main_task_id: main.to_string(), sub_task_id: sub.to_string() };
    connect_sub_task(db, Some(&user("u1")), &payload)
}

fn connect_older(db: &mut TaskStore, parent: &str, sub: &str) -> Result<(), AppError> {
    let payload = ConnectSubtask { parent_task_id: parent.to_string(), subtask_id: sub.to_string() };
    connect_subtask(db, Some(&user("u1")), &payload)
}

fn sub_task_refusal(t: ConnectSubTaskErrorType) -> AppError {
    AppError {
        code: BAD_REQUEST,
        body: Some(ErrorBody::ConnectSubTask(ConnectSubTaskErrorBody { error_type: t })),
    }
}

fn subtask_refusal(t: ConnectSubtaskErrorType) -> AppError {
    AppError {
        code: BAD_REQUEST,
        body: Some(ErrorBody::ConnectSubtask(ConnectSubtaskErrorBody { error_type: t })),
    }
}

#[test]
fn connect_sub_task_records_the_link() {
    let mut db = store(vec![todo("main"), todo("sub")], vec![], vec![]);
    assert_eq!(connect(&mut db, "main", "sub"), Ok(()));
    assert_eq!(db.sub_tasks.len(), 1);
    assert!(has_link(&db.sub_tasks, "main", "sub"));
    assert_eq!(db.sub_tasks[0].user_id, "u1");
}

#[test]
fn connect_sub_task_needs_a_logged_in_user() {
    let mut db = store(vec![todo("main"), todo("sub")], vec![], vec![]);
    let payload = ConnectSubTask { main_task_id: "main".to_string(), sub_task_id: "sub".to_string() };
    let r = connect_sub_task(&mut db, None, &payload);
    assert_eq!(r, Err(AppError { code: UNAUTHORIZED, body: None }));
    assert!(db.sub_tasks.is_empty());
}

#[test]
fn connect_sub_task_refuses_tasks_of_another_user() {
    let mut db = store(
        vec![task("o1", "u2", TaskStatus::Todo), task("o2", "u2", TaskStatus::Todo)],
        vec![],
        vec![],
    );
    let r = connect(&mut db, "o1", "o2");
    assert_eq!(r, Err(sub_task_refusal(ConnectSubTaskErrorType::TaskNotFound)));
    assert!(db.sub_tasks.is_empty());
}

#[test]
fn connect_sub_task_refuses_a_mutual_link() {
    let mut db = store(vec![todo("t1"), todo("t2")], vec![link("t1", "t2", "u1")], vec![]);
    assert!(connect(&mut db, "t2", "t1").is_err());
    assert!(!has_link(&db.sub_tasks, "t2", "t1"));
    assert_eq!(db.sub_tasks.len(), 1);
}

#[test]
fn connect_sub_task_refuses_a_cycle() {
    let mut db = store(
        vec![todo("t1"), todo("t2"), todo("t3"), todo("t4"), todo("t5")],
        vec![
            link("t1", "t2", "u1"),
            link("t2", "t3", "u1"),
            link("t3", "t4", "u1"),
            link("t4", "t5", "u1"),
        ],
        vec![],
    );
    assert!(connect(&mut db, "t5", "t2").is_err());
    assert!(!has_link(&db.sub_tasks, "t5", "t2"));
    assert_eq!(db.sub_tasks.len(), 4);
}

#[test]
fn connect_sub_task_refuses_the_task_itself() {
    let mut db = store(vec![todo("t")], vec![], vec![]);
    let r = connect(&mut db, "t", "t");
    // The same task listed twice is not two distinct tasks of the user.
    assert_eq!(r, Err(sub_task_refusal(ConnectSubTaskErrorType::TaskNotFound)));
    assert!(db.sub_tasks.is_empty());
}

#[test]
fn connect_sub_task_with_a_done_sub_task_makes_the_main_task_done() {
    let mut db = store(vec![todo("main"), task("sub", "u1", TaskStatus::Done)], vec![], vec![]);
    assert_eq!(connect(&mut db, "main", "sub"), Ok(()));
    assert_eq!(status(&db, "main"), TaskStatus::Done);
}

#[test]
fn connect_sub_task_with_a_todo_sub_task_makes_the_main_task_todo() {
    let mut db = store(
        vec![task("main", "u1", TaskStatus::Done), task("done", "u1", TaskStatus::Done), todo("todo")],
        vec![link("main", "done", "u1")],
        vec![],
    );
    assert_eq!(connect(&mut db, "main", "todo"), Ok(()));
    assert_eq!(status(&db, "main"), TaskStatus::Todo);
}

#[test]
fn connect_sub_task_refuses_a_task_that_blocks_the_main_task() {
    let mut db = store(
        vec![todo("blocking"), todo("main"), todo("sub")],
        vec![link("main", "sub", "u1")],
        vec![link("blocking", "main", "u1")],
    );
    assert!(connect(&mut db, "sub", "blocking").is_err());
    assert!(!has_link(&db.sub_tasks, "sub", "blocking"));
}

#[test]
fn connect_sub_task_refuses_a_task_blocked_by_the_main_task() {
    let mut db = store(vec![todo("blocking"), todo("blocked")], vec![], vec![link("blocking", "blocked", "u1")]);
    assert!(connect(&mut db, "blocking", "blocked").is_err());
    assert!(!has_link(&db.sub_tasks, "blocking", "blocked"));
}

#[test]
fn connect_sub_task_refuses_a_second_main_task() {
    let mut db = store(vec![todo("main1"), todo("main2"), todo("sub")], vec![link("main1", "sub", "u1")], vec![]);
    let r = connect(&mut db, "main2", "sub");
    assert_eq!(r, Err(sub_task_refusal(ConnectSubTaskErrorType::MultipleMainTask)));
    assert!(!has_link(&db.sub_tasks, "main2", "sub"));
}

#[test]
fn connect_sub_task_refuses_a_recorded_pair_with_a_server_error() {
    let mut db = store(vec![todo("main"), todo("sub")], vec![link("main", "sub", "u1")], vec![]);
    let r = connect(&mut db, "main", "sub");
    assert!(r.is_err());
    assert_eq!(db.sub_tasks.len(), 1);
}

#[test]
fn connect_subtask_records_the_link() {
    let mut db = store(vec![todo("main"), todo("sub")], vec![], vec![]);
    assert_eq!(connect_older(&mut db, "main", "sub"), Ok(()));
    assert!(has_link(&db.sub_tasks, "main", "sub"));
}

#[test]
fn connect_subtask_refuses_tasks_of_another_user() {
    let mut db = store(
        vec![task("o1", "u2", TaskStatus::Todo), task("o2", "u2", TaskStatus::Todo)],
        vec![],
        vec![],
    );
    let r = connect_older(&mut db, "o1", "o2");
    assert_eq!(r, Err(subtask_refusal(ConnectSubtaskErrorType::TaskNotFound)));
    assert!(db.sub_tasks.is_empty());
}

#[test]
fn connect_subtask_refuses_a_mutual_link() {
    let mut db = store(vec![todo("t1"), todo("t2")], vec![link("t1", "t2", "u1")], vec![]);
    assert!(connect_older(&mut db, "t2", "t1").is_err());
    assert!(!has_link(&db.sub_tasks, "t2", "t1"));
}

#[test]
fn connect_subtask_refuses_a_cycle() {
    let mut db = store(
        vec![todo("t1"), todo("t2"), todo("t3"), todo("t4"), todo("t5")],
        vec![
            link("t1", "t2", "u1"),
            link("t2", "t3", "u1"),
            link("t3", "t4", "u1"),
            link("t4", "t5", "u1"),
        ],
        vec![],
    );
    assert!(connect_older(&mut db, "t5", "t2").is_err());
    assert!(!has_link(&db.sub_tasks, "t5", "t2"));
}

#[test]
fn connect_subtask_refuses_the_task_itself() {
    let mut db = store(vec![todo("t")], vec![], vec![]);
    assert!(connect_older(&mut db, "t", "t").is_err());
    assert!(db.sub_tasks.is_empty());
}

#[test]
fn connect_subtask_with_a_done_sub_task_makes_the_main_task_done() {
    let mut db = store(vec![todo("main"), task("sub", "u1", TaskStatus::Done)], vec![], vec![]);
    assert_eq!(connect_older(&mut db, "main", "sub"), Ok(()));
    assert_eq!(status(&db, "main"), TaskStatus::Done);
}

#[test]
fn connect_subtask_with_a_todo_sub_task_makes_the_main_task_todo() {
    let mut db = store(
        vec![task("main", "u1", TaskStatus::Done), task("done", "u1", TaskStatus::Done), todo("todo")],
        vec![link("main", "done", "u1")],
        vec![],
    );
    assert_eq!(connect_older(&mut db, "main", "todo"), Ok(()));
    assert_eq!(status(&db, "main"), TaskStatus::Todo);
}

#[test]
fn connect_subtask_refuses_a_task_that_blocks_the_main_task() {
    let mut db = store(
        vec![todo("blocking"), todo("main"), todo("sub")],
        vec![link("main", "sub", "u1")],
        vec![link("blocking", "main", "u1")],
    );
    let r = connect_older(&mut db, "sub", "blocking");
    assert!(r.is_err());
    assert!(!has_link(&db.sub_tasks, "sub", "blocking"));
}

#[test]
fn connect_subtask_refuses_a_task_blocked_by_the_main_task() {
    let mut db = store(vec![todo("blocking"), todo("blocked")], vec![], vec![link("blocking", "blocked", "u1")]);
    assert!(connect_older(&mut db, "blocking", "blocked").is_err());
    assert!(!has_link(&db.sub_tasks, "blocking", "blocked"));
}

#[test]
fn connect_subtask_refuses_a_second_main_task() {
    let mut db = store(vec![todo("main1"), todo("main2"), todo("sub")], vec![link("main1", "sub", "u1")], vec![]);
    let r = connect_older(&mut db, "main2", "sub");
    assert_eq!(r, Err(subtask_refusal(ConnectSubtaskErrorType::MultipleMainTask)));
    assert!(!has_link(&db.sub_tasks, "main2", "sub"));
}

#[test]
fn create_subtask_records_the_link() {
    let mut db = store(vec![todo("parent"), todo("sub")], vec![], vec![]);
    let payload = CreateSubtask { parent_task_id: "parent".to_string(), subtask_id: "sub".to_string() };
    assert_eq!(create_subtask(&mut db, Some(&user("u1")), &payload), Ok(()));
    assert!(has_link(&db.sub_tasks, "parent", "sub"));
}

#[test]
fn create_subtask_refuses_tasks_of_another_user() {
    let mut db = store(
        vec![task("o1", "u2", TaskStatus::Todo), task("o2", "u2", TaskStatus::Todo)],
        vec![],
        vec![],
    );
    let payload = CreateSubtask { parent_task_id: "o1".to_string(), subtask_id: "o2".to_string() };
    let r = create_subtask(&mut db, Some(&user("u1")), &payload);
    assert_eq!(r, Err(AppError { code: NOT_FOUND, body: None }));
    assert!(db.sub_tasks.is_empty());
}

#[test]
fn create_subtask_answers_a_server_error_for_a_recorded_pair() {
    let mut db = store(vec![todo("parent"), todo("sub")], vec![link("parent", "sub", "u1")], vec![]);
    let payload = CreateSubtask { parent_task_id: "parent".to_string(), subtask_id: "sub".to_string() };
    let r = create_subtask(&mut db, Some(&user("u1")), &payload);
    assert_eq!(r, Err(AppError { code: INTERNAL_SERVER_ERROR, body: None }));
    assert_eq!(db.sub_tasks.len(), 1);
}

#[test]
fn create_subtask_checks_no_other_rule() {
    let mut db = store(vec![todo("t1"), todo("t2")], vec![link("t1", "t2", "u1")], vec![]);
    let payload = CreateSubtask { parent_task_id: "t2".to_string(), subtask_id: "t1".to_string() };
    assert_eq!(create_subtask(&mut db, Some(&user("u1")), &payload), Ok(()));
    assert!(has_link(&db.sub_tasks, "t1", "t2"));
    assert!(has_link(&db.sub_tasks, "t2", "t1"));
}
