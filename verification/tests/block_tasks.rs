use task_server::block_task::routes::disconnect_block_task::handler as disconnect_block_task;
use task_server::block_task::{ConnectBlockTask, DisconnectBlockTask, ReconnectBlockTask};
use task_server::error::{AppError, ErrorBody, BAD_REQUEST, INTERNAL_SERVER_ERROR};
use task_server::graph::Link;
use task_server::store::{TaskRecord, TaskStore};
use task_server::task::routes::connect_block_task::{
    handler as connect_block_task, ConnectBlockTaskErrorBody, ConnectBlockTaskErrorType,
};
use task_server::task::routes::reconnect_block_task::handler as reconnect_block_task;
use task_server::task::TaskStatus;
use task_server::user::User;

fn user(id: &str) -> User {
    User { id: id.to_string(), name: "name".to_string(), profile: String::new() }
}

fn task(id: &str, user_id: &str, status: TaskStatus) -> TaskRecord {
    TaskRecord {
        id: id.to_string(),
        title: "title".to_string(),
        description: "description".to_string(),
        user_id: user_id.to_string(),
        status,
        created_at: String::new(),
        updated_at: String::new(),
    }
}

fn link(parent: &str, child: &str, user_id: &str) -> Link {
    Link { parent: parent.to_string(), child: child.to_string(), user_id: user_id.to_string() }
}

fn store(tasks: Vec<TaskRecord>, subs: Vec<Link>, blocks: Vec<Link>) -> TaskStore {
    TaskStore { tasks, sub_tasks: subs, blocking_tasks: blocks }
}

fn status(db: &TaskStore, id: &str) -> TaskStatus {
    db.tasks.iter().find(|t| t.id == id).unwrap().status
}

fn has_link(links: &[Link], parent: &str, child: &str) -> bool {
    links.iter().any(|l| l.parent == parent && l.child == child)
}

fn todo(id: &str) -> TaskRecord {
    task(id, "u1", TaskStatus::Todo)
}

fn connect(db: &mut TaskStore, blocking: &str, blocked: &str) -> Result<(), AppError> {
    let payload = ConnectBlockTask { blocking_task_id: blocking.to_string(), blocked_task_id: blocked.to_string() };
    connect_block_task(db, Some(&user("u1")), &payload)
}

fn refusal(t: ConnectBlockTaskErrorType) -> AppError {
    AppError { code: BAD_REQUEST, body: Some(ErrorBody::ConnectBlockTask(ConnectBlockTaskErrorBody { error_type: t })) }
}

#[test]
fn connect_block_task_records_the_link() {
    let mut db = store(vec![todo("blocking"), todo("blocked")], vec![], vec![]);
    assert_eq!(connect(&mut db, "blocking", "blocked"), Ok(()));
    assert_eq!(db.blocking_tasks.len(), 1);
    assert_eq!(db.blocking_tasks[0].parent, "blocking");
    assert_eq!(db.blocking_tasks[0].child, "blocked");
    assert_eq!(db.blocking_tasks[0].user_id, "u1");
}

#[test]
fn connect_block_task_refuses_a_task_of_another_user() {
    let mut db = store(vec![task("other", "u2", TaskStatus::Todo), todo("blocking")], vec![], vec![]);
    let r = connect(&mut db, "blocking", "other");
    assert_eq!(r, Err(refusal(ConnectBlockTaskErrorType::TaskNotFound)));
    assert!(db.blocking_tasks.is_empty());
}

#[test]
fn connect_block_task_refuses_the_task_itself() {
    let mut db = store(vec![todo("blocking")], vec![], vec![]);
    let r = connect(&mut db, "blocking", "blocking");
    assert!(r.is_err());
    assert!(db.blocking_tasks.is_empty());
}

#[test]
fn connect_block_task_refuses_a_main_task_blocking_its_sub_task() {
    let mut db = store(
        vec![todo("main"), todo("sub1"), todo("sub11"), todo("sub12"), todo("sub111"), todo("sub112")],
        vec![
            link("main", "sub1", "u1"),
            link("sub1", "sub11", "u1"),
            link("sub1", "sub12", "u1"),
            link("sub11", "sub111", "u1"),
            link("sub11", "sub112", "u1"),
        ],
        vec![],
    );
    let r = connect(&mut db, "main", "sub112");
    assert_eq!(r, Err(refusal(ConnectBlockTaskErrorType::IsSubTask)));
    assert!(db.blocking_tasks.is_empty());
}

#[test]
fn connect_block_task_refuses_a_cycle() {
    let mut db = store(
        vec![todo("blocking"), todo("blocked1"), todo("blocked11")],
        vec![],
        vec![link("blocking", "blocked1", "u1"), link("blocked1", "blocked11", "u1")],
    );
    let r = connect(&mut db, "blocked11", "blocking");
    assert_eq!(r, Err(refusal(ConnectBlockTaskErrorType::CircularTask)));
    assert!(!has_link(&db.blocking_tasks, "blocked11", "blocking"));
    assert_eq!(db.blocking_tasks.len(), 2);
}

#[test]
fn connect_block_task_refuses_a_sub_task_blocking_what_blocks_its_main_task() {
    let mut db = store(
        vec![todo("blocking"), todo("blocked1"), todo("sub")],
        vec![link("blocked1", "sub", "u1")],
        vec![link("blocking", "blocked1", "u1")],
    );
    let r = connect(&mut db, "sub", "blocking");
    assert!(r.is_err());
    assert!(!has_link(&db.blocking_tasks, "sub", "blocking"));
}

#[test]
fn connect_block_task_answers_a_server_error_for_a_recorded_pair() {
    let mut db = store(vec![todo("a"), todo("b")], vec![], vec![link("a", "b", "u1")]);
    let r = connect(&mut db, "a", "b");
    assert_eq!(r, Err(AppError { code: INTERNAL_SERVER_ERROR, body: None }));
    assert_eq!(db.blocking_tasks.len(), 1);
}

#[test]
fn reconnect_block_task_moves_the_link() {
    let mut db = store(vec![todo("task1"), todo("task2"), todo("task3")], vec![], vec![link("task1", "task2", "u1")]);
    let payload = ReconnectBlockTask {
        old_blocking_task_id: "task1".to_string(),
        old_blocked_task_id: "task2".to_string(),
        new_blocking_task_id: "task2".to_string(),
        new_blocked_task_id: "task3".to_string(),
    };
    assert_eq!(reconnect_block_task(&mut db, Some(&user("u1")), &payload), Ok(()));
    assert!(!has_link(&db.blocking_tasks, "task1", "task2"));
    assert!(has_link(&db.blocking_tasks, "task2", "task3"));
}

#[test]
fn reconnect_block_task_refused_keeps_the_old_link() {
    let mut db = store(vec![todo("task1"), todo("task2")], vec![], vec![link("task1", "task2", "u1")]);
    let payload = ReconnectBlockTask {
        old_blocking_task_id: "task1".to_string(),
        old_blocked_task_id: "task2".to_string(),
        new_blocking_task_id: "task2".to_string(),
        new_blocked_task_id: "task2".to_string(),
    };
    assert!(reconnect_block_task(&mut db, Some(&user("u1")), &payload).is_err());
    assert!(has_link(&db.blocking_tasks, "task1", "task2"));
    assert_eq!(db.blocking_tasks.len(), 1);
}

#[test]
fn disconnect_block_task_removes_the_link() {
    let mut db = store(vec![todo("blocking"), todo("blocked")], vec![], vec![link("blocking", "blocked", "u1")]);
    let payload = DisconnectBlockTask { blocking_task_id: "blocking".to_string(), blocked_task_id: "blocked".to_string() };
    assert_eq!(disconnect_block_task(&mut db, Some(&user("u1")), &payload), Ok(()));
    assert!(db.blocking_tasks.is_empty());
}

#[test]
fn disconnect_block_task_keeps_a_link_of_another_user() {
    let mut db = store(
        vec![task("ob", "u2", TaskStatus::Todo), task("od", "u2", TaskStatus::Todo)],
        vec![],
        vec![link("ob", "od", "u2")],
    );
    let payload = DisconnectBlockTask { blocking_task_id: "ob".to_string(), blocked_task_id: "od".to_string() };
    let r = disconnect_block_task(&mut db, Some(&user("u1")), &payload);
    assert_eq!(r, Err(AppError { code: INTERNAL_SERVER_ERROR, body: None }));
    assert_eq!(db.blocking_tasks.len(), 1);
}
