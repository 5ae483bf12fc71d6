use task_server::error::{AppError, INTERNAL_SERVER_ERROR, UNAUTHORIZED, UNPROCESSABLE_ENTITY};
use task_server::graph::Link;
use task_server::store::{TaskRecord, TaskStore};
use task_server::sub_task::ReconnectSubTask;
use task_server::task::routes::create_task::{create_with_id as create_task, handler as create_task_with_fresh_id};
use task_server::task::routes::delete_task::handler as delete_task;
use task_server::task::routes::disconnect_subtask::handler as disconnect_subtask;
use task_server::task::routes::get_task::handler as get_task;
use task_server::task::routes::get_tasks::handler as get_tasks;
use task_server::task::routes::reconnect_sub_task::handler as reconnect_sub_task;
use task_server::task::routes::reconnect_subtask::handler as reconnect_subtask;
use task_server::task::routes::update_task::handler as update_task;
use task_server::task::{CreateTask, DisconnectSubtask, ReconnectSubtask, TaskStatus, UpdateTask};
use task_server::user::User;

fn user(id: &str) -> User {
    User { id: id.to_string(), name: "name".to_string(), profile: String::new() }
}

fn task(id: &str, user_id: &str, status: TaskStatus) -> TaskRecord {
    TaskRecord {
        id: id.to_string(),
        title: "title".to_string(),
        description: "description".to_string(),
        user_id: user_id.to_string(),
        status,
        created_at: String::new(),
        updated_at: String::new(),
    }
}

fn link(parent: &str, child: &str, user_id: &str) -> Link {
    Link { parent: parent.to_string(), child: child.to_string(), user_id: user_id.to_string() }
}

fn store(tasks: Vec<TaskRecord>, subs: Vec<Link>, blocks: Vec<Link>) -> TaskStore {
    TaskStore { tasks, sub_tasks: subs, blocking_tasks: blocks }
}

fn status(db: &TaskStore, id: &str) -> TaskStatus {
    db.tasks.iter().find(|t| t.id == id).unwrap().status
}

fn has_link(links: &[Link], parent: &str, child: &str) -> bool {
    links.iter().any(|l| l.parent == parent && l.child == child)
}

fn todo(id: &str) -> TaskRecord {
    task(id, "u1", TaskStatus::Todo)
}

fn me() -> User {
    user("u1")
}

#[test]
fn create_task_stores_the_task() {
    let mut db = store(vec![], vec![], vec![]);
    let payload = CreateTask { title: "title".to_string() };
    let created = create_task(&mut db, Some(&me()), &payload, "t1", "2024/01/01 00:00:00").unwrap();
    assert_eq!(db.tasks.len(), 1);
    assert_eq!(db.tasks[0].title, "title");
    assert_eq!(db.tasks[0].id, "t1");
    assert_eq!(db.tasks[0].user_id, "u1");
    assert_eq!(db.tasks[0].status, TaskStatus::Todo);
    assert_eq!(created.title, "title");
    assert_eq!(created.id, "t1");
    assert_eq!(created.created_at, "2024/01/01 00:00:00");
    assert!(created.sub_task_ids.is_empty());
}

#[test]
fn create_task_refuses_an_empty_title() {
    let mut db = store(vec![], vec![], vec![]);
    let payload = CreateTask { title: String::new() };
    let r = create_task(&mut db, Some(&me()), &payload, "t1", "now");
    assert_eq!(r.err(), Some(AppError { code: UNPROCESSABLE_ENTITY, body: None }));
    assert!(db.tasks.is_empty());
}

#[test]
fn create_task_refuses_a_title_over_a_hundred_bytes() {
    let mut db = store(vec![], vec![], vec![]);
    let payload = CreateTask { title: "あ".repeat(34) };
    let r = create_task(&mut db, Some(&me()), &payload, "t1", "now");
    assert_eq!(r.err(), Some(AppError { code: UNPROCESSABLE_ENTITY, body: None }));
    let payload = CreateTask { title: "a".repeat(100) };
    assert!(create_task(&mut db, Some(&me()), &payload, "t1", "now").is_ok());
}

#[test]
fn create_task_answers_a_server_error_for_a_taken_id() {
    let mut db = store(vec![todo("t1")], vec![], vec![]);
    let payload = CreateTask { title: "title".to_string() };
    let r = create_task(&mut db, Some(&me()), &payload, "t1", "now");
    assert_eq!(r.err(), Some(AppError { code: INTERNAL_SERVER_ERROR, body: None }));
    assert_eq!(db.tasks.len(), 1);
}

#[test]
fn create_task_needs_a_logged_in_user() {
    let mut db = store(vec![], vec![], vec![]);
    let payload = CreateTask { title: "title".to_string() };
    let r = create_task(&mut db, None, &payload, "t1", "now");
    assert_eq!(r.err(), Some(AppError { code: UNAUTHORIZED, body: None }));
}

#[test]
fn delete_task_deletes_only_that_task() {
    let mut db = store(vec![todo("keep"), todo("gone")], vec![], vec![]);
    let r = delete_task(&mut db, Some(&me()), "gone").unwrap();
    assert_eq!(r.task_id, "gone");
    assert_eq!(db.tasks.len(), 1);
    assert_eq!(db.tasks[0].id, "keep");
}

#[test]
fn delete_task_keeps_a_task_of_another_user() {
    let mut db = store(vec![task("other", "u2", TaskStatus::Todo)], vec![], vec![]);
    let r = delete_task(&mut db, Some(&me()), "other");
    assert_eq!(r.err(), Some(AppError { code: INTERNAL_SERVER_ERROR, body: None }));
    assert_eq!(db.tasks.len(), 1);
}

#[test]
fn delete_task_of_the_todo_sub_task_makes_the_main_task_done() {
    let mut db = store(
        vec![todo("main"), task("done", "u1", TaskStatus::Done), todo("todo")],
        vec![link("main", "done", "u1"), link("main", "todo", "u1")],
        vec![],
    );
    assert!(delete_task(&mut db, Some(&me()), "todo").is_ok());
    assert_eq!(status(&db, "main"), TaskStatus::Done);
    assert_eq!(db.sub_tasks.len(), 1);
}

#[test]
fn delete_task_removes_the_links_that_name_it() {
    let mut db = store(
        vec![todo("a"), todo("b"), todo("c")],
        vec![link("a", "b", "u1")],
        vec![link("b", "c", "u1")],
    );
    assert!(delete_task(&mut db, Some(&me()), "b").is_ok());
    assert!(db.sub_tasks.is_empty());
    assert!(db.blocking_tasks.is_empty());
}

#[test]
fn disconnect_subtask_removes_the_link() {
    let mut db = store(vec![todo("parent"), todo("sub")], vec![link("parent", "sub", "u1")], vec![]);
    let payload = DisconnectSubtask { parent_task_id: "parent".to_string(), subtask_id: "sub".to_string() };
    assert_eq!(disconnect_subtask(&mut db, Some(&me()), &payload), Ok(()));
    assert!(db.sub_tasks.is_empty());
}

#[test]
fn disconnect_subtask_keeps_a_link_of_another_user() {
    let mut db = store(
        vec![task("op", "u2", TaskStatus::Todo), task("os", "u2", TaskStatus::Todo)],
        vec![link("op", "os", "u2")],
        vec![],
    );
    let payload = DisconnectSubtask { parent_task_id: "op".to_string(), subtask_id: "os".to_string() };
    let r = disconnect_subtask(&mut db, Some(&me()), &payload);
    assert_eq!(r, Err(AppError { code: INTERNAL_SERVER_ERROR, body: None }));
    assert_eq!(db.sub_tasks.len(), 1);
}

#[test]
fn disconnect_subtask_of_the_todo_sub_task_makes_the_parent_done() {
    let mut db = store(
        vec![todo("parent"), task("done", "u1", TaskStatus::Done), todo("todo")],
        vec![link("parent", "done", "u1"), link("parent", "todo", "u1")],
        vec![],
    );
    let payload = DisconnectSubtask { parent_task_id: "parent".to_string(), subtask_id: "todo".to_string() };
    assert_eq!(disconnect_subtask(&mut db, Some(&me()), &payload), Ok(()));
    assert_eq!(status(&db, "parent"), TaskStatus::Done);
}

#[test]
fn get_tasks_reads_only_own_tasks() {
    let db = store(
        vec![task("other", "u2", TaskStatus::Todo), todo("a"), todo("b"), todo("c")],
        vec![],
        vec![],
    );
    let tasks = get_tasks(&db, Some(&me())).unwrap();
    assert_eq!(tasks.len(), 3);
    assert!(tasks.iter().all(|t| t.user_id == "u1"));
}

#[test]
fn get_tasks_lists_sub_tasks_and_blocked_tasks_once_each() {
    let db = store(
        vec![todo("task1"), todo("task11"), todo("task12"), todo("task13"), todo("task14"), todo("task15")],
        vec![link("task1", "task15", "u1"), link("task1", "task14", "u1")],
        vec![
            link("task1", "task13", "u1"),
            link("task1", "task11", "u1"),
            link("task1", "task12", "u1"),
        ],
    );
    let tasks = get_tasks(&db, Some(&me())).unwrap();
    assert_eq!(tasks.len(), 6);
    let t1 = tasks.iter().find(|t| t.id == "task1").unwrap();
    assert_eq!(t1.blocked_task_ids, vec!["task11".to_string(), "task12".to_string(), "task13".to_string()]);
    assert_eq!(t1.sub_task_ids, vec!["task14".to_string(), "task15".to_string()]);
}

#[test]
fn get_tasks_needs_a_logged_in_user() {
    let db = store(vec![todo("a")], vec![], vec![]);
    assert_eq!(get_tasks(&db, None).err(), Some(AppError { code: UNAUTHORIZED, body: None }));
}

#[test]
fn get_task_reads_one_task_with_its_links() {
    let db = store(
        vec![todo("a"), todo("b"), todo("c")],
        vec![link("a", "b", "u1")],
        vec![link("a", "c", "u1")],
    );
    let t = get_task(&db, Some(&me()), "a").unwrap();
    assert_eq!(t.id, "a");
    assert_eq!(t.sub_task_ids, vec!["b".to_string()]);
    assert_eq!(t.blocked_task_ids, vec!["c".to_string()]);
    let missing = get_task(&db, Some(&user("u2")), "a");
    assert_eq!(missing.err(), Some(AppError { code: INTERNAL_SERVER_ERROR, body: None }));
}

#[test]
fn update_task_changes_title_and_status() {
    let mut db = store(vec![todo("t")], vec![], vec![]);
    db.tasks[0].title = "old".to_string();
    let payload = UpdateTask { title: "new_title".to_string(), description: None, status: TaskStatus::Done };
    let t = update_task(&mut db, Some(&me()), "t", &payload).unwrap();
    assert_eq!(t.title, "new_title");
    assert_eq!(t.status, TaskStatus::Done);
    assert_eq!(db.tasks[0].title, "new_title");
    assert_eq!(db.tasks[0].status, TaskStatus::Done);
    assert_eq!(db.tasks[0].description, "description");
}

#[test]
fn update_task_changes_a_given_description() {
    let mut db = store(vec![todo("t")], vec![], vec![]);
    let payload = UpdateTask { title: "t".to_string(), description: Some("new".to_string()), status: TaskStatus::Todo };
    let t = update_task(&mut db, Some(&me()), "t", &payload).unwrap();
    assert_eq!(t.description, "new");
    assert_eq!(db.tasks[0].description, "new");
    assert_eq!(db.tasks[0].status, TaskStatus::Todo);
}

#[test]
fn update_task_refuses_an_empty_title() {
    let mut db = store(vec![todo("t")], vec![], vec![]);
    db.tasks[0].title = "old_title".to_string();
    let payload = UpdateTask { title: String::new(), description: None, status: TaskStatus::Todo };
    let r = update_task(&mut db, Some(&me()), "t", &payload);
    assert_eq!(r.err(), Some(AppError { code: UNPROCESSABLE_ENTITY, body: None }));
    assert_eq!(db.tasks[0].title, "old_title");
}

#[test]
fn update_task_refuses_a_description_over_two_thousand_bytes() {
    let mut db = store(vec![todo("t")], vec![], vec![]);
    let payload = UpdateTask { title: "ok".to_string(), description: Some("d".repeat(2001)), status: TaskStatus::Todo };
    let r = update_task(&mut db, Some(&me()), "t", &payload);
    assert_eq!(r.err(), Some(AppError { code: UNPROCESSABLE_ENTITY, body: None }));
    let payload = UpdateTask { title: "ok".to_string(), description: Some("d".repeat(2000)), status: TaskStatus::Todo };
    assert!(update_task(&mut db, Some(&me()), "t", &payload).is_ok());
}

#[test]
fn update_task_keeps_a_task_of_another_user() {
    let mut db = store(vec![task("other", "u2", TaskStatus::Todo)], vec![], vec![]);
    db.tasks[0].title = "old_title".to_string();
    let payload = UpdateTask { title: "new_title".to_string(), description: None, status: TaskStatus::Done };
    let r = update_task(&mut db, Some(&me()), "other", &payload);
    assert_eq!(r.err(), Some(AppError { code: INTERNAL_SERVER_ERROR, body: None }));
    assert_eq!(db.tasks[0].title, "old_title");
    assert_eq!(db.tasks[0].status, TaskStatus::Todo);
}

fn reconnect(db: &mut TaskStore, old: (&str, &str), new: (&str, &str)) -> Result<(), AppError> {
    let payload = ReconnectSubTask {
        old_main_task_id: old.0.to_string(),
        old_sub_task_id: old.1.to_string(),
        new_main_task_id: new.0.to_string(),
        new_sub_task_id: new.1.to_string(),
    };
    reconnect_sub_task(db, Some(&me()), &payload)
}

fn reconnect_older(db: &mut TaskStore, old: (&str, &str), new: (&str, &str)) -> Result<(), AppError> {
    let payload = ReconnectSubtask {
        old_parent_task_id: old.0.to_string(),
        old_subtask_id: old.1.to_string(),
        new_parent_task_id: new.0.to_string(),
        new_subtask_id: new.1.to_string(),
    };
    reconnect_subtask(db, Some(&me()), &payload)
}

#[test]
fn reconnect_sub_task_moves_the_link() {
    let mut db = store(vec![todo("task1"), todo("task2"), todo("task3")], vec![link("task1", "task2", "u1")], vec![]);
    assert_eq!(reconnect(&mut db, ("task1", "task2"), ("task2", "task3")), Ok(()));
    assert!(!has_link(&db.sub_tasks, "task1", "task2"));
    assert!(has_link(&db.sub_tasks, "task2", "task3"));
}

#[test]
fn reconnect_sub_task_refuses_a_cycle() {
    let mut db = store(
        vec![todo("task1"), todo("task2"), todo("task3"), todo("task4")],
        vec![link("task1", "task2", "u1"), link("task2", "task3", "u1"), link("task3", "task4", "u1")],
        vec![],
    );
    assert!(reconnect(&mut db, ("task3", "task4"), ("task3", "task2")).is_err());
    assert!(has_link(&db.sub_tasks, "task3", "task4"));
    assert!(!has_link(&db.sub_tasks, "task3", "task2"));
}

#[test]
fn reconnect_sub_task_refuses_a_link_of_another_user() {
    let mut db = store(
        vec![task("o1", "u2", TaskStatus::Todo), task("o2", "u2", TaskStatus::Todo), todo("mine")],
        vec![link("o1", "o2", "u2")],
        vec![],
    );
    assert!(reconnect(&mut db, ("o1", "o2"), ("o2", "mine")).is_err());
    assert!(has_link(&db.sub_tasks, "o1", "o2"));
    assert!(!has_link(&db.sub_tasks, "o2", "mine"));
}

#[test]
fn reconnect_sub_task_refuses_the_task_itself() {
    let mut db = store(vec![todo("task"), todo("sub")], vec![link("task", "sub", "u1")], vec![]);
    assert!(reconnect(&mut db, ("task", "sub"), ("task", "task")).is_err());
    assert!(!has_link(&db.sub_tasks, "task", "task"));
    assert!(has_link(&db.sub_tasks, "task", "sub"));
}

#[test]
fn reconnect_subtask_moves_the_link() {
    let mut db = store(vec![todo("task1"), todo("task2"), todo("task3")], vec![link("task1", "task2", "u1")], vec![]);
    assert_eq!(reconnect_older(&mut db, ("task1", "task2"), ("task2", "task3")), Ok(()));
    assert!(!has_link(&db.sub_tasks, "task1", "task2"));
    assert!(has_link(&db.sub_tasks, "task2", "task3"));
}

#[test]
fn reconnect_subtask_refuses_a_cycle() {
    let mut db = store(
        vec![todo("task1"), todo("task2"), todo("task3"), todo("task4")],
        vec![link("task1", "task2", "u1"), link("task2", "task3", "u1"), link("task3", "task4", "u1")],
        vec![],
    );
    assert!(reconnect_older(&mut db, ("task3", "task4"), ("task3", "task2")).is_err());
    assert!(has_link(&db.sub_tasks, "task3", "task4"));
    assert!(!has_link(&db.sub_tasks, "task3", "task2"));
}

#[test]
fn reconnect_subtask_refuses_a_link_of_another_user() {
    let mut db = store(
        vec![task("o1", "u2", TaskStatus::Todo), task("o2", "u2", TaskStatus::Todo), todo("mine")],
        vec![link("o1", "o2", "u2")],
        vec![],
    );
    assert!(reconnect_older(&mut db, ("o1", "o2"), ("o2", "mine")).is_err());
    assert!(has_link(&db.sub_tasks, "o1", "o2"));
    assert!(!has_link(&db.sub_tasks, "o2", "mine"));
}

#[test]
fn create_task_with_a_fresh_id_stores_it_under_a_random_uuid() {
    let mut db = store(vec![todo("existing")], vec![], vec![]);
    let payload = CreateTask { title: "title".to_string() };
    let first = create_task_with_fresh_id(&mut db, Some(&me()), &payload, "now").unwrap();
    let second = create_task_with_fresh_id(&mut db, Some(&me()), &payload, "now").unwrap();
    assert_eq!(first.id.len(), 36);
    assert_eq!(first.id.matches('-').count(), 4);
    assert_ne!(first.id, second.id);
    assert_eq!(db.tasks.len(), 3);
    assert_eq!(db.tasks[1].id, first.id);
    assert_eq!(db.tasks[2].id, second.id);
}

#[test]
fn reconnect_subtask_checks_only_for_cycles() {
    let mut db = store(
        vec![todo("a"), todo("b"), todo("c"), todo("d")],
        vec![link("a", "b", "u1"), link("c", "d", "u1")],
        vec![],
    );
    assert_eq!(reconnect_older(&mut db, ("a", "b"), ("a", "d")), Ok(()));
    assert!(has_link(&db.sub_tasks, "a", "d"));
    assert!(has_link(&db.sub_tasks, "c", "d"));
}

#[test]
fn reconnect_sub_task_refuses_a_second_main_task() {
    let mut db = store(
        vec![todo("a"), todo("b"), todo("c"), todo("d")],
        vec![link("a", "b", "u1"), link("c", "d", "u1")],
        vec![],
    );
    assert!(reconnect(&mut db, ("a", "b"), ("a", "d")).is_err());
    assert!(has_link(&db.sub_tasks, "a", "b"));
    assert!(!has_link(&db.sub_tasks, "a", "d"));
}

#[test]
fn get_tasks_answers_one_task_per_identifier() {
    let mut second = todo("a");
    second.title = "second".to_string();
    let mut first = todo("a");
    first.title = "first".to_string();
    let db = store(vec![first, todo("b"), second], vec![], vec![]);
    let tasks = get_tasks(&db, Some(&me())).unwrap();
    assert_eq!(tasks.len(), 2);
    assert_eq!(tasks[0].id, "a");
    assert_eq!(tasks[0].title, "first");
    assert_eq!(tasks[1].id, "b");
}
