use task_server::block_task::routes::disconnect_block_task::handler as disconnect_block_task;
use task_server::block_task::{ConnectBlockTask, DisconnectBlockTask};
use task_server::graph::Link;
use task_server::store::{TaskRecord, TaskStore};
use task_server::sub_task::routes::connect_sub_task::handler as connect_sub_task;
use task_server::sub_task::ConnectSubTask;
use task_server::task::routes::connect_block_task::handler as connect_block_task;
use task_server::task::routes::disconnect_subtask::handler as disconnect_subtask;
use task_server::task::routes::get_task::handler as get_task;
use task_server::task::routes::update_task::handler as update_task;
use task_server::task::routes::update_task_status::handler as update_task_status;
use task_server::task::{DisconnectSubtask, TaskStatus, UpdateTask, UpdateTaskStatus};
use task_server::user::User;

fn user(id: &str) -> User {
    User { id: id.to_string(), name: "name".to_string(), profile: String::new() }
}

fn task(id: &str, user_id: &str, status: TaskStatus) -> TaskRecord {
    TaskRecord {
        id: id.to_string(),
        title: "title".to_string(),
        description: "description".to_string(),
        user_id: user_id.to_string(),
        status,
        created_at: String::new(),
        updated_at: String::new(),
    }
}

fn link(parent: &str, child: &str, user_id: &str) -> Link {
    Link { parent: parent.to_string(), child: child.to_string(), user_id: user_id.to_string() }
}

fn store(tasks: Vec<TaskRecord>, subs: Vec<Link>, blocks: Vec<Link>) -> TaskStore {
    TaskStore { tasks, sub_tasks: subs, blocking_tasks: blocks }
}

fn status(db: &TaskStore, id: &str) -> TaskStatus {
    db.tasks.iter().find(|t| t.id == id).unwrap().status
}

fn has_link(links: &[Link], parent: &str, child: &str) -> bool {
    links.iter().any(|l| l.parent == parent && l.child == child)
}

fn todo(id: &str) -> TaskRecord {
    task(id, "u1", TaskStatus::Todo)
}

fn pairs(links: &[Link]) -> Vec<(String, String, String)> {
    links.iter().map(|l| (l.parent.clone(), l.child.clone(), l.user_id.clone())).collect()
}

fn statuses(db: &TaskStore) -> Vec<(String, TaskStatus)> {
    db.tasks.iter().map(|t| (t.id.clone(), t.status)).collect()
}

/// Every task with sub tasks is done exactly when all of them are.
fn settled(db: &TaskStore, id: &str) -> bool {
    let subs: Vec<&Link> = db.sub_tasks.iter().filter(|l| l.parent == id).collect();
    subs.is_empty() || (status(db, id) == TaskStatus::Done) == subs.iter().all(|l| status(db, &l.child) == TaskStatus::Done)
}

#[test]
fn disconnect_block_task_undoes_connect_block_task() {
    let mut db = store(
        vec![todo("a"), todo("b"), todo("c")],
        vec![link("a", "b", "u1")],
        vec![link("b", "c", "u1")],
    );
    let before = (statuses(&db), pairs(&db.sub_tasks), pairs(&db.blocking_tasks));
    let payload = ConnectBlockTask { blocking_task_id: "a".to_string(), blocked_task_id: "c".to_string() };
    assert_eq!(connect_block_task(&mut db, Some(&user("u1")), &payload), Ok(()));
    assert_eq!(db.blocking_tasks.len(), 2);
    let payload = DisconnectBlockTask { blocking_task_id: "a".to_string(), blocked_task_id: "c".to_string() };
    assert_eq!(disconnect_block_task(&mut db, Some(&user("u1")), &payload), Ok(()));
    assert_eq!((statuses(&db), pairs(&db.sub_tasks), pairs(&db.blocking_tasks)), before);
}

#[test]
fn disconnect_sub_task_undoes_the_links_of_connect_sub_task() {
    let mut db = store(
        vec![todo("main"), task("sub", "u1", TaskStatus::Done), todo("other")],
        vec![link("main", "other", "u1")],
        vec![],
    );
    let links_before = (pairs(&db.sub_tasks), pairs(&db.blocking_tasks));
    let payload = ConnectSubTask { main_task_id: "main".to_string(), sub_task_id: "sub".to_string() };
    assert_eq!(connect_sub_task(&mut db, Some(&user("u1")), &payload), Ok(()));
    let payload = DisconnectSubtask { parent_task_id: "main".to_string(), subtask_id: "sub".to_string() };
    assert_eq!(disconnect_subtask(&mut db, Some(&user("u1")), &payload), Ok(()));
    assert_eq!((pairs(&db.sub_tasks), pairs(&db.blocking_tasks)), links_before);
    let ids: Vec<String> = db.tasks.iter().map(|t| t.id.clone()).collect();
    assert_eq!(ids, vec!["main".to_string(), "sub".to_string(), "other".to_string()]);
}

#[test]
fn status_change_settles_every_task_up_the_chain() {
    let ids = ["t0", "t1", "t2", "t3", "t4", "t5"];
    let tasks = ids.iter().map(|i| todo(i)).chain(std::iter::once(task("side", "u1", TaskStatus::Done))).collect();
    let mut subs: Vec<Link> = ids.windows(2).map(|w| link(w[0], w[1], "u1")).collect();
    subs.push(link("t3", "side", "u1"));
    let mut db = store(tasks, subs, vec![]);
    let r = update_task_status(&mut db, Some(&user("u1")), "t5", &UpdateTaskStatus { status: TaskStatus::Done });
    assert!(r.is_ok());
    for id in ids {
        assert!(settled(&db, id), "{} is not settled", id);
        assert_eq!(status(&db, id), TaskStatus::Done);
    }
}

#[test]
fn refused_changes_keep_the_store_well_formed() {
    let mut db = store(vec![todo("a"), todo("b")], vec![link("a", "b", "u1")], vec![]);
    let payload = ConnectBlockTask { blocking_task_id: "b".to_string(), blocked_task_id: "a".to_string() };
    assert!(connect_block_task(&mut db, Some(&user("u1")), &payload).is_err());
    let payload = ConnectSubTask { main_task_id: "b".to_string(), sub_task_id: "a".to_string() };
    assert!(connect_sub_task(&mut db, Some(&user("u1")), &payload).is_err());
    assert_eq!(pairs(&db.sub_tasks), vec![("a".to_string(), "b".to_string(), "u1".to_string())]);
    assert!(db.blocking_tasks.is_empty());
}

#[test]
fn a_read_after_a_write_answers_what_the_write_answered() {
    let mut db = store(
        vec![todo("a"), todo("b"), todo("c")],
        vec![link("a", "c", "u1"), link("a", "b", "u1")],
        vec![link("a", "b", "u1")],
    );
    let payload = UpdateTask { title: "new".to_string(), description: Some("text".to_string()), status: TaskStatus::Done };
    let written = update_task(&mut db, Some(&user("u1")), "a", &payload).unwrap();
    let read = get_task(&db, Some(&user("u1")), "a").unwrap();
    assert_eq!(read.id, written.id);
    assert_eq!(read.title, "new");
    assert_eq!(read.title, written.title);
    assert_eq!(read.description, written.description);
    assert_eq!(read.status, written.status);
    assert_eq!(read.sub_task_ids, written.sub_task_ids);
    assert_eq!(read.sub_task_ids, vec!["b".to_string(), "c".to_string()]);
    assert_eq!(read.blocked_task_ids, written.blocked_task_ids);
}

#[test]
fn status_change_leaves_tasks_off_the_chain_alone() {
    let mut db = store(
        vec![todo("root"), todo("left"), todo("right"), task("right_sub", "u1", TaskStatus::Done), todo("leaf")],
        vec![
            link("root", "left", "u1"),
            link("root", "right", "u1"),
            link("right", "right_sub", "u1"),
            link("left", "leaf", "u1"),
        ],
        vec![],
    );
    let r = update_task_status(&mut db, Some(&user("u1")), "leaf", &UpdateTaskStatus { status: TaskStatus::Done });
    assert!(r.is_ok());
    assert_eq!(status(&db, "left"), TaskStatus::Done);
    // `right` is not above `leaf`: it keeps its status though its only sub task is done.
    assert_eq!(status(&db, "right"), TaskStatus::Todo);
    assert_eq!(status(&db, "root"), TaskStatus::Todo);
    assert!(settled(&db, "left"));
}
