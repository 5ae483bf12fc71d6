use task_server::changes::changes;
use task_server::graph::Link;
use task_server::integrity::is_well_formed;
use task_server::store::{TaskRecord, TaskStore};
use task_server::task::TaskStatus;

fn task(id: &str, user_id: &str) -> TaskRecord {
    TaskRecord {
        id: id.to_string(),
        title: "title".to_string(),
        description: "description".to_string(),
        user_id: user_id.to_string(),
        status: TaskStatus::Todo,
        created_at: String::new(),
        updated_at: String::new(),
    }
}

fn link(parent: &str, child: &str, user_id: &str) -> Link {
    Link { parent: parent.to_string(), child: child.to_string(), user_id: user_id.to_string() }
}

fn store(tasks: Vec<TaskRecord>, subs: Vec<Link>, blocks: Vec<Link>) -> TaskStore {
    TaskStore { tasks, sub_tasks: subs, blocking_tasks: blocks }
}

#[test]
fn a_store_built_by_the_rules_is_well_formed() {
    let db = store(
        vec![task("a", "u1"), task("b", "u1"), task("c", "u1")],
        vec![link("a", "b", "u1")],
        vec![link("c", "a", "u1")],
    );
    assert!(is_well_formed(&db));
    assert!(is_well_formed(&store(vec![], vec![], vec![])));
}

#[test]
fn duplicate_identifiers_break_the_rules() {
    let db = store(vec![task("a", "u1"), task("a", "u1")], vec![], vec![]);
    assert!(!is_well_formed(&db));
}

#[test]
fn a_link_to_a_task_of_another_user_breaks_the_rules() {
    let db = store(vec![task("a", "u1"), task("b", "u2")], vec![link("a", "b", "u1")], vec![]);
    assert!(!is_well_formed(&db));
}

#[test]
fn two_main_tasks_break_the_rules() {
    let db = store(
        vec![task("a", "u1"), task("b", "u1"), task("c", "u1")],
        vec![link("a", "c", "u1"), link("b", "c", "u1")],
        vec![],
    );
    assert!(!is_well_formed(&db));
}

#[test]
fn a_cycle_through_both_relations_breaks_the_rules() {
    let db = store(
        vec![task("a", "u1"), task("b", "u1"), task("c", "u1")],
        vec![link("a", "b", "u1")],
        vec![link("b", "c", "u1"), link("c", "a", "u1")],
    );
    assert!(!is_well_formed(&db));
    let self_link = store(vec![task("a", "u1")], vec![], vec![link("a", "a", "u1")]);
    assert!(!is_well_formed(&self_link));
}

#[test]
fn changes_lists_the_rows_to_write() {
    let before = store(
        vec![task("a", "u1"), task("b", "u1"), task("gone", "u1")],
        vec![link("a", "b", "u1")],
        vec![link("a", "gone", "u1")],
    );
    let mut changed = task("b", "u1");
    changed.status = TaskStatus::Done;
    let after = store(
        vec![task("a", "u1"), changed, task("new", "u1")],
        vec![link("a", "new", "u1")],
        vec![],
    );
    let c = changes(&before, &after);
    assert_eq!(c.removed_sub_tasks.len(), 1);
    assert_eq!(c.removed_sub_tasks[0].child, "b");
    assert_eq!(c.added_sub_tasks.len(), 1);
    assert_eq!(c.added_sub_tasks[0].child, "new");
    assert_eq!(c.removed_blocking_tasks.len(), 1);
    assert!(c.added_blocking_tasks.is_empty());
    assert_eq!(c.removed_tasks.len(), 1);
    assert_eq!(c.removed_tasks[0].id, "gone");
    assert_eq!(c.added_tasks.len(), 1);
    assert_eq!(c.added_tasks[0].id, "new");
    assert_eq!(c.changed_tasks.len(), 1);
    assert_eq!(c.changed_tasks[0].id, "b");
    assert_eq!(c.changed_tasks[0].status, TaskStatus::Done);
}

#[test]
fn no_change_means_no_rows() {
    let before = store(vec![task("a", "u1"), task("b", "u1")], vec![link("a", "b", "u1")], vec![]);
    let after = store(vec![task("a", "u1"), task("b", "u1")], vec![link("a", "b", "u1")], vec![]);
    let c = changes(&before, &after);
    assert!(c.removed_sub_tasks.is_empty() && c.added_sub_tasks.is_empty());
    assert!(c.removed_tasks.is_empty() && c.added_tasks.is_empty() && c.changed_tasks.is_empty());
}
