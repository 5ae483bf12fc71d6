//! The stored state: the task records and the two relation tables, with the
//! rules every stored state keeps.

use vstd::prelude::*;
use crate::graph::{Link, LinkView, links_view, ids_view, lemma_links_view_push, acyclic};
use crate::ids::{strictly_sorted, insert_sorted};
use crate::task::{Task, TaskStatus, TaskView};

verus! {

/// Why a read or write of the stored state failed.
#[derive(Debug, Clone, Copy, PartialEq, Eq, Structural)]
pub enum DbError {
    /// No row matched.
    NotFound,
    /// A row with the same key is stored already.
    Conflict,
    /// A link names a task that is not stored.
    MissingReference,
}

/// One row of the task table.
pub struct TaskRecord {
    pub id: String,
    pub title: String,
    pub description: String,
    pub user_id: String,
    pub status: TaskStatus,
    pub created_at: String,
    pub updated_at: String,
}

/// Mathematical value of a [`TaskRecord`].
pub struct TaskRecordView {
    pub id: Seq<char>,
    pub title: Seq<char>,
    pub description: Seq<char>,
    pub user_id: Seq<char>,
    pub status: TaskStatus,
    pub created_at: Seq<char>,
    pub updated_at: Seq<char>,
}

impl View for TaskRecord {
    type V = TaskRecordView;

    open spec fn view(&self) -> TaskRecordView {
        TaskRecordView {
            id: self.id@,
            title: self.title@,
            description: self.description@,
            user_id: self.user_id@,
            status: self.status,
            created_at: self.created_at@,
            updated_at: self.updated_at@,
        }
    }
}

/// The task table, the sub-task relation (`parent` the main task) and the
/// blocking relation (`parent` the blocking task).
pub struct TaskStore {
    pub tasks: Vec<TaskRecord>,
    pub sub_tasks: Vec<Link>,
    pub blocking_tasks: Vec<Link>,
}

/// Mathematical value of a [`TaskStore`].
pub struct StoreView {
    pub tasks: Seq<TaskRecordView>,
    pub subs: Seq<LinkView>,
    pub blocks: Seq<LinkView>,
}

/// The values of a sequence of task records.
pub open spec fn records_view(tasks: Seq<TaskRecord>) -> Seq<TaskRecordView> {
    tasks.map_values(|t: TaskRecord| t@)
}

/// Viewing commutes with pushing.
pub proof fn lemma_records_view_push(s: Seq<TaskRecord>, x: TaskRecord)
    ensures
        records_view(s.push(x)) == records_view(s).push(x@),
{
    assert forall|k: int| 0 <= k < s.len() + 1 implies #[trigger] records_view(s.push(x))[k]
        == records_view(s).push(x@)[k] by {
        if k < s.len() {
            assert(records_view(s)[k] == s[k]@);
        }
    }
    assert(records_view(s.push(x)) =~= records_view(s).push(x@));
}

impl View for TaskStore {
    type V = StoreView;

    open spec fn view(&self) -> StoreView {
        StoreView {
            tasks: records_view(self.tasks@),
            subs: links_view(self.sub_tasks@),
            blocks: links_view(self.blocking_tasks@),
        }
    }
}

/// Whether record `r` is the task `id` of user `user`.
pub open spec fn is_task_of(r: TaskRecordView, id: Seq<char>, user: Seq<char>) -> bool {
    r.id == id && r.user_id == user
}

/// The children `c` of links `parent -> c` recorded for `user`.
pub open spec fn children_of(links: Seq<LinkView>, parent: Seq<char>, user: Seq<char>) -> Set<
    Seq<char>,
> {
    Set::new(
        |c: Seq<char>|
            exists|k: int|
                0 <= k < links.len() && #[trigger] links[k].parent == parent && links[k].user_id
                    == user && links[k].child == c,
    )
}

/// `list` is the sorted list, without duplicates, of the elements of `set`.
pub open spec fn lists_sorted(list: Seq<Seq<char>>, set: Set<Seq<char>>) -> bool {
    strictly_sorted(list) && list.to_set() == set
}

impl StoreView {
    /// Both relations, the sub-task links first.
    pub open spec fn all_links(self) -> Seq<LinkView> {
        self.subs + self.blocks
    }

    /// Whether some record is the task `id` of `user`.
    pub open spec fn has_task(self, id: Seq<char>, user: Seq<char>) -> bool {
        exists|i: int| 0 <= i < self.tasks.len() && is_task_of(#[trigger] self.tasks[i], id, user)
    }

    /// Whether some record has the identifier `id`, whatever its user.
    pub open spec fn has_id(self, id: Seq<char>) -> bool {
        exists|i: int| 0 <= i < self.tasks.len() && #[trigger] self.tasks[i].id == id
    }

    /// An identifier names tasks of one user only.
    pub open spec fn id_has_one_user(self) -> bool {
        forall|a: TaskRecordView, b: TaskRecordView|
            self.tasks.contains(a) && self.tasks.contains(b) && a.id == b.id ==> a.user_id
                == b.user_id
    }

    /// No two records share an identifier: the identifier is the key of
    /// the task table.
    pub open spec fn ids_unique(self) -> bool {
        forall|i: int, j: int|
            0 <= i < self.tasks.len() && 0 <= j < self.tasks.len() && i != j ==> #[trigger] self.tasks[i].id
                != #[trigger] self.tasks[j].id
    }

    /// Both ends of every link are tasks of the link's user.
    pub open spec fn links_name_tasks(self) -> bool {
        &&& forall|l: LinkView|
            self.subs.contains(l) ==> self.has_task(l.parent, l.user_id) && self.has_task(
                l.child,
                l.user_id,
            )
        &&& forall|l: LinkView|
            self.blocks.contains(l) ==> self.has_task(l.parent, l.user_id) && self.has_task(
                l.child,
                l.user_id,
            )
    }

    /// A task is the sub task of at most one main task.
    pub open spec fn one_main_task(self) -> bool {
        forall|a: LinkView, b: LinkView|
            self.subs.contains(a) && self.subs.contains(b) && a.child == b.child ==> a.parent
                == b.parent
    }

    /// The rules every stored state keeps: no two records share an
    /// identifier, identifiers name tasks of one user, links join tasks of
    /// their user, each task has at most one main
    /// task, and no task is above itself through sub-task and blocking
    /// links.
    pub open spec fn wf(self) -> bool {
        &&& self.ids_unique()
        &&& self.id_has_one_user()
        &&& self.links_name_tasks()
        &&& self.one_main_task()
        &&& acyclic(self.all_links())
    }

    /// `i` is the first record that is the task `id` of `user`.
    pub open spec fn is_first_task(self, id: Seq<char>, user: Seq<char>, i: int) -> bool {
        &&& 0 <= i < self.tasks.len()
        &&& is_task_of(self.tasks[i], id, user)
        &&& forall|j: int| 0 <= j < i ==> !is_task_of(#[trigger] self.tasks[j], id, user)
    }

    /// `t` is what the API returns for record `i`: its fields, and the sorted
    /// identifiers of its sub tasks and of the tasks it blocks, as recorded
    /// for the record's user.
    pub open spec fn describes(self, i: int, t: TaskView) -> bool {
        let r = self.tasks[i];
        &&& t.id == r.id
        &&& t.status == r.status
        &&& t.title == r.title
        &&& t.description == r.description
        &&& t.user_id == r.user_id
        &&& t.created_at == r.created_at
        &&& t.updated_at == r.updated_at
        &&& lists_sorted(t.sub_task_ids, children_of(self.subs, r.id, r.user_id))
        &&& lists_sorted(t.blocked_task_ids, children_of(self.blocks, r.id, r.user_id))
    }

    /// `t` is what the API returns for the task `id` of `user`.
    pub open spec fn found(self, id: Seq<char>, user: Seq<char>, t: TaskView) -> bool {
        exists|i: int| #[trigger] self.is_first_task(id, user, i) && self.describes(i, t)
    }
}

impl TaskRecord {
    /// A copy of the record.
    pub fn copy(&self) -> (r: TaskRecord)
        ensures
            r@ == self@,
    {
        TaskRecord {
            id: self.id.clone(),
            title: self.title.clone(),
            description: self.description.clone(),
            user_id: self.user_id.clone(),
            status: self.status,
            created_at: self.created_at.clone(),
            updated_at: self.updated_at.clone(),
        }
    }
}

impl Link {
    /// A copy of the link.
    pub fn copy(&self) -> (r: Link)
        ensures
            r@ == self@,
    {
        Link { parent: self.parent.clone(), child: self.child.clone(), user_id: self.user_id.clone() }
    }
}

fn copy_links(links: &Vec<Link>) -> (r: Vec<Link>)
    ensures
        links_view(r@) == links_view(links@),
{
    let mut r: Vec<Link> = Vec::new();
    let mut i: usize = 0;
    while i < links.len()
        invariant
            i <= links.len(),
            links_view(r@) == links_view(links@).take(i as int),
        decreases links.len() - i,
    {
        let c = links[i].copy();
        assert(c@ == links_view(links@)[i as int]);
        proof {
            lemma_links_view_push(r@, c);
        }
        r.push(c);
        proof {
            assert(links_view(r@) =~= links_view(links@).take(i + 1));
        }
        i = i + 1;
    }
    assert(links_view(links@).take(i as int) =~= links_view(links@));
    r
}

impl TaskStore {
    /// A store with no task and no link.
    pub fn new() -> (s: TaskStore)
        ensures
            s@.tasks.len() == 0,
            s@.subs.len() == 0,
            s@.blocks.len() == 0,
    {
        TaskStore { tasks: Vec::new(), sub_tasks: Vec::new(), blocking_tasks: Vec::new() }
    }

    /// A copy of the whole store, to go back to when a transaction fails.
    pub fn snapshot(&self) -> (s: TaskStore)
        ensures
            s@ == self@,
    {
        let mut tasks: Vec<TaskRecord> = Vec::new();
        let mut i: usize = 0;
        while i < self.tasks.len()
            invariant
                i <= self.tasks.len(),
                records_view(tasks@) == records_view(self.tasks@).take(i as int),
            decreases self.tasks.len() - i,
        {
            let c = self.tasks[i].copy();
            assert(c@ == records_view(self.tasks@)[i as int]);
            proof {
                lemma_records_view_push(tasks@, c);
            }
            tasks.push(c);
            proof {
                assert(records_view(tasks@) =~= records_view(self.tasks@).take(i + 1));
            }
            i = i + 1;
        }
        assert(records_view(self.tasks@).take(i as int) =~= records_view(self.tasks@));
        TaskStore {
            tasks,
            sub_tasks: copy_links(&self.sub_tasks),
            blocking_tasks: copy_links(&self.blocking_tasks),
        }
    }
}

/// The index of the first record that is the task `id` of `user`.
pub fn first_task_index(db: &TaskStore, id: &String, user: &String) -> (r: Option<usize>)
    ensures
        match r {
            Some(i) => db@.is_first_task(id@, user@, i as int),
            None => !db@.has_task(id@, user@),
        },
{
    let mut i: usize = 0;
    while i < db.tasks.len()
        invariant
            i <= db.tasks.len(),
            forall|j: int| 0 <= j < i ==> !is_task_of(#[trigger] db@.tasks[j], id@, user@),
        decreases db.tasks.len() - i,
    {
        if db.tasks[i].id == *id && db.tasks[i].user_id == *user {
            return Some(i);
        }
        i = i + 1;
    }
    None
}

/// The sorted children of `parent` among the links recorded for `user`.
pub fn sorted_children(links: &Vec<Link>, parent: &String, user: &String) -> (r: Vec<String>)
    ensures
        lists_sorted(ids_view(r@), children_of(links_view(links@), parent@, user@)),
{
    let ghost lv = links_view(links@);
    let mut r: Vec<String> = Vec::new();
    let mut i: usize = 0;
    proof {
        assert(ids_view(r@).to_set() =~= children_of(lv.take(0), parent@, user@));
    }
    while i < links.len()
        invariant
            i <= links.len(),
            lv == links_view(links@),
            strictly_sorted(ids_view(r@)),
            ids_view(r@).to_set() == children_of(lv.take(i as int), parent@, user@),
        decreases links.len() - i,
    {
        let ghost before = ids_view(r@).to_set();
        let l = &links[i];
        if l.parent == *parent && l.user_id == *user {
            insert_sorted(&mut r, l.child.clone());
        }
        proof {
            let prev = lv.take(i as int);
            let next = lv.take(i + 1);
            let matched = lv[i as int].parent == parent@ && lv[i as int].user_id == user@;
            let expect = if matched {
                children_of(prev, parent@, user@).insert(lv[i as int].child)
            } else {
                children_of(prev, parent@, user@)
            };
            assert(next[i as int] == lv[i as int]);
            assert forall|c: Seq<char>| #[trigger] children_of(next, parent@, user@).contains(c)
                <==> expect.contains(c) by {
                if children_of(next, parent@, user@).contains(c) {
                    let k = choose|k: int|
                        0 <= k < next.len() && #[trigger] next[k].parent == parent@
                            && next[k].user_id == user@ && next[k].child == c;
                    if k < i {
                        assert(prev[k] == next[k]);
                    }
                }
                if children_of(prev, parent@, user@).contains(c) {
                    let k = choose|k: int|
                        0 <= k < prev.len() && #[trigger] prev[k].parent == parent@
                            && prev[k].user_id == user@ && prev[k].child == c;
                    assert(next[k] == prev[k]);
                }
            }
            assert(children_of(next, parent@, user@) =~= expect);
        }
        i = i + 1;
    }
    assert(lv.take(i as int) =~= lv);
    r
}

/// What the API returns for record `i`.
pub fn describe(db: &TaskStore, i: usize) -> (t: Task)
    requires
        i < db@.tasks.len(),
    ensures
        db@.describes(i as int, t@),
{
    let r = &db.tasks[i];
    let sub_task_ids = sorted_children(&db.sub_tasks, &r.id, &r.user_id);
    let blocked_task_ids = sorted_children(&db.blocking_tasks, &r.id, &r.user_id);
    Task {
        id: r.id.clone(),
        status: r.status,
        title: r.title.clone(),
        description: r.description.clone(),
        user_id: r.user_id.clone(),
        sub_task_ids,
        blocked_task_ids,
        created_at: r.created_at.clone(),
        updated_at: r.updated_at.clone(),
    }
}

} // verus!
