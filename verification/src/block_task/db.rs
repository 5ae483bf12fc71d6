//! Reads and writes of the blocking relation, the checks on a new link, and
//! the rules that blocking imposes on status changes.

use vstd::prelude::*;
use crate::graph::{
    Link, LinkView, links_view, ids_view, reaches, reached_after_step, closure, closure_after_step,
    concat_links, contains_id, in_closure, lemma_ids_view_push, walk,
};
use crate::store::{TaskRecordView, TaskStore, StoreView, DbError};
use crate::task::TaskStatus;
use crate::task::db::{
    exists_tasks, ExistsTasksArg, all_tasks_exist, detect_circular_connection,
    DetectCircularConnectionArgs, update_tasks_status, UpdateTasksStatusArgs, UpdateTaskStatusArgs,
    with_status,
};
use crate::sub_task::db::{
    has_pair, link_of, without_link, links_have_pair, insert_link, delete_link, is_sub_task, IsSubTaskArgs,
};

verus! {

/// A new blocking link.
pub struct InsertBlockTaskConnectionArgs<'a> {
    pub blocking_task_id: &'a str,
    pub blocked_task_id: &'a str,
    pub user_id: &'a str,
}

/// Records that `blocking_task_id` blocks `blocked_task_id`. Fails when
/// either task is not stored or the pair is recorded already.
pub fn insert_block_task_connection<'a>(db: &mut TaskStore, args: InsertBlockTaskConnectionArgs<'a>) -> (r:
    Result<(), DbError>)
    ensures
        !old(db)@.has_id(args.blocking_task_id@) || !old(db)@.has_id(args.blocked_task_id@) ==> r
            == Err::<(), DbError>(DbError::MissingReference) && final(db)@ == old(db)@,
        old(db)@.has_id(args.blocking_task_id@) && old(db)@.has_id(args.blocked_task_id@)
            && has_pair(old(db)@.blocks, args.blocking_task_id@, args.blocked_task_id@) ==> r
            == Err::<(), DbError>(DbError::Conflict) && final(db)@ == old(db)@,
        old(db)@.has_id(args.blocking_task_id@) && old(db)@.has_id(args.blocked_task_id@)
            && !has_pair(old(db)@.blocks, args.blocking_task_id@, args.blocked_task_id@) ==> r == Ok::<(), DbError>(())
            && final(db)@ == (StoreView {
            blocks: old(db)@.blocks.push(
                link_of(args.blocking_task_id@, args.blocked_task_id@, args.user_id@),
            ),
            ..old(db)@
        }),
{
    let mut blocks: Vec<Link> = Vec::new();
    std::mem::swap(&mut blocks, &mut db.blocking_tasks);
    let r = insert_link(&*db, &mut blocks, args.blocking_task_id, args.blocked_task_id, args.user_id);
    db.blocking_tasks = blocks;
    r
}

/// The blocking link to remove.
pub struct DeleteBlockTaskConnectionArgs<'a> {
    pub blocking_task_id: &'a str,
    pub blocked_task_id: &'a str,
    pub user_id: &'a str,
}

/// Removes the blocking link; fails when it is not recorded.
pub fn delete_block_task_connection<'a>(db: &mut TaskStore, args: DeleteBlockTaskConnectionArgs<'a>) -> (r:
    Result<(), DbError>)
    ensures
        ({
            let target = link_of(args.blocking_task_id@, args.blocked_task_id@, args.user_id@);
            &&& !old(db)@.blocks.contains(target) ==> r == Err::<(), DbError>(DbError::NotFound)
                && final(db)@ == old(db)@
            &&& old(db)@.blocks.contains(target) ==> r == Ok::<(), DbError>(()) && final(db)@ == (StoreView {
                blocks: without_link(old(db)@.blocks, target),
                ..old(db)@
            })
        }),
{
    let mut blocks: Vec<Link> = Vec::new();
    std::mem::swap(&mut blocks, &mut db.blocking_tasks);
    let r = delete_link(&mut blocks, args.blocking_task_id, args.blocked_task_id, args.user_id);
    db.blocking_tasks = blocks;
    r
}

impl StoreView {
    /// Some stored task with identifier `id` is still to do.
    pub open spec fn is_todo_id(self, id: Seq<char>) -> bool {
        exists|j: int|
            0 <= j < self.tasks.len() && #[trigger] self.tasks[j].id == id && self.tasks[j].status
                == TaskStatus::Todo
    }

    /// `x` is blocked by a task to do, or lies below such a blocked task in
    /// the sub-task relation.
    pub open spec fn blocked_below(self, x: Seq<char>) -> bool {
        exists|k: int|
            0 <= k < self.blocks.len() && self.is_todo_id(#[trigger] self.blocks[k].parent)
                && reaches(self.subs, false, self.blocks[k].child, x)
    }

    /// The descendants of `id` (first link recorded for `user`) whose status
    /// follows it to `status`: all of them towards `Todo`, towards `Done`
    /// only those not [`blocked_below`](Self::blocked_below).
    pub open spec fn follows_status(self, id: Seq<char>, user: Seq<char>, status: TaskStatus, x: Seq<char>) -> bool {
        reached_after_step(self.subs, false, id, user, x) && (status == TaskStatus::Todo
            || !self.blocked_below(x))
    }
}

/// Gives the descendants of `id` that follow it the status `status`.
pub open spec fn descendant_status_setter(
    db: StoreView,
    id: Seq<char>,
    user: Seq<char>,
    status: TaskStatus,
) -> spec_fn(TaskRecordView) -> TaskRecordView {
    |t: TaskRecordView|
        if t.user_id == user && db.follows_status(id, user, status, t.id) {
            with_status(t, status)
        } else {
            t
        }
}

/// The store once the descendants of `id` that follow it have the status
/// `status`.
pub open spec fn with_descendants_status(
    db: StoreView,
    id: Seq<char>,
    user: Seq<char>,
    status: TaskStatus,
) -> StoreView {
    StoreView { tasks: db.tasks.map_values(descendant_status_setter(db, id, user, status)), ..db }
}

/// The tasks blocked by a task to do.
fn todo_blocked(db: &TaskStore) -> (r: Vec<String>)
    ensures
        forall|x: Seq<char>|
            ids_view(r@).contains(x) <==> exists|k: int|
                0 <= k < db@.blocks.len() && db@.is_todo_id(#[trigger] db@.blocks[k].parent)
                    && db@.blocks[k].child == x,
{
    let mut r: Vec<String> = Vec::new();
    let mut i: usize = 0;
    while i < db.blocking_tasks.len()
        invariant
            i <= db.blocking_tasks.len(),
            forall|x: Seq<char>|
                ids_view(r@).contains(x) <==> exists|k: int|
                    0 <= k < i && db@.is_todo_id(#[trigger] db@.blocks[k].parent)
                        && db@.blocks[k].child == x,
        decreases db.blocking_tasks.len() - i,
    {
        let ghost before = ids_view(r@);
        assert(db@.blocks[i as int] == db.blocking_tasks@[i as int]@);
        let l = &db.blocking_tasks[i];
        let todo = is_todo(db, &l.parent);
        if todo {
            let c = l.child.clone();
            proof {
                lemma_ids_view_push(r@, c);
            }
            r.push(c);
        }
        assert(todo == db@.is_todo_id(db@.blocks[i as int].parent));
        assert(!todo ==> ids_view(r@) == before);
        assert(todo ==> ids_view(r@) == before.push(db@.blocks[i as int].child));
        proof {
            assert forall|x: Seq<char>|
                ids_view(r@).contains(x) <==> exists|k: int|
                    0 <= k < i + 1 && db@.is_todo_id(#[trigger] db@.blocks[k].parent)
                        && db@.blocks[k].child == x by {
                if ids_view(r@).contains(x) {
                    let j = choose|j: int| 0 <= j < ids_view(r@).len() && ids_view(r@)[j] == x;
                    if todo {
                        if j < before.len() {
                            assert(before[j] == x);
                            assert(before.contains(x));
                        } else {
                            assert(db@.blocks[i as int].child == x);
                        }
                    } else {
                        assert(before.contains(x));
                    }
                }
                if exists|k: int|
                    0 <= k < i + 1 && db@.is_todo_id(#[trigger] db@.blocks[k].parent)
                        && db@.blocks[k].child == x {
                    let k = choose|k: int|
                        0 <= k < i + 1 && db@.is_todo_id(#[trigger] db@.blocks[k].parent)
                            && db@.blocks[k].child == x;
                    if k < i {
                        assert(before.contains(x));
                        let j = choose|j: int| 0 <= j < before.len() && before[j] == x;
                        if todo {
                            assert(ids_view(r@)[j] == x);
                        } else {
                            assert(ids_view(r@).contains(x));
                        }
                    } else {
                        assert(ids_view(r@)[before.len() as int] == x);
                    }
                }
            }
        }
        i = i + 1;
    }
    r
}

/// Whether some stored task with identifier `id` is to do.
fn is_todo(db: &TaskStore, id: &String) -> (r: bool)
    ensures
        r == db@.is_todo_id(id@),
{
    let mut j: usize = 0;
    while j < db.tasks.len()
        invariant
            j <= db.tasks.len(),
            forall|k: int|
                0 <= k < j ==> !(#[trigger] db@.tasks[k].id == id@ && db@.tasks[k].status
                    == TaskStatus::Todo),
        decreases db.tasks.len() - j,
    {
        assert(db@.tasks[j as int] == db.tasks@[j as int]@);
        if db.tasks[j].id == *id && db.tasks[j].status == TaskStatus::Todo {
            assert(db@.tasks[j as int].id == id@);
            return true;
        }
        j = j + 1;
    }
    false
}

/// Sets every descendant sub task of `id` that [follows](StoreView::follows_status)
/// to `status`; tasks of other users are left alone.
pub fn update_all_unblocked_descendant_sub_tasks<'a>(db: &mut TaskStore, args: UpdateTaskStatusArgs<'a>)
    ensures
        final(db)@ == with_descendants_status(old(db)@, args.id@, args.user_id@, *args.status),
{
    let id = args.id.to_owned();
    let user = args.user_id.to_owned();
    let descendants = closure_after_step(&db.sub_tasks, &id, &user, false);
    let targets = if *args.status == TaskStatus::Todo {
        descendants
    } else {
        let start = todo_blocked(&*db);
        let ghost sv = ids_view(start@);
        let blocked = closure(&db.sub_tasks, start, false);
        proof {
            assert forall|x: Seq<char>| ids_view(blocked@).contains(x) <==> db@.blocked_below(x) by {
                if ids_view(blocked@).contains(x) {
                    let s = choose|s: Seq<char>| sv.contains(s) && #[trigger] reaches(db@.subs, false, s, x);
                    let k = choose|k: int|
                        0 <= k < db@.blocks.len() && db@.is_todo_id(#[trigger] db@.blocks[k].parent)
                            && db@.blocks[k].child == s;
                }
                if db@.blocked_below(x) {
                    let k = choose|k: int|
                        0 <= k < db@.blocks.len() && db@.is_todo_id(#[trigger] db@.blocks[k].parent)
                            && reaches(db@.subs, false, db@.blocks[k].child, x);
                    assert(sv.contains(db@.blocks[k].child));
                    assert(in_closure(db@.subs, false, sv, x));
                }
            }
        }
        ids_without(&descendants, &blocked)
    };
    let ghost st = *args.status;
    let ghost old_db = db@;
    proof {
        assert forall|x: Seq<char>| ids_view(targets@).contains(x) <==> old_db.follows_status(
            args.id@,
            args.user_id@,
            st,
            x,
        ) by {}
    }
    update_tasks_status(
        db,
        UpdateTasksStatusArgs { task_ids: &targets, status: args.status, user_id: args.user_id },
    );
    proof {
        let f1 = descendant_status_setter(old_db, args.id@, args.user_id@, st);
        let f2 = crate::task::db::listed_status_setter(ids_view(targets@), args.user_id@, st);
        assert(db@.tasks =~= old_db.tasks.map_values(f1)) by {
            assert(db@.tasks == old_db.tasks.map_values(f2));
        }
    }
}

/// The identifiers of `a` that are not in `b`.
fn ids_without(a: &Vec<String>, b: &Vec<String>) -> (r: Vec<String>)
    ensures
        forall|x: Seq<char>|
            ids_view(r@).contains(x) <==> ids_view(a@).contains(x) && !ids_view(b@).contains(x),
{
    let mut r: Vec<String> = Vec::new();
    let mut i: usize = 0;
    while i < a.len()
        invariant
            i <= a.len(),
            forall|x: Seq<char>|
                ids_view(r@).contains(x) <==> ids_view(a@).take(i as int).contains(x)
                    && !ids_view(b@).contains(x),
        decreases a.len() - i,
    {
        let ghost before = ids_view(r@);
        let ghost prev = ids_view(a@).take(i as int);
        let ghost next = ids_view(a@).take(i + 1);
        assert(next =~= prev.push(a@[i as int]@));
        if !contains_id(b, &a[i]) {
            let c = a[i].clone();
            proof {
                lemma_ids_view_push(r@, c);
            }
            r.push(c);
        }
        proof {
            assert forall|x: Seq<char>|
                ids_view(r@).contains(x) <==> next.contains(x) && !ids_view(b@).contains(x) by {
                if ids_view(r@).contains(x) {
                    let j = choose|j: int| 0 <= j < ids_view(r@).len() && ids_view(r@)[j] == x;
                    if j < before.len() {
                        assert(before[j] == x);
                        assert(before.contains(x));
                        let k = choose|k: int| 0 <= k < prev.len() && prev[k] == x;
                        assert(next[k] == x);
                    } else {
                        assert(next[i as int] == x);
                    }
                }
                if next.contains(x) && !ids_view(b@).contains(x) {
                    let k = choose|k: int| 0 <= k < next.len() && next[k] == x;
                    if k < i {
                        assert(prev[k] == x);
                        assert(before.contains(x));
                        let j = choose|j: int| 0 <= j < before.len() && before[j] == x;
                        assert(ids_view(r@)[j] == x);
                    } else {
                        assert(ids_view(r@)[before.len() as int] == x);
                    }
                }
            }
        }
        i = i + 1;
    }
    assert(ids_view(a@).take(i as int) =~= ids_view(a@));
    r
}

/// Why a blocking link was refused.
#[derive(Debug, Clone, Copy, PartialEq, Eq, Structural)]
pub enum BlockTaskConnectionError {
    /// One of the tasks is not a task of the user, or both are the same.
    TaskNotFound,
    /// The blocked task is a sub task, at some depth, of the blocking task.
    IsSubTask,
    /// The blocked task is already an ancestor of the blocking task.
    CircularTask,
    Unknown(DbError),
}

/// The answer of [`check_insert_block_task_connection`]: the first rule the
/// link `blocking -> blocked` breaks.
pub open spec fn block_task_check(
    db: StoreView,
    blocking: Seq<char>,
    blocked: Seq<char>,
    user: Seq<char>,
) -> Result<(), BlockTaskConnectionError> {
    if !all_tasks_exist(db, seq![blocking, blocked], user) {
        Err(BlockTaskConnectionError::TaskNotFound)
    } else if reached_after_step(db.subs, false, blocking, user, blocked) {
        Err(BlockTaskConnectionError::IsSubTask)
    } else if db.closes_cycle(blocking, blocked, user) {
        Err(BlockTaskConnectionError::CircularTask)
    } else {
        Ok(())
    }
}

/// Checks the rules a new blocking link must keep.
pub fn check_insert_block_task_connection<'a>(
    db: &TaskStore,
    args: &InsertBlockTaskConnectionArgs<'a>,
) -> (r: Result<(), BlockTaskConnectionError>)
    ensures
        r == block_task_check(db@, args.blocking_task_id@, args.blocked_task_id@, args.user_id@),
{
    let ids = vec![args.blocking_task_id.to_owned(), args.blocked_task_id.to_owned()];
    proof {
        assert(ids_view(ids@) =~= seq![args.blocking_task_id@, args.blocked_task_id@]);
    }
    if exists_tasks(db, ExistsTasksArg { task_ids: &ids, user_id: args.user_id }).is_err() {
        return Err(BlockTaskConnectionError::TaskNotFound);
    }
    if is_sub_task(
        db,
        IsSubTaskArgs {
            main_task_id: args.blocking_task_id,
            task_id: args.blocked_task_id,
            user_id: args.user_id,
        },
    ) {
        return Err(BlockTaskConnectionError::IsSubTask);
    }
    if detect_circular_connection(
        db,
        DetectCircularConnectionArgs {
            parent_task_id: args.blocking_task_id,
            child_task_id: args.blocked_task_id,
            user_id: args.user_id,
        },
    ) {
        return Err(BlockTaskConnectionError::CircularTask);
    }
    Ok(())
}

/// Which link [`is_blocked_task`] looks for.
pub struct IsBlockedTaskArgs<'a> {
    pub blocking_task_id: &'a str,
    pub task_id: &'a str,
}

/// Whether `blocking_task_id` blocks `task_id`, whoever recorded it.
pub fn is_blocked_task<'a>(db: &TaskStore, args: IsBlockedTaskArgs<'a>) -> (r: bool)
    ensures
        r == has_pair(db@.blocks, args.blocking_task_id@, args.task_id@),
{
    links_have_pair(&db.blocking_tasks, &args.blocking_task_id.to_owned(), &args.task_id.to_owned())
}

impl StoreView {
    /// Every task that blocks `id`, or blocks a task above `id` through
    /// sub-task and blocking links, is done.
    pub open spec fn blockers_done(self, id: Seq<char>) -> bool {
        forall|k: int, j: int|
            0 <= k < self.blocks.len() && 0 <= j < self.tasks.len() && reaches(
                self.all_links(),
                true,
                id,
                #[trigger] self.blocks[k].child,
            ) && #[trigger] self.tasks[j].id == self.blocks[k].parent ==> self.tasks[j].status
                == TaskStatus::Done
    }
}

/// Whether every task blocking `task_id` or one of the tasks above it is
/// done.
pub fn is_all_blocking_tasks_done(db: &TaskStore, task_id: &str) -> (r: bool)
    ensures
        r == db@.blockers_done(task_id@),
{
    let id = task_id.to_owned();
    let all = concat_links(&db.sub_tasks, &db.blocking_tasks);
    let start = vec![id];
    proof {
        assert(ids_view(start@) =~= seq![task_id@]);
    }
    let ghost sv = ids_view(start@);
    let above = closure(&all, start, true);
    let ghost av = ids_view(above@);
    proof {
        assert forall|x: Seq<char>| av.contains(x) <==> reaches(db@.all_links(), true, task_id@, x) by {
            if reaches(db@.all_links(), true, task_id@, x) {
                assert(sv[0] == task_id@);
                assert(sv.contains(task_id@));
                assert(in_closure(db@.all_links(), true, sv, x));
            }
            if av.contains(x) {
                let s = choose|s: Seq<char>| sv.contains(s) && #[trigger] reaches(db@.all_links(), true, s, x);
                assert(sv[0] == task_id@);
            }
        }
    }
    let mut k: usize = 0;
    while k < db.blocking_tasks.len()
        invariant
            k <= db.blocking_tasks.len(),
            av == ids_view(above@),
            forall|x: Seq<char>| av.contains(x) <==> reaches(db@.all_links(), true, task_id@, x),
            forall|kk: int, j: int|
                0 <= kk < k && 0 <= j < db@.tasks.len() && reaches(
                    db@.all_links(),
                    true,
                    task_id@,
                    #[trigger] db@.blocks[kk].child,
                ) && #[trigger] db@.tasks[j].id == db@.blocks[kk].parent ==> db@.tasks[j].status
                    == TaskStatus::Done,
        decreases db.blocking_tasks.len() - k,
    {
        assert(db@.blocks[k as int] == db.blocking_tasks@[k as int]@);
        let l = &db.blocking_tasks[k];
        if contains_id(&above, &l.child) {
            if is_todo(db, &l.parent) {
                proof {
                    let j = choose|j: int|
                        0 <= j < db@.tasks.len() && #[trigger] db@.tasks[j].id == db@.blocks[k as int].parent
                            && db@.tasks[j].status == TaskStatus::Todo;
                    assert(reaches(db@.all_links(), true, task_id@, db@.blocks[k as int].child));
                }
                return false;
            }
        }
        k = k + 1;
    }
    true
}

} // verus!
