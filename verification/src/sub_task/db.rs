//! Reads and writes of the sub-task relation, the checks on a new link, and
//! the propagation of status to main tasks.

use vstd::prelude::*;
use crate::laws::{propagation_ends, law_propagation_bound_is_enough};
use crate::graph::{
    Link, LinkView, links_view, ids_view, reached_after_step, closure_after_step, contains_id,
    lemma_links_view_push,
};
use crate::store::{TaskRecordView, TaskStore, StoreView, DbError, is_task_of, children_of};
use crate::task::TaskStatus;
use crate::task::db::{
    has_id, exists_tasks, ExistsTasksArg, all_tasks_exist, detect_circular_connection,
    DetectCircularConnectionArgs, find_task, FindTaskArgs, is_all_tasks_done, update_task_status,
    UpdateTaskStatusArgs, with_status, with_task_status,
};
use crate::block_task::db::{is_blocked_task, IsBlockedTaskArgs};

verus! {

/// A new sub-task link.
pub struct InsertSubTaskConnectionArgs<'a> {
    pub main_task_id: &'a str,
    pub sub_task_id: &'a str,
    pub user_id: &'a str,
}

/// The link `parent -> child` recorded for `user`.
pub open spec fn link_of(parent: Seq<char>, child: Seq<char>, user: Seq<char>) -> LinkView {
    LinkView { parent, child, user_id: user }
}

/// The links other than `target`.
pub open spec fn without_link(links: Seq<LinkView>, target: LinkView) -> Seq<LinkView> {
    links.filter(other_than(target))
}

/// Holds of the links other than `target`.
pub open spec fn other_than(target: LinkView) -> spec_fn(LinkView) -> bool {
    |l: LinkView| l != target
}

/// Some link of `links` goes from `parent` to `child`, whatever its user.
pub open spec fn has_pair(links: Seq<LinkView>, parent: Seq<char>, child: Seq<char>) -> bool {
    exists|k: int|
        0 <= k < links.len() && #[trigger] links[k].parent == parent && links[k].child == child
}

/// Whether some link goes from `parent` to `child`.
pub fn links_have_pair(links: &Vec<Link>, parent: &String, child: &String) -> (r: bool)
    ensures
        r == has_pair(links_view(links@), parent@, child@),
{
    let mut i: usize = 0;
    while i < links.len()
        invariant
            i <= links.len(),
            forall|k: int|
                0 <= k < i ==> !(#[trigger] links_view(links@)[k].parent == parent@
                    && links_view(links@)[k].child == child@),
        decreases links.len() - i,
    {
        assert(links_view(links@)[i as int] == links@[i as int]@);
        if links[i].parent == *parent && links[i].child == *child {
            assert(links_view(links@)[i as int].parent == parent@);
            return true;
        }
        i = i + 1;
    }
    false
}

/// Adds a link to `links` when both ends are stored tasks and the pair is
/// new.
pub fn insert_link(db: &TaskStore, links: &mut Vec<Link>, parent: &str, child: &str, user: &str) -> (r:
    Result<(), DbError>)
    ensures
        !db@.has_id(parent@) || !db@.has_id(child@) ==> r == Err::<(), DbError>(
            DbError::MissingReference,
        ) && links_view(final(links)@) == links_view(old(links)@),
        db@.has_id(parent@) && db@.has_id(child@) && has_pair(links_view(old(links)@), parent@, child@)
            ==> r == Err::<(), DbError>(DbError::Conflict) && links_view(final(links)@)
            == links_view(old(links)@),
        db@.has_id(parent@) && db@.has_id(child@) && !has_pair(links_view(old(links)@), parent@, child@)
            ==> r == Ok::<(), DbError>(()) && links_view(final(links)@) == links_view(old(links)@).push(
            link_of(parent@, child@, user@),
        ),
{
    let p = parent.to_owned();
    let c = child.to_owned();
    if !has_id(db, &p) || !has_id(db, &c) {
        return Err(DbError::MissingReference);
    }
    if links_have_pair(links, &p, &c) {
        return Err(DbError::Conflict);
    }
    let l = Link { parent: p, child: c, user_id: user.to_owned() };
    proof {
        lemma_links_view_push(links@, l);
    }
    links.push(l);
    Ok(())
}

/// Records `sub_task_id` as a sub task of `main_task_id`. Fails when either
/// task is not stored or the pair is recorded already.
pub fn insert_sub_task_connection<'a>(db: &mut TaskStore, args: InsertSubTaskConnectionArgs<'a>) -> (r:
    Result<(), DbError>)
    ensures
        !old(db)@.has_id(args.main_task_id@) || !old(db)@.has_id(args.sub_task_id@) ==> r
            == Err::<(), DbError>(DbError::MissingReference) && final(db)@ == old(db)@,
        old(db)@.has_id(args.main_task_id@) && old(db)@.has_id(args.sub_task_id@) && has_pair(
            old(db)@.subs,
            args.main_task_id@,
            args.sub_task_id@,
        ) ==> r == Err::<(), DbError>(DbError::Conflict) && final(db)@ == old(db)@,
        old(db)@.has_id(args.main_task_id@) && old(db)@.has_id(args.sub_task_id@) && !has_pair(
            old(db)@.subs,
            args.main_task_id@,
            args.sub_task_id@,
        ) ==> r == Ok::<(), DbError>(()) && final(db)@ == (StoreView {
            subs: old(db)@.subs.push(link_of(args.main_task_id@, args.sub_task_id@, args.user_id@)),
            ..old(db)@
        }),
{
    let mut subs: Vec<Link> = Vec::new();
    std::mem::swap(&mut subs, &mut db.sub_tasks);
    let r = insert_link(&*db, &mut subs, args.main_task_id, args.sub_task_id, args.user_id);
    db.sub_tasks = subs;
    r
}

/// Removes every link `parent -> child` of `user`; fails when there is none.
pub fn delete_link(links: &mut Vec<Link>, parent: &str, child: &str, user: &str) -> (r: Result<
    (),
    DbError,
>)
    ensures
        !links_view(old(links)@).contains(link_of(parent@, child@, user@)) ==> r == Err::<
            (),
            DbError,
        >(DbError::NotFound) && links_view(final(links)@) == links_view(old(links)@),
        links_view(old(links)@).contains(link_of(parent@, child@, user@)) ==> r == Ok::<(), DbError>(())
            && links_view(final(links)@) == without_link(
            links_view(old(links)@),
            link_of(parent@, child@, user@),
        ),
{
    let p = parent.to_owned();
    let c = child.to_owned();
    let u = user.to_owned();
    let ghost target = link_of(parent@, child@, user@);
    let ghost lv = links_view(links@);
    let mut kept: Vec<Link> = Vec::new();
    let mut found = false;
    let mut i: usize = 0;
    while i < links.len()
        invariant
            i <= links.len(),
            lv == links_view(links@),
            target == link_of(parent@, child@, user@),
            p@ == parent@,
            c@ == child@,
            u@ == user@,
            links_view(kept@) == without_link(lv.take(i as int), target),
            found <==> lv.take(i as int).contains(target),
        decreases links.len() - i,
    {
        proof {
            reveal(Seq::filter);
            let s = lv.take(i + 1);
            assert(s.drop_last() =~= lv.take(i as int));
            assert(s.last() == links@[i as int]@);
        }
        let l = &links[i];
        let is_target = l.parent == p && l.child == c && l.user_id == u;
        if is_target {
            found = true;
        } else {
            let k = l.copy();
            proof {
                lemma_links_view_push(kept@, k);
            }
            kept.push(k);
        }
        proof {
            reveal(Seq::filter);
            let s = lv.take(i + 1);
            assert(is_target <==> s.last() == target);
            assert(without_link(s, target) == if s.last() != target {
                without_link(s.drop_last(), target).push(s.last())
            } else {
                without_link(s.drop_last(), target)
            });
            if lv.take(i as int).contains(target) {
                let j = choose|j: int| 0 <= j < i && lv.take(i as int)[j] == target;
                assert(s[j] == target);
            }
            if s.contains(target) && !is_target {
                let j = choose|j: int| 0 <= j < i + 1 && s[j] == target;
                assert(lv.take(i as int)[j] == target);
            }
            if is_target {
                assert(s[i as int] == target);
            }
        }
        i = i + 1;
    }
    assert(lv.take(i as int) =~= lv);
    assert(links_view(kept@) == without_link(lv, target));
    if !found {
        return Err(DbError::NotFound);
    }
    *links = kept;
    Ok(())
}

/// The sub-task link to remove.
pub struct DeleteSubTaskConnectionArgs<'a> {
    pub main_task_id: &'a str,
    pub sub_task_id: &'a str,
    pub user_id: &'a str,
}

/// Removes the sub-task link; fails when it is not recorded.
pub fn delete_sub_task_connection<'a>(db: &mut TaskStore, args: DeleteSubTaskConnectionArgs<'a>) -> (r:
    Result<(), DbError>)
    ensures
        ({
            let target = link_of(args.main_task_id@, args.sub_task_id@, args.user_id@);
            &&& !old(db)@.subs.contains(target) ==> r == Err::<(), DbError>(DbError::NotFound)
                && final(db)@ == old(db)@
            &&& old(db)@.subs.contains(target) ==> r == Ok::<(), DbError>(()) && final(db)@ == (StoreView {
                subs: without_link(old(db)@.subs, target),
                ..old(db)@
            })
        }),
{
    let mut subs: Vec<Link> = Vec::new();
    std::mem::swap(&mut subs, &mut db.sub_tasks);
    let r = delete_link(&mut subs, args.main_task_id, args.sub_task_id, args.user_id);
    db.sub_tasks = subs;
    r
}

/// Why a sub-task link was refused.
#[derive(Debug, Clone, Copy, PartialEq, Eq, Structural)]
pub enum SubTaskConnectionError {
    /// One of the tasks is not a task of the user, or both are the same.
    TaskNotFound,
    /// The sub task is already an ancestor of the main task.
    CircularTask,
    /// The sub task has a main task already.
    MultipleMainTask,
    /// The main task blocks the sub task.
    BlockedByMainTask,
    Unknown(DbError),
}

/// Some sub-task link has `child` as its sub task.
pub open spec fn has_main(subs: Seq<LinkView>, child: Seq<char>) -> bool {
    exists|k: int| 0 <= k < subs.len() && #[trigger] subs[k].child == child
}

/// The answer of [`check_sub_task_connection`]: the first rule the link
/// `main -> sub` breaks.
pub open spec fn sub_task_check(db: StoreView, main: Seq<char>, sub: Seq<char>, user: Seq<char>) -> Result<
    (),
    SubTaskConnectionError,
> {
    if !all_tasks_exist(db, seq![main, sub], user) {
        Err(SubTaskConnectionError::TaskNotFound)
    } else if db.closes_cycle(main, sub, user) {
        Err(SubTaskConnectionError::CircularTask)
    } else if has_pair(db.blocks, main, sub) {
        Err(SubTaskConnectionError::BlockedByMainTask)
    } else if has_main(db.subs, sub) {
        Err(SubTaskConnectionError::MultipleMainTask)
    } else {
        Ok(())
    }
}

/// Checks the rules a new sub-task link must keep.
pub fn check_sub_task_connection<'a>(db: &TaskStore, args: &InsertSubTaskConnectionArgs<'a>) -> (r:
    Result<(), SubTaskConnectionError>)
    ensures
        r == sub_task_check(db@, args.main_task_id@, args.sub_task_id@, args.user_id@),
{
    let ids = vec![args.main_task_id.to_owned(), args.sub_task_id.to_owned()];
    proof {
        assert(ids_view(ids@) =~= seq![args.main_task_id@, args.sub_task_id@]);
    }
    if exists_tasks(db, ExistsTasksArg { task_ids: &ids, user_id: args.user_id }).is_err() {
        return Err(SubTaskConnectionError::TaskNotFound);
    }
    if detect_circular_connection(
        db,
        DetectCircularConnectionArgs {
            parent_task_id: args.main_task_id,
            child_task_id: args.sub_task_id,
            user_id: args.user_id,
        },
    ) {
        return Err(SubTaskConnectionError::CircularTask);
    }
    if is_blocked_task(
        db,
        IsBlockedTaskArgs { blocking_task_id: args.main_task_id, task_id: args.sub_task_id },
    ) {
        return Err(SubTaskConnectionError::BlockedByMainTask);
    }
    if has_main_task(db, args.sub_task_id) {
        return Err(SubTaskConnectionError::MultipleMainTask);
    }
    Ok(())
}

/// Which descendant [`is_sub_task`] looks for.
pub struct IsSubTaskArgs<'a> {
    pub main_task_id: &'a str,
    pub task_id: &'a str,
    pub user_id: &'a str,
}

/// Whether `task_id` is a sub task of `main_task_id`, directly or through
/// other sub tasks (the first link recorded for `user_id`).
pub fn is_sub_task<'a>(db: &TaskStore, args: IsSubTaskArgs<'a>) -> (r: bool)
    ensures
        r == reached_after_step(db@.subs, false, args.main_task_id@, args.user_id@, args.task_id@),
{
    let main = args.main_task_id.to_owned();
    let user = args.user_id.to_owned();
    let descendants = closure_after_step(&db.sub_tasks, &main, &user, false);
    contains_id(&descendants, &args.task_id.to_owned())
}

/// Whether `task_id` is the sub task of some task.
pub fn has_main_task(db: &TaskStore, task_id: &str) -> (r: bool)
    ensures
        r == has_main(db@.subs, task_id@),
{
    let id = task_id.to_owned();
    let mut i: usize = 0;
    while i < db.sub_tasks.len()
        invariant
            i <= db.sub_tasks.len(),
            id@ == task_id@,
            forall|k: int| 0 <= k < i ==> #[trigger] db@.subs[k].child != task_id@,
        decreases db.sub_tasks.len() - i,
    {
        assert(db@.subs[i as int] == db.sub_tasks@[i as int]@);
        if db.sub_tasks[i].child == id {
            assert(db@.subs[i as int].child == task_id@);
            return true;
        }
        i = i + 1;
    }
    false
}

/// Whose main task [`find_main_task_id`] reads.
pub struct FindMainTaskIdsArgs<'a> {
    pub sub_task_id: &'a str,
    pub user_id: &'a str,
}

/// `k` is the first sub-task link of `user` whose sub task is `child`.
pub open spec fn is_first_main_link(subs: Seq<LinkView>, child: Seq<char>, user: Seq<char>, k: int) -> bool {
    &&& 0 <= k < subs.len()
    &&& subs[k].child == child
    &&& subs[k].user_id == user
    &&& forall|j: int| 0 <= j < k ==> !(#[trigger] subs[j].child == child && subs[j].user_id == user)
}

/// The main task of `child`, from the first link recorded for `user`.
pub open spec fn main_task_of(db: StoreView, child: Seq<char>, user: Seq<char>) -> Option<Seq<char>> {
    if exists|k: int| is_first_main_link(db.subs, child, user, k) {
        Some(db.subs[choose|k: int| is_first_main_link(db.subs, child, user, k)].parent)
    } else {
        None
    }
}

/// Reads the main task of `sub_task_id` as recorded for `user_id`.
pub fn find_main_task_id<'a>(db: &TaskStore, args: FindMainTaskIdsArgs<'a>) -> (r: Option<String>)
    ensures
        match r {
            Some(m) => main_task_of(db@, args.sub_task_id@, args.user_id@) == Some(m@),
            None => main_task_of(db@, args.sub_task_id@, args.user_id@) is None,
        },
{
    let id = args.sub_task_id.to_owned();
    let user = args.user_id.to_owned();
    let mut i: usize = 0;
    while i < db.sub_tasks.len()
        invariant
            i <= db.sub_tasks.len(),
            id@ == args.sub_task_id@,
            user@ == args.user_id@,
            forall|j: int|
                0 <= j < i ==> !(#[trigger] db@.subs[j].child == id@ && db@.subs[j].user_id
                    == user@),
        decreases db.sub_tasks.len() - i,
    {
        assert(db@.subs[i as int] == db.sub_tasks@[i as int]@);
        if db.sub_tasks[i].child == id && db.sub_tasks[i].user_id == user {
            proof {
                assert(is_first_main_link(db@.subs, id@, user@, i as int));
                let k = choose|k: int| is_first_main_link(db@.subs, id@, user@, k);
                if k < i {
                    assert(!(db@.subs[k].child == id@ && db@.subs[k].user_id == user@));
                } else if k > i {
                    assert(!(db@.subs[i as int].child == id@ && db@.subs[i as int].user_id
                        == user@));
                }
            }
            return Some(db.sub_tasks[i].parent.clone());
        }
        i = i + 1;
    }
    proof {
        if exists|k: int| is_first_main_link(db@.subs, id@, user@, k) {
            let k = choose|k: int| is_first_main_link(db@.subs, id@, user@, k);
            assert(!(db@.subs[k].child == id@ && db@.subs[k].user_id == user@));
        }
    }
    None
}

/// The task whose main tasks to bring up to date, and its user.
pub struct TaskAndUser<'a> {
    pub task_id: &'a str,
    pub user_id: &'a str,
}

/// Done when every stored task among the sub tasks of `id` (links recorded
/// for `user`) is done.
pub open spec fn status_from_subs(db: StoreView, id: Seq<char>, user: Seq<char>) -> TaskStatus {
    if forall|k: int|
        0 <= k < db.tasks.len() && children_of(db.subs, id, user).contains(#[trigger] db.tasks[k].id)
            ==> db.tasks[k].status == TaskStatus::Done {
        TaskStatus::Done
    } else {
        TaskStatus::Todo
    }
}

/// The store once the task `id` of `user`, when it has sub tasks, takes the
/// status of its sub tasks.
pub open spec fn refreshed(db: StoreView, id: Seq<char>, user: Seq<char>) -> StoreView {
    if children_of(db.subs, id, user) == Set::<Seq<char>>::empty() {
        db
    } else {
        with_task_status(db, id, user, status_from_subs(db, id, user))
    }
}

/// The store and the outcome once the task `id` and then its main task, and
/// that task's main task, and so on for at most `fuel` further steps, have
/// each taken the status of their sub tasks. Fails when a task on the way
/// is not a task of `user`.
pub open spec fn propagate(db: StoreView, id: Seq<char>, user: Seq<char>, fuel: nat) -> (
    StoreView,
    Result<(), DbError>,
)
    decreases fuel,
{
    if !db.has_task(id, user) {
        (db, Err(DbError::NotFound))
    } else {
        let next = refreshed(db, id, user);
        match main_task_of(next, id, user) {
            None => (next, Ok(())),
            Some(m) => if fuel == 0 {
                (next, Ok(()))
            } else {
                propagate(next, m, user, (fuel - 1) as nat)
            },
        }
    }
}

/// Brings the task `task_id` and all its main tasks up to date: each that
/// has sub tasks becomes done exactly when all its sub tasks are. The walk
/// up the chain of main tasks takes at most as many steps as there are
/// sub-task links. Wherever a walk without that bound comes to an end, the
/// bound changes nothing (the second clause). Where the chain runs into a
/// cycle of the user's tasks, a walk without bound would never end; this
/// one stops after those steps. A store kept by the rules has no such
/// cycle.
pub fn update_task_and_all_ancestor_main_tasks_status<'a>(db: &mut TaskStore, args: TaskAndUser<'a>) -> (r:
    Result<(), DbError>)
    ensures
        (final(db)@, r) == propagate(old(db)@, args.task_id@, args.user_id@, old(db)@.subs.len()),
        propagation_ends(old(db)@, args.task_id@, args.user_id@) ==> forall|extra: nat|
            (final(db)@, r) == #[trigger] propagate(
                old(db)@,
                args.task_id@,
                args.user_id@,
                old(db)@.subs.len() + extra,
            ),
{
    proof {
        if propagation_ends(db@, args.task_id@, args.user_id@) {
            assert forall|extra: nat| #[trigger] propagate(db@, args.task_id@, args.user_id@, db@.subs.len() + extra)
                == propagate(db@, args.task_id@, args.user_id@, db@.subs.len()) by {
                law_propagation_bound_is_enough(db@, args.task_id@, args.user_id@, extra);
            }
        }
    }
    let ghost goal = propagate(db@, args.task_id@, args.user_id@, db@.subs.len());
    let fuel = db.sub_tasks.len();
    let mut steps: usize = 0;
    let mut id = args.task_id.to_owned();
    loop
        invariant
            steps <= fuel,
            fuel == old(db)@.subs.len(),
            goal == propagate(old(db)@, args.task_id@, args.user_id@, old(db)@.subs.len()),
            goal == propagate(db@, id@, args.user_id@, (fuel - steps) as nat),
            propagation_ends(old(db)@, args.task_id@, args.user_id@) ==> forall|extra: nat|
                #[trigger] propagate(old(db)@, args.task_id@, args.user_id@, old(db)@.subs.len() + extra)
                    == propagate(old(db)@, args.task_id@, args.user_id@, old(db)@.subs.len()),
        decreases fuel - steps,
    {
        let task = match find_task(&*db, FindTaskArgs { user_id: args.user_id, task_id: id.as_str() }) {
            Ok(t) => t,
            Err(e) => {
                return Err(e);
            },
        };
        let ghost before = db@;
        proof {
            let i = choose|i: int| #[trigger] before.is_first_task(id@, args.user_id@, i)
                && before.describes(i, task@);
            assert(task@.sub_task_ids.to_set() == children_of(before.subs, id@, args.user_id@));
        }
        if task.sub_task_ids.len() > 0 {
            let done = is_all_tasks_done(&*db, &task.sub_task_ids);
            let status = if done {
                TaskStatus::Done
            } else {
                TaskStatus::Todo
            };
            proof {
                assert(task@.sub_task_ids.contains(task@.sub_task_ids[0]));
                assert(children_of(before.subs, id@, args.user_id@).contains(task@.sub_task_ids[0]));
                assert(status == status_from_subs(before, id@, args.user_id@));
            }
            let _ = update_task_status(
                db,
                UpdateTaskStatusArgs { id: id.as_str(), status: &status, user_id: args.user_id },
            );
        } else {
            proof {
                assert(children_of(before.subs, id@, args.user_id@) =~= Set::<Seq<char>>::empty());
            }
        }
        assert(db@ == refreshed(before, id@, args.user_id@));
        match find_main_task_id(&*db, FindMainTaskIdsArgs { sub_task_id: id.as_str(), user_id: args.user_id }) {
            None => {
                return Ok(());
            },
            Some(m) => {
                if steps == fuel {
                    return Ok(());
                }
                id = m;
                steps = steps + 1;
            },
        }
    }
}

/// Brings all the main tasks of `task_id` up to date, starting with its own
/// main task.
pub fn update_all_ancestor_main_tasks_status<'a>(db: &mut TaskStore, args: TaskAndUser<'a>) -> (r:
    Result<(), DbError>)
    ensures
        match main_task_of(old(db)@, args.task_id@, args.user_id@) {
            None => r == Ok::<(), DbError>(()) && final(db)@ == old(db)@,
            Some(m) => (final(db)@, r) == propagate(old(db)@, m, args.user_id@, old(db)@.subs.len()),
        },
{
    match find_main_task_id(&*db, FindMainTaskIdsArgs { sub_task_id: args.task_id, user_id: args.user_id }) {
        None => Ok(()),
        Some(m) => update_task_and_all_ancestor_main_tasks_status(
            db,
            TaskAndUser { task_id: m.as_str(), user_id: args.user_id },
        ),
    }
}

} // verus!
