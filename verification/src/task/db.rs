//! Reads and writes of task records, and the cycle check on links.

use vstd::prelude::*;
use crate::graph::{
    Link, LinkView, links_view, ids_view, reached_after_step, closure_after_step, concat_links,
    contains_id,
};
use crate::store::{
    TaskRecord, TaskRecordView, TaskStore, StoreView, DbError, records_view, is_task_of,
    first_task_index, describe, lemma_records_view_push,
};
use crate::task::{Task, TaskStatus, TaskView};
use crate::graph::lemma_links_view_push;

verus! {

/// Which task to read.
pub struct FindTaskArgs<'a> {
    pub user_id: &'a str,
    pub task_id: &'a str,
}

/// Reads the task `task_id` of `user_id`, with its sub tasks and the tasks
/// it blocks.
pub fn find_task<'a>(db: &TaskStore, args: FindTaskArgs<'a>) -> (r: Result<Task, DbError>)
    ensures
        match r {
            Ok(t) => db@.found(args.task_id@, args.user_id@, t@),
            Err(e) => e == DbError::NotFound && !db@.has_task(args.task_id@, args.user_id@),
        },
{
    let id = args.task_id.to_owned();
    let user = args.user_id.to_owned();
    match first_task_index(db, &id, &user) {
        Some(i) => {
            let t = describe(db, i);
            assert(db@.is_first_task(id@, user@, i as int));
            Ok(t)
        },
        None => Err(DbError::NotFound),
    }
}

/// The positions of the records of `user` that come first with their
/// identifier, in table order: one record per identifier of the user.
pub open spec fn user_positions(tasks: Seq<TaskRecordView>, user: Seq<char>) -> Seq<int>
    decreases tasks.len(),
{
    if tasks.len() == 0 {
        Seq::empty()
    } else {
        let p = user_positions(tasks.drop_last(), user);
        let t = tasks.last();
        if t.user_id == user && !(exists|q: int|
            0 <= q < tasks.len() - 1 && #[trigger] is_task_of(tasks[q], t.id, user)) {
            p.push(tasks.len() - 1)
        } else {
            p
        }
    }
}

proof fn lemma_user_positions_bound(tasks: Seq<TaskRecordView>, user: Seq<char>)
    ensures
        forall|k: int|
            0 <= k < user_positions(tasks, user).len() ==> 0 <= #[trigger] user_positions(
                tasks,
                user,
            )[k] < tasks.len() && tasks[user_positions(tasks, user)[k]].user_id == user,
    decreases tasks.len(),
{
    if tasks.len() > 0 {
        lemma_user_positions_bound(tasks.drop_last(), user);
    }
}

/// The positions of a user's first records increase, and their records
/// have distinct identifiers.
proof fn lemma_user_positions_increase(tasks: Seq<TaskRecordView>, user: Seq<char>)
    ensures
        forall|a: int, b: int|
            0 <= a < b < user_positions(tasks, user).len() ==> #[trigger] user_positions(tasks, user)[a]
                < #[trigger] user_positions(tasks, user)[b] && tasks[user_positions(tasks, user)[a]].id
                != tasks[user_positions(tasks, user)[b]].id,
    decreases tasks.len(),
{
    if tasks.len() > 0 {
        let d = tasks.drop_last();
        lemma_user_positions_increase(d, user);
        lemma_user_positions_bound(d, user);
        let p = user_positions(d, user);
        let pos = user_positions(tasks, user);
        assert forall|a: int, b: int| 0 <= a < b < pos.len() implies #[trigger] pos[a] < #[trigger] pos[b]
            && tasks[pos[a]].id != tasks[pos[b]].id by {
            if b < p.len() {
                assert(pos[a] == p[a] && pos[b] == p[b]);
                assert(d[p[a]] == tasks[p[a]] && d[p[b]] == tasks[p[b]]);
            } else {
                assert(pos[a] == p[a]);
                assert(pos[b] == tasks.len() - 1);
                assert(d[p[a]] == tasks[p[a]]);
                if tasks[p[a]].id == tasks[pos[b]].id {
                    assert(is_task_of(tasks[p[a]], tasks.last().id, user));
                }
            }
        }
    }
}

/// Every identifier of the user's records has its first record among the
/// positions.
proof fn lemma_user_positions_complete(tasks: Seq<TaskRecordView>, user: Seq<char>)
    ensures
        forall|j: int|
            0 <= j < tasks.len() && #[trigger] tasks[j].user_id == user ==> exists|k: int|
                0 <= k < user_positions(tasks, user).len() && tasks[#[trigger] user_positions(tasks, user)[k]].id
                    == tasks[j].id,
    decreases tasks.len(),
{
    if tasks.len() > 0 {
        let d = tasks.drop_last();
        lemma_user_positions_complete(d, user);
        lemma_user_positions_bound(d, user);
        let p = user_positions(d, user);
        let pos = user_positions(tasks, user);
        assert forall|j: int| 0 <= j < tasks.len() && #[trigger] tasks[j].user_id == user implies exists|k: int|
            0 <= k < pos.len() && tasks[#[trigger] pos[k]].id == tasks[j].id by {
            if j < d.len() {
                assert(d[j] == tasks[j]);
                let k = choose|k: int| 0 <= k < p.len() && d[#[trigger] p[k]].id == d[j].id;
                assert(pos[k] == p[k]);
                assert(d[p[k]] == tasks[p[k]]);
            } else {
                let t = tasks.last();
                if exists|q: int| 0 <= q < tasks.len() - 1 && #[trigger] is_task_of(tasks[q], t.id, user) {
                    let q = choose|q: int| 0 <= q < tasks.len() - 1 && #[trigger] is_task_of(tasks[q], t.id, user);
                    assert(d[q] == tasks[q]);
                    assert(d[q].user_id == user);
                    let k = choose|k: int| 0 <= k < p.len() && d[#[trigger] p[k]].id == d[q].id;
                    assert(pos[k] == p[k]);
                    assert(d[p[k]] == tasks[p[k]]);
                } else {
                    assert(pos[p.len() as int] == tasks.len() - 1);
                }
            }
        }
    }
}

/// Reads every task of `user_id`, in table order, one per identifier: of
/// records that share an identifier, the first one stands for them.
pub fn find_tasks(db: &TaskStore, user_id: &str) -> (r: Vec<Task>)
    ensures
        r@.len() == user_positions(db@.tasks, user_id@).len(),
        forall|k: int|
            0 <= k < r@.len() ==> db@.describes(
                #[trigger] user_positions(db@.tasks, user_id@)[k],
                r@[k]@,
            ),
        forall|a: int, b: int|
            0 <= a < b < r@.len() ==> #[trigger] r@[a]@.id != #[trigger] r@[b]@.id,
        forall|j: int|
            0 <= j < db@.tasks.len() && #[trigger] db@.tasks[j].user_id == user_id@ ==> exists|k: int|
                0 <= k < r@.len() && #[trigger] r@[k]@.id == db@.tasks[j].id,
        forall|k: int| 0 <= k < r@.len() ==> #[trigger] r@[k]@.user_id == user_id@,
{
    let user = user_id.to_owned();
    let mut r: Vec<Task> = Vec::new();
    let mut i: usize = 0;
    while i < db.tasks.len()
        invariant
            i <= db.tasks.len(),
            user@ == user_id@,
            r@.len() == user_positions(db@.tasks.take(i as int), user@).len(),
            forall|k: int|
                0 <= k < r@.len() ==> db@.describes(
                    #[trigger] user_positions(db@.tasks.take(i as int), user@)[k],
                    r@[k]@,
                ),
        decreases db.tasks.len() - i,
    {
        proof {
            assert(db@.tasks.take(i + 1).drop_last() =~= db@.tasks.take(i as int));
            assert(db@.tasks[i as int] == db.tasks@[i as int]@);
        }
        if db.tasks[i].user_id == user {
            let first = match first_task_index(db, &db.tasks[i].id, &user) {
                Some(j) => j == i,
                None => false,
            };
            proof {
                let t = db@.tasks[i as int];
                let big = db@.tasks.take(i + 1);
                assert(big.last() == t);
                assert(is_task_of(db@.tasks[i as int], t.id, user@));
                if exists|q: int| 0 <= q < big.len() - 1 && #[trigger] is_task_of(big[q], t.id, user@) {
                    let q = choose|q: int| 0 <= q < big.len() - 1 && #[trigger] is_task_of(big[q], t.id, user@);
                    assert(big[q] == db@.tasks[q]);
                    assert(!first);
                } else {
                    assert forall|q: int| 0 <= q < i implies !is_task_of(#[trigger] db@.tasks[q], t.id, user@) by {
                        assert(big[q] == db@.tasks[q]);
                    }
                    assert(db@.is_first_task(t.id, user@, i as int));
                }
            }
            if first {
                let t = describe(db, i);
                r.push(t);
            }
        }
        i = i + 1;
    }
    assert(db@.tasks.take(i as int) =~= db@.tasks);
    proof {
        let pos = user_positions(db@.tasks, user_id@);
        lemma_user_positions_increase(db@.tasks, user_id@);
        lemma_user_positions_bound(db@.tasks, user_id@);
        lemma_user_positions_complete(db@.tasks, user_id@);
        assert forall|j: int| 0 <= j < db@.tasks.len() && #[trigger] db@.tasks[j].user_id == user_id@ implies exists|k: int|
            0 <= k < r@.len() && #[trigger] r@[k]@.id == db@.tasks[j].id by {
            let k = choose|k: int| 0 <= k < pos.len() && db@.tasks[#[trigger] pos[k]].id == db@.tasks[j].id;
            assert(db@.describes(pos[k], r@[k]@));
        }
        assert forall|k: int| 0 <= k < r@.len() implies #[trigger] r@[k]@.user_id == user_id@ by {
            assert(db@.describes(pos[k], r@[k]@));
        }
        assert forall|a: int, b: int| 0 <= a < b < r@.len() implies #[trigger] r@[a]@.id
            != #[trigger] r@[b]@.id by {
            assert(db@.describes(pos[a], r@[a]@));
            assert(db@.describes(pos[b], r@[b]@));
            assert(db@.tasks[pos[a]].id != db@.tasks[pos[b]].id);
        }
    }
    r
}

/// Whether every stored record whose identifier is listed is done.
pub fn is_all_tasks_done(db: &TaskStore, task_ids: &Vec<String>) -> (r: bool)
    ensures
        r == forall|k: int|
            0 <= k < db@.tasks.len() && ids_view(task_ids@).contains(#[trigger] db@.tasks[k].id)
                ==> db@.tasks[k].status == TaskStatus::Done,
{
    let mut i: usize = 0;
    while i < db.tasks.len()
        invariant
            i <= db.tasks.len(),
            forall|k: int|
                0 <= k < i && ids_view(task_ids@).contains(#[trigger] db@.tasks[k].id)
                    ==> db@.tasks[k].status == TaskStatus::Done,
        decreases db.tasks.len() - i,
    {
        assert(db@.tasks[i as int] == db.tasks@[i as int]@);
        if db.tasks[i].status != TaskStatus::Done && contains_id(task_ids, &db.tasks[i].id) {
            assert(ids_view(task_ids@).contains(db@.tasks[i as int].id));
            return false;
        }
        i = i + 1;
    }
    true
}

/// Whether some record has the identifier `id`.
pub fn has_id(db: &TaskStore, id: &String) -> (r: bool)
    ensures
        r == db@.has_id(id@),
{
    let mut i: usize = 0;
    while i < db.tasks.len()
        invariant
            i <= db.tasks.len(),
            forall|k: int| 0 <= k < i ==> #[trigger] db@.tasks[k].id != id@,
        decreases db.tasks.len() - i,
    {
        assert(db@.tasks[i as int] == db.tasks@[i as int]@);
        if db.tasks[i].id == *id {
            assert(db@.tasks[i as int].id == id@);
            return true;
        }
        i = i + 1;
    }
    false
}

/// The fields of a new task.
pub struct InsertTaskArgs<'a> {
    pub id: &'a str,
    pub title: &'a str,
    pub description: &'a str,
    pub user_id: &'a str,
    pub status: &'a TaskStatus,
}

/// The record that [`insert_task`] stores.
pub open spec fn inserted_record(args: InsertTaskArgs, timestamp: Seq<char>) -> TaskRecordView {
    TaskRecordView {
        id: args.id@,
        title: args.title@,
        description: args.description@,
        user_id: args.user_id@,
        status: *args.status,
        created_at: timestamp,
        updated_at: timestamp,
    }
}

/// Stores a new task, created at `timestamp`, and reads it back. Fails when
/// the identifier is taken.
pub fn insert_task<'a>(db: &mut TaskStore, args: InsertTaskArgs<'a>, timestamp: &str) -> (r:
    Result<Task, DbError>)
    ensures
        old(db)@.has_id(args.id@) ==> r == Err::<Task, DbError>(DbError::Conflict) && final(db)@
            == old(db)@,
        !old(db)@.has_id(args.id@) ==> final(db)@ == (StoreView {
            tasks: old(db)@.tasks.push(inserted_record(args, timestamp@)),
            ..old(db)@
        }) && (r matches Ok(t) && final(db)@.found(args.id@, args.user_id@, t@)),
{
    let id = args.id.to_owned();
    if has_id(db, &id) {
        return Err(DbError::Conflict);
    }
    let record = TaskRecord {
        id,
        title: args.title.to_owned(),
        description: args.description.to_owned(),
        user_id: args.user_id.to_owned(),
        status: *args.status,
        created_at: timestamp.to_owned(),
        updated_at: timestamp.to_owned(),
    };
    proof {
        lemma_records_view_push(db.tasks@, record);
    }
    db.tasks.push(record);
    let r = find_task(&*db, FindTaskArgs { user_id: args.user_id, task_id: args.id });
    proof {
        let n = db@.tasks.len() - 1;
        assert(is_task_of(db@.tasks[n], args.id@, args.user_id@));
        assert(db@.has_task(args.id@, args.user_id@));
    }
    r
}

/// Which task to delete.
pub struct DeleteTaskArgs<'a> {
    pub id: &'a str,
    pub user_id: &'a str,
}

/// Holds of the records other than the task `id` of `user`.
pub open spec fn not_task_of(id: Seq<char>, user: Seq<char>) -> spec_fn(TaskRecordView) -> bool {
    |t: TaskRecordView| !is_task_of(t, id, user)
}

/// Holds of the links that touch neither end `id`.
pub open spec fn not_touching(id: Seq<char>) -> spec_fn(LinkView) -> bool {
    |l: LinkView| l.parent != id && l.child != id
}

/// The records other than the task `id` of `user`.
fn records_without(tasks: &Vec<TaskRecord>, id: &String, user: &String) -> (r: Vec<TaskRecord>)
    ensures
        records_view(r@) == records_view(tasks@).filter(not_task_of(id@, user@)),
{
    let ghost pred = not_task_of(id@, user@);
    let mut r: Vec<TaskRecord> = Vec::new();
    let mut i: usize = 0;
    while i < tasks.len()
        invariant
            i <= tasks.len(),
            pred == not_task_of(id@, user@),
            records_view(r@) == records_view(tasks@).take(i as int).filter(pred),
        decreases tasks.len() - i,
    {
        proof {
            let s = records_view(tasks@).take(i + 1);
            assert(s.drop_last() =~= records_view(tasks@).take(i as int));
            assert(s.last() == tasks@[i as int]@);
        }
        let ghost prev = records_view(r@);
        if !(tasks[i].id == *id && tasks[i].user_id == *user) {
            let c = tasks[i].copy();
            proof {
                lemma_records_view_push(r@, c);
            }
            r.push(c);
        }
        proof {
            reveal(Seq::filter);
            let s = records_view(tasks@).take(i + 1);
            assert(s.filter(pred) == if pred(s.last()) {
                s.drop_last().filter(pred).push(s.last())
            } else {
                s.drop_last().filter(pred)
            });
        }
        i = i + 1;
    }
    assert(records_view(tasks@).take(i as int) =~= records_view(tasks@));
    r
}

/// The links that touch neither end `id`.
pub fn links_without_task(links: &Vec<Link>, id: &String) -> (r: Vec<Link>)
    ensures
        links_view(r@) == links_view(links@).filter(not_touching(id@)),
{
    let ghost pred = not_touching(id@);
    let mut r: Vec<Link> = Vec::new();
    let mut i: usize = 0;
    while i < links.len()
        invariant
            i <= links.len(),
            pred == not_touching(id@),
            links_view(r@) == links_view(links@).take(i as int).filter(pred),
        decreases links.len() - i,
    {
        proof {
            let s = links_view(links@).take(i + 1);
            assert(s.drop_last() =~= links_view(links@).take(i as int));
            assert(s.last() == links@[i as int]@);
        }
        if links[i].parent != *id && links[i].child != *id {
            let c = links[i].copy();
            proof {
                lemma_links_view_push(r@, c);
            }
            r.push(c);
        }
        proof {
            reveal(Seq::filter);
            let s = links_view(links@).take(i + 1);
            assert(s.filter(pred) == if pred(s.last()) {
                s.drop_last().filter(pred).push(s.last())
            } else {
                s.drop_last().filter(pred)
            });
        }
        i = i + 1;
    }
    assert(links_view(links@).take(i as int) =~= links_view(links@));
    r
}

/// Deletes the task `id` of `user_id` and every link that names it, and
/// returns the identifier. Fails when there is no such task.
pub fn delete_task<'a>(db: &mut TaskStore, args: DeleteTaskArgs<'a>) -> (r: Result<
    String,
    DbError,
>)
    ensures
        !old(db)@.has_task(args.id@, args.user_id@) ==> r == Err::<String, DbError>(
            DbError::NotFound,
        ) && final(db)@ == old(db)@,
        old(db)@.has_task(args.id@, args.user_id@) ==> (r matches Ok(s) && s@ == args.id@)
            && final(db)@ == (StoreView {
            tasks: old(db)@.tasks.filter(not_task_of(args.id@, args.user_id@)),
            subs: old(db)@.subs.filter(not_touching(args.id@)),
            blocks: old(db)@.blocks.filter(not_touching(args.id@)),
        }),
{
    let id = args.id.to_owned();
    let user = args.user_id.to_owned();
    if first_task_index(&*db, &id, &user).is_none() {
        return Err(DbError::NotFound);
    }
    let tasks = records_without(&db.tasks, &id, &user);
    let subs = links_without_task(&db.sub_tasks, &id);
    let blocks = links_without_task(&db.blocking_tasks, &id);
    db.tasks = tasks;
    db.sub_tasks = subs;
    db.blocking_tasks = blocks;
    Ok(id)
}

/// Replaces record `i`.
pub fn set_record(db: &mut TaskStore, i: usize, record: TaskRecord)
    requires
        i < old(db)@.tasks.len(),
    ensures
        final(db)@ == (StoreView { tasks: old(db)@.tasks.update(i as int, record@), ..old(db)@ }),
        final(db).tasks@.len() == old(db).tasks@.len(),
{
    let ghost before = db.tasks@;
    db.tasks.set(i, record);
    proof {
        assert forall|k: int| 0 <= k < db@.tasks.len() implies #[trigger] db@.tasks[k]
            == old(db)@.tasks.update(i as int, record@)[k] by {
            assert(db@.tasks[k] == db.tasks@[k]@);
            assert(old(db)@.tasks[k] == before[k]@);
        }
        assert(db@.tasks =~= old(db)@.tasks.update(i as int, record@));
    }
}

/// `r` with another status.
pub open spec fn with_status(r: TaskRecordView, status: TaskStatus) -> TaskRecordView {
    TaskRecordView { status, ..r }
}

/// The description that an update leaves: the given one, or the stored
/// one when none is given.
pub open spec fn kept_description(stored: Seq<char>, given: Option<Seq<char>>) -> Seq<char> {
    match given {
        Some(d) => d,
        None => stored,
    }
}

/// `r` with another title, description (when one is given) and status.
pub open spec fn with_fields(
    r: TaskRecordView,
    title: Seq<char>,
    description: Option<Seq<char>>,
    status: TaskStatus,
) -> TaskRecordView {
    TaskRecordView { title, description: kept_description(r.description, description), status, ..r }
}

/// Gives the task `id` of `user` another title, description (when one is
/// given) and status.
pub open spec fn fields_setter(
    id: Seq<char>,
    user: Seq<char>,
    title: Seq<char>,
    description: Option<Seq<char>>,
    status: TaskStatus,
) -> spec_fn(TaskRecordView) -> TaskRecordView {
    |t: TaskRecordView|
        if is_task_of(t, id, user) {
            with_fields(t, title, description, status)
        } else {
            t
        }
}

/// The store once the task `id` of `user` has another title, description
/// (when one is given) and status.
pub open spec fn with_task_fields(
    db: StoreView,
    id: Seq<char>,
    user: Seq<char>,
    title: Seq<char>,
    description: Option<Seq<char>>,
    status: TaskStatus,
) -> StoreView {
    StoreView { tasks: db.tasks.map_values(fields_setter(id, user, title, description, status)), ..db }
}

/// The view of an optional string.
pub open spec fn opt_view(o: Option<&str>) -> Option<Seq<char>> {
    match o {
        Some(d) => Some(d@),
        None => None,
    }
}

/// Gives the task `id` of `user` another status.
pub open spec fn status_setter(id: Seq<char>, user: Seq<char>, status: TaskStatus) -> spec_fn(
    TaskRecordView,
) -> TaskRecordView {
    |t: TaskRecordView|
        if is_task_of(t, id, user) {
            with_status(t, status)
        } else {
            t
        }
}

/// The store once the task `id` of `user` has another status.
pub open spec fn with_task_status(
    db: StoreView,
    id: Seq<char>,
    user: Seq<char>,
    status: TaskStatus,
) -> StoreView {
    StoreView { tasks: db.tasks.map_values(status_setter(id, user, status)), ..db }
}

/// Gives the listed tasks of `user` another status.
pub open spec fn listed_status_setter(
    ids: Seq<Seq<char>>,
    user: Seq<char>,
    status: TaskStatus,
) -> spec_fn(TaskRecordView) -> TaskRecordView {
    |t: TaskRecordView|
        if is_listed_task_of(t, ids, user) {
            with_status(t, status)
        } else {
            t
        }
}

/// The store once the listed tasks of `user` have another status.
pub open spec fn with_listed_status(
    db: StoreView,
    ids: Seq<Seq<char>>,
    user: Seq<char>,
    status: TaskStatus,
) -> StoreView {
    StoreView { tasks: db.tasks.map_values(listed_status_setter(ids, user, status)), ..db }
}

/// The new title and description of a task.
pub struct UpdateTaskArgs<'a> {
    pub id: &'a str,
    pub title: &'a str,
    /// The new description; `None` keeps the stored one.
    pub description: Option<&'a str>,
    pub status: &'a TaskStatus,
    pub user_id: &'a str,
}

/// Changes the title and description of the task `id` of `user_id` and
/// reads it back. Fails when there is no such task.
pub fn update_task<'a>(db: &mut TaskStore, args: UpdateTaskArgs<'a>) -> (r: Result<Task, DbError>)
    ensures
        !old(db)@.has_task(args.id@, args.user_id@) ==> r == Err::<Task, DbError>(
            DbError::NotFound,
        ) && final(db)@ == old(db)@,
        old(db)@.has_task(args.id@, args.user_id@) ==> final(db)@ == with_task_fields(old(db)@, args.id@, args.user_id@, args.title@, opt_view(args.description), *args.status) && (r matches Ok(t) && final(db)@.found(args.id@, args.user_id@, t@)),
{
    let id = args.id.to_owned();
    let user = args.user_id.to_owned();
    if first_task_index(&*db, &id, &user).is_none() {
        return Err(DbError::NotFound);
    }
    let ghost old_tasks = db@.tasks;
    let ghost f = fields_setter(args.id@, args.user_id@, args.title@, opt_view(args.description), *args.status);
    let mut i: usize = 0;
    while i < db.tasks.len()
        invariant
            i <= db.tasks.len(),
            id@ == args.id@,
            user@ == args.user_id@,
            db@.tasks.len() == old_tasks.len(),
            db@.subs == old(db)@.subs,
            db@.blocks == old(db)@.blocks,
            f == fields_setter(args.id@, args.user_id@, args.title@, opt_view(args.description), *args.status),
            old_tasks == old(db)@.tasks,
            forall|k: int| 0 <= k < i ==> #[trigger] db@.tasks[k] == f(old_tasks[k]),
            forall|k: int| i <= k < db@.tasks.len() ==> #[trigger] db@.tasks[k] == old_tasks[k],
        decreases db.tasks.len() - i,
    {
        assert(db@.tasks[i as int] == db.tasks@[i as int]@);
        if db.tasks[i].id == id && db.tasks[i].user_id == user {
            let c = TaskRecord {
                id: db.tasks[i].id.clone(),
                title: args.title.to_owned(),
                description: match args.description {
                    Some(d) => d.to_owned(),
                    None => db.tasks[i].description.clone(),
                },
                user_id: db.tasks[i].user_id.clone(),
                status: *args.status,
                created_at: db.tasks[i].created_at.clone(),
                updated_at: db.tasks[i].updated_at.clone(),
            };
            set_record(db, i, c);
        }
        assert(db@.tasks[i as int] == f(old_tasks[i as int]));
        i = i + 1;
    }
    proof {
        let g = old_tasks.map_values(f);
        assert(db@.tasks =~= g);
        let j = choose|j: int| 0 <= j < old_tasks.len() && is_task_of(#[trigger] old_tasks[j], id@, user@);
        assert(is_task_of(db@.tasks[j], id@, user@));
    }
    find_task(&*db, FindTaskArgs { user_id: args.user_id, task_id: args.id })
}

/// The new status of a task.
pub struct UpdateTaskStatusArgs<'a> {
    pub id: &'a str,
    pub status: &'a TaskStatus,
    pub user_id: &'a str,
}

/// Changes the status of the task `id` of `user_id` and reads it back.
/// Fails when there is no such task.
pub fn update_task_status<'a>(db: &mut TaskStore, args: UpdateTaskStatusArgs<'a>) -> (r: Result<
    Task,
    DbError,
>)
    ensures
        !old(db)@.has_task(args.id@, args.user_id@) ==> r == Err::<Task, DbError>(
            DbError::NotFound,
        ) && final(db)@ == old(db)@,
        old(db)@.has_task(args.id@, args.user_id@) ==> final(db)@ == with_task_status(old(db)@, args.id@, args.user_id@, *args.status) && (r matches Ok(t) && final(db)@.found(args.id@, args.user_id@, t@)),
{
    let id = args.id.to_owned();
    let user = args.user_id.to_owned();
    if first_task_index(&*db, &id, &user).is_none() {
        return Err(DbError::NotFound);
    }
    let ghost old_tasks = db@.tasks;
    let ghost f = status_setter(args.id@, args.user_id@, *args.status);
    let mut i: usize = 0;
    while i < db.tasks.len()
        invariant
            i <= db.tasks.len(),
            id@ == args.id@,
            user@ == args.user_id@,
            db@.tasks.len() == old_tasks.len(),
            db@.subs == old(db)@.subs,
            db@.blocks == old(db)@.blocks,
            f == status_setter(args.id@, args.user_id@, *args.status),
            old_tasks == old(db)@.tasks,
            forall|k: int| 0 <= k < i ==> #[trigger] db@.tasks[k] == f(old_tasks[k]),
            forall|k: int| i <= k < db@.tasks.len() ==> #[trigger] db@.tasks[k] == old_tasks[k],
        decreases db.tasks.len() - i,
    {
        assert(db@.tasks[i as int] == db.tasks@[i as int]@);
        if db.tasks[i].id == id && db.tasks[i].user_id == user {
            let c = TaskRecord {
                id: db.tasks[i].id.clone(),
                title: db.tasks[i].title.clone(),
                description: db.tasks[i].description.clone(),
                user_id: db.tasks[i].user_id.clone(),
                status: *args.status,
                created_at: db.tasks[i].created_at.clone(),
                updated_at: db.tasks[i].updated_at.clone(),
            };
            set_record(db, i, c);
        }
        assert(db@.tasks[i as int] == f(old_tasks[i as int]));
        i = i + 1;
    }
    proof {
        let g = old_tasks.map_values(f);
        assert(db@.tasks =~= g);
        let j = choose|j: int| 0 <= j < old_tasks.len() && is_task_of(#[trigger] old_tasks[j], id@, user@);
        assert(is_task_of(db@.tasks[j], id@, user@));
    }
    find_task(&*db, FindTaskArgs { user_id: args.user_id, task_id: args.id })
}

/// The new status of several tasks.
pub struct UpdateTasksStatusArgs<'a> {
    pub task_ids: &'a Vec<String>,
    pub status: &'a TaskStatus,
    pub user_id: &'a str,
}

/// Whether record `r` is one of the tasks `ids` of `user`.
pub open spec fn is_listed_task_of(r: TaskRecordView, ids: Seq<Seq<char>>, user: Seq<char>) -> bool {
    ids.contains(r.id) && r.user_id == user
}

/// Changes the status of every listed task of `user_id`; identifiers that
/// name no task of that user are passed over.
pub fn update_tasks_status<'a>(db: &mut TaskStore, args: UpdateTasksStatusArgs<'a>)
    ensures
        final(db)@ == with_listed_status(old(db)@, ids_view(args.task_ids@), args.user_id@, *args.status),
{
    let user = args.user_id.to_owned();
    let ghost ids = ids_view(args.task_ids@);
    let ghost old_tasks = db@.tasks;
    let ghost f = listed_status_setter(ids, args.user_id@, *args.status);
    let mut i: usize = 0;
    while i < db.tasks.len()
        invariant
            i <= db.tasks.len(),
            user@ == args.user_id@,
            ids == ids_view(args.task_ids@),
            db@.tasks.len() == old_tasks.len(),
            db@.subs == old(db)@.subs,
            db@.blocks == old(db)@.blocks,
            f == listed_status_setter(ids, args.user_id@, *args.status),
            old_tasks == old(db)@.tasks,
            forall|k: int| 0 <= k < i ==> #[trigger] db@.tasks[k] == f(old_tasks[k]),
            forall|k: int| i <= k < db@.tasks.len() ==> #[trigger] db@.tasks[k] == old_tasks[k],
        decreases db.tasks.len() - i,
    {
        assert(db@.tasks[i as int] == db.tasks@[i as int]@);
        let ghost ti = old_tasks[i as int];
        if db.tasks[i].user_id == user && contains_id(args.task_ids, &db.tasks[i].id) {
            let c = TaskRecord {
                id: db.tasks[i].id.clone(),
                title: db.tasks[i].title.clone(),
                description: db.tasks[i].description.clone(),
                user_id: db.tasks[i].user_id.clone(),
                status: *args.status,
                created_at: db.tasks[i].created_at.clone(),
                updated_at: db.tasks[i].updated_at.clone(),
            };
            set_record(db, i, c);
            assert(is_listed_task_of(ti, ids, args.user_id@));
            assert(db@.tasks[i as int] == with_status(ti, *args.status));
        } else {
            assert(!is_listed_task_of(ti, ids, args.user_id@));
        }
        assert(db@.tasks[i as int] == f(old_tasks[i as int]));
        i = i + 1;
    }
    proof {
        assert(db@.tasks =~= old_tasks.map_values(f));
    }
}

/// Which link [`detect_circular_connection`] is about: `parent_task_id`
/// would become the parent of `child_task_id`.
pub struct DetectCircularConnectionArgs<'a> {
    pub parent_task_id: &'a str,
    pub child_task_id: &'a str,
    pub user_id: &'a str,
}

impl StoreView {
    /// `child` is reached upwards from `parent`, through a first link of
    /// `user` and then links of both relations.
    pub open spec fn closes_cycle(self, parent: Seq<char>, child: Seq<char>, user: Seq<char>) -> bool {
        reached_after_step(self.all_links(), true, parent, user, child)
    }
}

/// Whether linking `parent_task_id` above `child_task_id` would close a
/// cycle: whether the child is already an ancestor of the parent through
/// sub-task and blocking links.
pub fn detect_circular_connection<'a>(db: &TaskStore, args: DetectCircularConnectionArgs<'a>) -> (r:
    bool)
    ensures
        r == db@.closes_cycle(args.parent_task_id@, args.child_task_id@, args.user_id@),
{
    let parent = args.parent_task_id.to_owned();
    let child = args.child_task_id.to_owned();
    let user = args.user_id.to_owned();
    let all = concat_links(&db.sub_tasks, &db.blocking_tasks);
    let ancestors = closure_after_step(&all, &parent, &user, true);
    contains_id(&ancestors, &child)
}

/// Tasks that must all belong to one user.
pub struct ExistsTasksArg<'a> {
    pub task_ids: &'a Vec<String>,
    pub user_id: &'a str,
}

/// Why [`exists_tasks`] refused the tasks.
#[derive(Debug, Clone, Copy, PartialEq, Eq, Structural)]
pub enum ExistsTasksError {
    TasksNotFound,
}

/// Every listed identifier names a task of `user` and none is listed twice.
pub open spec fn all_tasks_exist(db: StoreView, ids: Seq<Seq<char>>, user: Seq<char>) -> bool {
    &&& forall|k: int| 0 <= k < ids.len() ==> db.has_task(#[trigger] ids[k], user)
    &&& ids.no_duplicates()
}

/// Checks that the listed tasks are distinct tasks of the user.
pub fn exists_tasks<'a>(db: &TaskStore, arg: ExistsTasksArg<'a>) -> (r: Result<(), ExistsTasksError>)
    ensures
        r is Ok <==> all_tasks_exist(db@, ids_view(arg.task_ids@), arg.user_id@),
{
    let user = arg.user_id.to_owned();
    let ghost iv = ids_view(arg.task_ids@);
    let mut i: usize = 0;
    while i < arg.task_ids.len()
        invariant
            i <= arg.task_ids.len(),
            iv == ids_view(arg.task_ids@),
            user@ == arg.user_id@,
            forall|k: int| 0 <= k < i ==> db@.has_task(#[trigger] iv[k], user@),
            forall|a: int, b: int| 0 <= a < b < i ==> #[trigger] iv[a] != #[trigger] iv[b],
        decreases arg.task_ids.len() - i,
    {
        assert(iv[i as int] == arg.task_ids@[i as int]@);
        if first_task_index(db, &arg.task_ids[i], &user).is_none() {
            assert(!db@.has_task(iv[i as int], user@));
            assert(!all_tasks_exist(db@, iv, user@));
            return Err(ExistsTasksError::TasksNotFound);
        }
        let mut j: usize = 0;
        while j < i
            invariant
                j <= i,
                i < arg.task_ids.len(),
                iv == ids_view(arg.task_ids@),
                forall|a: int| 0 <= a < j ==> iv[a] != iv[i as int],
            decreases i - j,
        {
            if arg.task_ids[j] == arg.task_ids[i] {
                proof {
                    assert(iv[j as int] == arg.task_ids@[j as int]@);
                    assert(iv[j as int] == iv[i as int]);
                    assert(!iv.no_duplicates());
                }
                return Err(ExistsTasksError::TasksNotFound);
            }
            j = j + 1;
        }
        i = i + 1;
    }
    Ok(())
}

} // verus!
