use vstd::prelude::*;
use crate::error::{AppError, UNPROCESSABLE_ENTITY};
use crate::store::{TaskStore, StoreView};
use crate::user::User;
use crate::task::{Task, TaskStatus, CreateTask};
use crate::task::db::{insert_task, inserted_record, InsertTaskArgs};
use crate::store::TaskRecordView;
use crate::laws::law_insert_task_keeps_wf;

verus! {

/// The record a created task gets: the given identifier and title, an
/// empty description, status to do, created at `timestamp`.
pub open spec fn created_record(
    id: Seq<char>,
    title: Seq<char>,
    user: Seq<char>,
    timestamp: Seq<char>,
) -> TaskRecordView {
    TaskRecordView {
        id,
        title,
        description: Seq::empty(),
        user_id: user,
        status: TaskStatus::Todo,
        created_at: timestamp,
        updated_at: timestamp,
    }
}

/// The identifier of the logged-in user, if any.
pub open spec fn user_id_of(user: Option<&User>) -> Option<Seq<char>> {
    match user {
        Some(u) => Some(u.id@),
        None => None,
    }
}

/// The store `after` and answer `r` of creating, from `before`, a task of
/// the logged-in user `user` under the identifier `id` at `timestamp`:
/// `401` without a user, `422` when the title breaks its rules, `500` when
/// the identifier is taken (then nothing changes); otherwise the record is
/// added and the answer describes it.
pub open spec fn create_outcome(
    before: StoreView,
    after: StoreView,
    r: Result<Task, AppError>,
    user: Option<Seq<char>>,
    payload: CreateTask,
    id: Seq<char>,
    timestamp: Seq<char>,
) -> bool {
    match user {
        None => r == Err::<Task, AppError>(AppError::unauthorized_spec()) && after == before,
        Some(u) => if !payload.is_valid() {
            r == Err::<Task, AppError>(AppError { code: UNPROCESSABLE_ENTITY, body: None })
                && after == before
        } else if before.has_id(id) {
            r == Err::<Task, AppError>(AppError::internal_spec()) && after == before
        } else {
            after == (StoreView {
                tasks: before.tasks.push(created_record(id, payload.title@, u, timestamp)),
                ..before
            }) && (r matches Ok(t) && after.found(id, u, t@))
        },
    }
}

/// A fresh task identifier: the text form of `uuid::Uuid::new_v4()`, a
/// random (version 4) UUID, which the crate writes as 36 characters
/// (hyphenated hexadecimal). Nothing more is claimed of its value; two
/// calls may give different identifiers. The crate panics when the
/// operating system gives it no random bytes.
#[verifier::external_body]
fn new_task_id() -> (id: String)
    ensures
        id@.len() == 36,
{
    uuid::Uuid::new_v4().to_string()
}

/// Creates a task of the logged-in user under a fresh random identifier,
/// at `timestamp`; see [`create_outcome`] for each answer.
pub fn handler(db: &mut TaskStore, user: Option<&User>, payload: &CreateTask, timestamp: &str) -> (r:
    Result<Task, AppError>)
    ensures
        exists|id: Seq<char>|
            id.len() == 36 && create_outcome(
                old(db)@,
                final(db)@,
                r,
                user_id_of(user),
                *payload,
                id,
                timestamp@,
            ),
        old(db)@.wf() ==> final(db)@.wf(),
{
    let id = new_task_id();
    let r = create_with_id(db, user, payload, id.as_str(), timestamp);
    assert(create_outcome(old(db)@, db@, r, user_id_of(user), *payload, id@, timestamp@));
    r
}

/// Creates a task of the logged-in user under the identifier `id`, at
/// `timestamp`; see [`create_outcome`] for each answer.
pub fn create_with_id(
    db: &mut TaskStore,
    user: Option<&User>,
    payload: &CreateTask,
    id: &str,
    timestamp: &str,
) -> (r: Result<Task, AppError>)
    ensures
        create_outcome(old(db)@, final(db)@, r, user_id_of(user), *payload, id@, timestamp@),
        old(db)@.wf() ==> final(db)@.wf(),
{
    let user = match user {
        Some(u) => u,
        None => {
            return Err(AppError::unauthorized());
        },
    };
    if !payload.validate() {
        return Err(AppError::new(UNPROCESSABLE_ENTITY));
    }
    let status = TaskStatus::Todo;
    let args = InsertTaskArgs {
        id,
        title: payload.title.as_str(),
        description: "",
        user_id: user.id.as_str(),
        status: &status,
    };
    proof {
        reveal_strlit("");
        assert(""@ =~= Seq::<char>::empty());
        assert(inserted_record(args, timestamp@) == created_record(
            id@,
            payload.title@,
            user.id@,
            timestamp@,
        ));
        if old(db)@.wf() && !old(db)@.has_id(id@) {
            law_insert_task_keeps_wf(old(db)@, inserted_record(args, timestamp@));
        }
    }
    match insert_task(db, args, timestamp) {
        Ok(t) => Ok(t),
        Err(_) => Err(AppError::internal()),
    }
}

} // verus!
