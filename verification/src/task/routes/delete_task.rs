use vstd::prelude::*;
use crate::error::AppError;
use crate::store::{TaskStore, StoreView, DbError};
use crate::user::User;
use crate::task::DeleteTaskResponse;
use crate::task::db::{delete_task, DeleteTaskArgs, not_task_of, not_touching};
use crate::sub_task::db::{
    find_main_task_id, update_task_and_all_ancestor_main_tasks_status, main_task_of, propagate,
    FindMainTaskIdsArgs, TaskAndUser,
};
use crate::laws::{law_delete_task_keeps_wf, lemma_propagate_shape, lemma_shape_keeps_wf};

verus! {

/// The store once the task `id` of `user` is deleted with every link that
/// names it.
pub open spec fn without_task(db: StoreView, id: Seq<char>, user: Seq<char>) -> StoreView {
    StoreView {
        tasks: db.tasks.filter(not_task_of(id, user)),
        subs: db.subs.filter(not_touching(id)),
        blocks: db.blocks.filter(not_touching(id)),
    }
}

/// The store and outcome of deleting the task `id` of `user` and then
/// bringing its former main task, and that task's main tasks, up to date.
pub open spec fn delete_outcome(db: StoreView, id: Seq<char>, user: Seq<char>) -> (
    StoreView,
    Result<(), DbError>,
) {
    let s1 = without_task(db, id, user);
    match main_task_of(db, id, user) {
        None => (s1, Ok(())),
        Some(m) => propagate(s1, m, user, s1.subs.len()),
    }
}

/// Deletes a task of the logged-in user, as one transaction: answers `500`
/// and changes nothing when there is no such task.
pub fn handler(db: &mut TaskStore, user: Option<&User>, id: &str) -> (r: Result<
    DeleteTaskResponse,
    AppError,
>)
    ensures
        user is None ==> r == Err::<DeleteTaskResponse, AppError>(AppError::unauthorized_spec())
            && final(db)@ == old(db)@,
        user matches Some(u) ==> ({
            if !old(db)@.has_task(id@, u.id@) {
                r == Err::<DeleteTaskResponse, AppError>(AppError::internal_spec()) && final(db)@
                    == old(db)@
            } else {
                let (s, o) = delete_outcome(old(db)@, id@, u.id@);
                match o {
                    Ok(()) => final(db)@ == s && (r matches Ok(d) && d.task_id@ == id@),
                    Err(_) => r == Err::<DeleteTaskResponse, AppError>(AppError::internal_spec())
                        && final(db)@ == old(db)@,
                }
            }
        }),
        old(db)@.wf() ==> final(db)@.wf(),
{
    let user = match user {
        Some(u) => u,
        None => {
            return Err(AppError::unauthorized());
        },
    };
    let saved = db.snapshot();
    let ghost s0 = db@;
    let main_task_id = find_main_task_id(
        &*db,
        FindMainTaskIdsArgs { sub_task_id: id, user_id: user.id.as_str() },
    );
    let deleted_id = match delete_task(db, DeleteTaskArgs { id, user_id: user.id.as_str() }) {
        Ok(d) => d,
        Err(_) => {
            *db = saved;
            return Err(AppError::internal());
        },
    };
    let ghost s1 = db@;
    proof {
        if s0.wf() {
            law_delete_task_keeps_wf(s0, id@, user.id@);
        }
    }
    match main_task_id {
        None => {},
        Some(m) => {
            let r = update_task_and_all_ancestor_main_tasks_status(
                db,
                TaskAndUser { task_id: m.as_str(), user_id: user.id.as_str() },
            );
            proof {
                if s0.wf() {
                    lemma_propagate_shape(s1, m@, user.id@, s1.subs.len());
                    lemma_shape_keeps_wf(s1, db@);
                }
            }
            match r {
                Ok(()) => {},
                Err(_) => {
                    *db = saved;
                    return Err(AppError::internal());
                },
            }
        },
    }
    Ok(DeleteTaskResponse { task_id: deleted_id })
}

} // verus!
