use vstd::prelude::*;
use crate::error::{AppError, NOT_FOUND};
use crate::graph::ids_view;
use crate::store::{TaskStore, StoreView};
use crate::user::User;
use crate::task::CreateSubtask;
use crate::task::db::{exists_tasks, all_tasks_exist, ExistsTasksArg};
use crate::sub_task::db::{insert_sub_task_connection, has_pair, link_of, InsertSubTaskConnectionArgs};

verus! {

/// Records `subtask_id` as a sub task of `parent_task_id` when both are
/// distinct tasks of the logged-in user (else `404`); answers `500` when
/// the pair is recorded already. Checks no other rule. A refused request
/// changes nothing.
pub fn handler(db: &mut TaskStore, user: Option<&User>, payload: &CreateSubtask) -> (r: Result<
    (),
    AppError,
>)
    ensures
        user is None ==> r == Err::<(), AppError>(AppError::unauthorized_spec()) && final(db)@
            == old(db)@,
        user matches Some(u) ==> ({
            if !all_tasks_exist(old(db)@, seq![payload.parent_task_id@, payload.subtask_id@], u.id@) {
                r == Err::<(), AppError>(AppError { code: NOT_FOUND, body: None }) && final(db)@
                    == old(db)@
            } else if !old(db)@.has_id(payload.parent_task_id@) || !old(db)@.has_id(
                payload.subtask_id@,
            ) || has_pair(old(db)@.subs, payload.parent_task_id@, payload.subtask_id@) {
                r == Err::<(), AppError>(AppError::internal_spec()) && final(db)@ == old(db)@
            } else {
                r == Ok::<(), AppError>(()) && final(db)@ == (StoreView {
                    subs: old(db)@.subs.push(
                        link_of(payload.parent_task_id@, payload.subtask_id@, u.id@),
                    ),
                    ..old(db)@
                })
            }
        }),
{
    let user = match user {
        Some(u) => u,
        None => {
            return Err(AppError::new(crate::error::UNAUTHORIZED));
        },
    };
    let ids = vec![payload.parent_task_id.clone(), payload.subtask_id.clone()];
    proof {
        assert(ids_view(ids@) =~= seq![payload.parent_task_id@, payload.subtask_id@]);
    }
    if exists_tasks(&*db, ExistsTasksArg { task_ids: &ids, user_id: user.id.as_str() }).is_err() {
        return Err(AppError::new(NOT_FOUND));
    }
    match insert_sub_task_connection(
        db,
        InsertSubTaskConnectionArgs {
            main_task_id: payload.parent_task_id.as_str(),
            sub_task_id: payload.subtask_id.as_str(),
            user_id: user.id.as_str(),
        },
    ) {
        Ok(()) => Ok(()),
        Err(_) => Err(AppError::internal()),
    }
}

} // verus!
