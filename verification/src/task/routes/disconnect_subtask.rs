use vstd::prelude::*;
use crate::error::AppError;
use crate::store::TaskStore;
use crate::user::User;
use crate::task::DisconnectSubtask;
use crate::task::usecases::disconnect_subtask::{self, DisconnectSubtaskArgs};
use crate::task::usecases::disconnect_sub_task::disconnect_sub_task_outcome;
use crate::laws::law_disconnect_sub_task_keeps_wf;

verus! {

/// Removes a sub-task link of the logged-in user and brings the former
/// main tasks up to date; answers `500`, changing nothing, when the user
/// has not recorded the link.
pub fn handler(db: &mut TaskStore, user: Option<&User>, payload: &DisconnectSubtask) -> (r: Result<
    (),
    AppError,
>)
    ensures
        user is None ==> r == Err::<(), AppError>(AppError::unauthorized_spec()) && final(db)@
            == old(db)@,
        user matches Some(u) ==> ({
            let (s, o) = disconnect_sub_task_outcome(
                old(db)@,
                payload.parent_task_id@,
                payload.subtask_id@,
                u.id@,
            );
            match o {
                Ok(()) => r == Ok::<(), AppError>(()) && final(db)@ == s,
                Err(_) => r == Err::<(), AppError>(AppError::internal_spec()) && final(db)@
                    == old(db)@,
            }
        }),
        old(db)@.wf() ==> final(db)@.wf(),
{
    let user = match user {
        Some(u) => u,
        None => {
            return Err(AppError::unauthorized());
        },
    };
    let saved = db.snapshot();
    let r = disconnect_subtask::action(
        db,
        DisconnectSubtaskArgs {
            parent_task_id: payload.parent_task_id.as_str(),
            subtask_id: payload.subtask_id.as_str(),
            user_id: user.id.as_str(),
        },
    );
    proof {
        if old(db)@.wf() {
            law_disconnect_sub_task_keeps_wf(
                old(db)@,
                payload.parent_task_id@,
                payload.subtask_id@,
                user.id@,
            );
        }
    }
    match r {
        Ok(()) => Ok(()),
        Err(_) => {
            *db = saved;
            Err(AppError::internal())
        },
    }
}

} // verus!
