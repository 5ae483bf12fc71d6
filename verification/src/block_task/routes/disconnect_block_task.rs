use vstd::prelude::*;
use crate::error::AppError;
use crate::store::TaskStore;
use crate::user::User;
use crate::block_task::DisconnectBlockTask;
use crate::task::usecases::disconnect_block_task::{
    self, DisconnectBlockTaskArgs, disconnect_block_task_outcome,
};
use crate::laws::law_disconnect_block_task_keeps_wf;

verus! {

/// Removes a blocking link of the logged-in user; answers `500` when the
/// user has not recorded it, and then changes nothing.
pub fn handler(db: &mut TaskStore, user: Option<&User>, payload: &DisconnectBlockTask) -> (r: Result<
    (),
    AppError,
>)
    ensures
        user is None ==> r == Err::<(), AppError>(AppError::unauthorized_spec()) && final(db)@
            == old(db)@,
        user matches Some(u) ==> ({
            let (s, o) = disconnect_block_task_outcome(
                old(db)@,
                payload.blocking_task_id@,
                payload.blocked_task_id@,
                u.id@,
            );
            match o {
                Ok(()) => r == Ok::<(), AppError>(()) && final(db)@ == s,
                Err(_) => r == Err::<(), AppError>(AppError::internal_spec()) && final(db)@
                    == old(db)@,
            }
        }),
        old(db)@.wf() ==> final(db)@.wf(),
{
    let user = match user {
        Some(u) => u,
        None => {
            return Err(AppError::unauthorized());
        },
    };
    let saved = db.snapshot();
    let r = disconnect_block_task::action(
        db,
        DisconnectBlockTaskArgs {
            blocking_task_id: payload.blocking_task_id.as_str(),
            blocked_task_id: payload.blocked_task_id.as_str(),
            user_id: user.id.as_str(),
        },
    );
    proof {
        if old(db)@.wf() {
            law_disconnect_block_task_keeps_wf(
                old(db)@,
                payload.blocking_task_id@,
                payload.blocked_task_id@,
                user.id@,
            );
        }
    }
    match r {
        Ok(()) => Ok(()),
        Err(_) => {
            *db = saved;
            Err(AppError::internal())
        },
    }
}

} // verus!
