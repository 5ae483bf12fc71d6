use vstd::prelude::*;
use crate::error::AppError;
use crate::store::TaskStore;
use crate::user::User;
use crate::task::ReconnectBlockTask;
use crate::task::usecases::reconnect_block_task::{
    self, ReconnectBlockTaskArgs, reconnect_block_task_outcome,
};
use crate::laws::law_reconnect_block_task_keeps_wf;
use super::connect_block_task::{answer, connect_block_task_answer};

verus! {

/// Moves a blocking link of the logged-in user, as one transaction: a
/// refused request changes nothing.
pub fn handler(db: &mut TaskStore, user: Option<&User>, payload: &ReconnectBlockTask) -> (r: Result<
    (),
    AppError,
>)
    ensures
        user is None ==> r == Err::<(), AppError>(AppError::unauthorized_spec()) && final(db)@
            == old(db)@,
        user matches Some(u) ==> ({
            let (s, o) = reconnect_block_task_outcome(
                old(db)@,
                payload.old_blocking_task_id@,
                payload.old_blocked_task_id@,
                payload.new_blocking_task_id@,
                payload.new_blocked_task_id@,
                u.id@,
            );
            match o {
                Ok(()) => r == Ok::<(), AppError>(()) && final(db)@ == s,
                Err(e) => r == Err::<(), AppError>(connect_block_task_answer(e)) && final(db)@
                    == old(db)@,
            }
        }),
        old(db)@.wf() ==> final(db)@.wf(),
{
    let user = match user {
        Some(u) => u,
        None => {
            return Err(AppError::unauthorized());
        },
    };
    let saved = db.snapshot();
    let args = ReconnectBlockTaskArgs {
        old_blocking_task_id: payload.old_blocking_task_id.as_str(),
        old_blocked_task_id: payload.old_blocked_task_id.as_str(),
        new_blocking_task_id: payload.new_blocking_task_id.as_str(),
        new_blocked_task_id: payload.new_blocked_task_id.as_str(),
        user_id: user.id.as_str(),
    };
    let r = reconnect_block_task::action(db, args);
    proof {
        if old(db)@.wf() {
            law_reconnect_block_task_keeps_wf(
                old(db)@,
                payload.old_blocking_task_id@,
                payload.old_blocked_task_id@,
                payload.new_blocking_task_id@,
                payload.new_blocked_task_id@,
                user.id@,
            );
        }
    }
    match r {
        Ok(()) => Ok(()),
        Err(e) => {
            *db = saved;
            Err(answer(e))
        },
    }
}

} // verus!
