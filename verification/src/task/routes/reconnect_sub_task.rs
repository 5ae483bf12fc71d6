use vstd::prelude::*;
use crate::error::{AppError, ErrorBody, BAD_REQUEST, INTERNAL_SERVER_ERROR};
use crate::store::TaskStore;
use crate::user::User;
use crate::task::ReconnectSubTask;
use crate::sub_task::db::SubTaskConnectionError;
use crate::task::usecases::reconnect_sub_task::{
    self, ReconnectSubTaskArgs, ReconnectSubTaskError, reconnect_outcome,
};
use crate::laws::law_reconnect_sub_task_keeps_wf;

verus! {

/// Which rule a refused move of a sub-task link broke.
#[derive(Debug, Clone, Copy, PartialEq, Eq, Structural)]
pub enum ReconnectSubTaskErrorType {
    TaskNotFound,
    BlockedByMainTask,
    CircularTask,
    MultipleMainTask,
}

/// Body of the answer to a refused move of a sub-task link.
#[derive(Debug, Clone, Copy, PartialEq, Eq, Structural)]
pub struct ReconnectSubTaskErrorBody {
    pub error_type: ReconnectSubTaskErrorType,
}

/// The answer to a failed move: `400` with the broken rule, or `500` when
/// the stored state failed.
pub open spec fn reconnect_sub_task_answer(e: ReconnectSubTaskError) -> AppError {
    let body = |t: ReconnectSubTaskErrorType|
        AppError {
            code: BAD_REQUEST,
            body: Some(ErrorBody::ReconnectSubTask(ReconnectSubTaskErrorBody { error_type: t })),
        };
    match e {
        ReconnectSubTaskError::Connect(SubTaskConnectionError::TaskNotFound) => body(
            ReconnectSubTaskErrorType::TaskNotFound,
        ),
        ReconnectSubTaskError::Connect(SubTaskConnectionError::BlockedByMainTask) => body(
            ReconnectSubTaskErrorType::BlockedByMainTask,
        ),
        ReconnectSubTaskError::Connect(SubTaskConnectionError::CircularTask) => body(
            ReconnectSubTaskErrorType::CircularTask,
        ),
        ReconnectSubTaskError::Connect(SubTaskConnectionError::MultipleMainTask) => body(
            ReconnectSubTaskErrorType::MultipleMainTask,
        ),
        _ => AppError { code: INTERNAL_SERVER_ERROR, body: None },
    }
}

/// The answer to a failed move.
pub fn answer(e: ReconnectSubTaskError) -> (a: AppError)
    ensures
        a == reconnect_sub_task_answer(e),
{
    let t = match e {
        ReconnectSubTaskError::Connect(SubTaskConnectionError::TaskNotFound) => {
            ReconnectSubTaskErrorType::TaskNotFound
        },
        ReconnectSubTaskError::Connect(SubTaskConnectionError::BlockedByMainTask) => {
            ReconnectSubTaskErrorType::BlockedByMainTask
        },
        ReconnectSubTaskError::Connect(SubTaskConnectionError::CircularTask) => {
            ReconnectSubTaskErrorType::CircularTask
        },
        ReconnectSubTaskError::Connect(SubTaskConnectionError::MultipleMainTask) => {
            ReconnectSubTaskErrorType::MultipleMainTask
        },
        _ => {
            return AppError::internal();
        },
    };
    AppError::with_json(
        BAD_REQUEST,
        ErrorBody::ReconnectSubTask(ReconnectSubTaskErrorBody { error_type: t }),
    )
}

/// Moves a sub-task link of the logged-in user, as one transaction: a
/// refused request changes nothing.
pub fn handler(db: &mut TaskStore, user: Option<&User>, payload: &ReconnectSubTask) -> (r: Result<
    (),
    AppError,
>)
    ensures
        user is None ==> r == Err::<(), AppError>(AppError::unauthorized_spec()) && final(db)@
            == old(db)@,
        user matches Some(u) ==> ({
            let (s, o) = reconnect_outcome(
                old(db)@,
                payload.old_main_task_id@,
                payload.old_sub_task_id@,
                payload.new_main_task_id@,
                payload.new_sub_task_id@,
                u.id@,
            );
            match o {
                Ok(()) => r == Ok::<(), AppError>(()) && final(db)@ == s,
                Err(e) => r == Err::<(), AppError>(reconnect_sub_task_answer(e)) && final(db)@
                    == old(db)@,
            }
        }),
        old(db)@.wf() ==> final(db)@.wf(),
{
    let user = match user {
        Some(u) => u,
        None => {
            return Err(AppError::unauthorized());
        },
    };
    let saved = db.snapshot();
    let r = reconnect_sub_task::action(
        db,
        ReconnectSubTaskArgs {
            old_parent_task_id: payload.old_main_task_id.as_str(),
            old_sub_task_id: payload.old_sub_task_id.as_str(),
            new_parent_task_id: payload.new_main_task_id.as_str(),
            new_sub_task_id: payload.new_sub_task_id.as_str(),
            user_id: user.id.as_str(),
        },
    );
    proof {
        if old(db)@.wf() {
            law_reconnect_sub_task_keeps_wf(
                old(db)@,
                payload.old_main_task_id@,
                payload.old_sub_task_id@,
                payload.new_main_task_id@,
                payload.new_sub_task_id@,
                user.id@,
            );
        }
    }
    match r {
        Ok(()) => Ok(()),
        Err(e) => {
            *db = saved;
            Err(answer(e))
        },
    }
}

} // verus!
