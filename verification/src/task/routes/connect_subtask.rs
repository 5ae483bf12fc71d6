use vstd::prelude::*;
use crate::error::{AppError, ErrorBody, BAD_REQUEST, INTERNAL_SERVER_ERROR};
use crate::store::TaskStore;
use crate::user::User;
use crate::task::ConnectSubtask;
use crate::sub_task::db::SubTaskConnectionError;
use crate::task::usecases::connect_sub_task::{self, ConnectSubTaskArgs, ConnectSubTaskError, connect_sub_task_outcome};
use crate::laws::law_connect_sub_task_keeps_wf;

verus! {

/// Which rule a refused sub-task link broke.
#[derive(Debug, Clone, Copy, PartialEq, Eq, Structural)]
pub enum ConnectSubtaskErrorType {
    TaskNotFound,
    CircularTask,
    MultipleMainTask,
    BlockedByMainTask,
}

/// Body of the answer to a refused sub-task link.
#[derive(Debug, Clone, Copy, PartialEq, Eq, Structural)]
pub struct ConnectSubtaskErrorBody {
    pub error_type: ConnectSubtaskErrorType,
}

/// The answer to a failed sub-task link: `400` with the broken rule, or
/// `500` when the stored state failed.
pub open spec fn connect_subtask_answer(e: ConnectSubTaskError) -> AppError {
    let body = |t: ConnectSubtaskErrorType|
        AppError { code: BAD_REQUEST, body: Some(ErrorBody::ConnectSubtask(ConnectSubtaskErrorBody { error_type: t })) };
    match e {
        ConnectSubTaskError::CheckError(SubTaskConnectionError::TaskNotFound) => body(ConnectSubtaskErrorType::TaskNotFound),
        ConnectSubTaskError::CheckError(SubTaskConnectionError::CircularTask) => body(ConnectSubtaskErrorType::CircularTask),
        ConnectSubTaskError::CheckError(SubTaskConnectionError::MultipleMainTask) => body(
            ConnectSubtaskErrorType::MultipleMainTask,
        ),
        ConnectSubTaskError::CheckError(SubTaskConnectionError::BlockedByMainTask) => body(
            ConnectSubtaskErrorType::BlockedByMainTask,
        ),
        _ => AppError { code: INTERNAL_SERVER_ERROR, body: None },
    }
}

/// The answer to a failed sub-task link.
pub fn answer(e: ConnectSubTaskError) -> (a: AppError)
    ensures
        a == connect_subtask_answer(e),
{
    let t = match e {
        ConnectSubTaskError::CheckError(SubTaskConnectionError::TaskNotFound) => ConnectSubtaskErrorType::TaskNotFound,
        ConnectSubTaskError::CheckError(SubTaskConnectionError::CircularTask) => ConnectSubtaskErrorType::CircularTask,
        ConnectSubTaskError::CheckError(SubTaskConnectionError::MultipleMainTask) => {
            ConnectSubtaskErrorType::MultipleMainTask
        },
        ConnectSubTaskError::CheckError(SubTaskConnectionError::BlockedByMainTask) => {
            ConnectSubtaskErrorType::BlockedByMainTask
        },
        _ => {
            return AppError::internal();
        },
    };
    AppError::with_json(BAD_REQUEST, ErrorBody::ConnectSubtask(ConnectSubtaskErrorBody { error_type: t }))
}

/// Makes one task of the logged-in user a sub task of another and brings
/// the main tasks up to date, as one transaction: a refused request
/// changes nothing.
pub fn handler(db: &mut TaskStore, user: Option<&User>, payload: &ConnectSubtask) -> (r: Result<
    (),
    AppError,
>)
    ensures
        user is None ==> r == Err::<(), AppError>(AppError::unauthorized_spec()) && final(db)@
            == old(db)@,
        user matches Some(u) ==> ({
            let (s, o) = connect_sub_task_outcome(old(db)@, payload.parent_task_id@, payload.subtask_id@, u.id@);
            match o {
                Ok(()) => r == Ok::<(), AppError>(()) && final(db)@ == s,
                Err(e) => r == Err::<(), AppError>(connect_subtask_answer(e)) && final(db)@ == old(db)@,
            }
        }),
        old(db)@.wf() ==> final(db)@.wf(),
{
    let user = match user {
        Some(u) => u,
        None => {
            return Err(AppError::unauthorized());
        },
    };
    let saved = db.snapshot();
    let r = connect_sub_task::action(
        db,
        ConnectSubTaskArgs {
            main_task_id: payload.parent_task_id.as_str(),
            sub_task_id: payload.subtask_id.as_str(),
            user_id: user.id.as_str(),
        },
    );
    proof {
        if old(db)@.wf() {
            law_connect_sub_task_keeps_wf(old(db)@, payload.parent_task_id@, payload.subtask_id@, user.id@);
        }
    }
    match r {
        Ok(()) => Ok(()),
        Err(e) => {
            *db = saved;
            Err(answer(e))
        },
    }
}

} // verus!
