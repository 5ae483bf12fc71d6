use vstd::prelude::*;
use crate::error::{AppError, ErrorBody, BAD_REQUEST, INTERNAL_SERVER_ERROR};
use crate::store::TaskStore;
use crate::user::User;
use crate::sub_task::ConnectSubTask;
use crate::sub_task::db::SubTaskConnectionError;
use crate::task::usecases::connect_sub_task::{self, ConnectSubTaskArgs, ConnectSubTaskError, connect_sub_task_outcome};
use crate::laws::law_connect_sub_task_keeps_wf;

verus! {

/// Which rule a refused sub-task link broke.
#[derive(Debug, Clone, Copy, PartialEq, Eq, Structural)]
pub enum ConnectSubTaskErrorType {
    TaskNotFound,
    CircularTask,
    MultipleMainTask,
    BlockedByMainTask,
}

/// Body of the answer to a refused sub-task link.
#[derive(Debug, Clone, Copy, PartialEq, Eq, Structural)]
pub struct ConnectSubTaskErrorBody {
    pub error_type: ConnectSubTaskErrorType,
}

/// The answer to a failed sub-task link: `400` with the broken rule, or
/// `500` when the stored state failed.
pub open spec fn connect_sub_task_answer(e: ConnectSubTaskError) -> AppError {
    let body = |t: ConnectSubTaskErrorType|
        AppError { code: BAD_REQUEST, body: Some(ErrorBody::ConnectSubTask(ConnectSubTaskErrorBody { error_type: t })) };
    match e {
        ConnectSubTaskError::CheckError(SubTaskConnectionError::TaskNotFound) => body(ConnectSubTaskErrorType::TaskNotFound),
        ConnectSubTaskError::CheckError(SubTaskConnectionError::CircularTask) => body(ConnectSubTaskErrorType::CircularTask),
        ConnectSubTaskError::CheckError(SubTaskConnectionError::MultipleMainTask) => body(
            ConnectSubTaskErrorType::MultipleMainTask,
        ),
        ConnectSubTaskError::CheckError(SubTaskConnectionError::BlockedByMainTask) => body(
            ConnectSubTaskErrorType::BlockedByMainTask,
        ),
        _ => AppError { code: INTERNAL_SERVER_ERROR, body: None },
    }
}

/// The answer to a failed sub-task link.
pub fn answer(e: ConnectSubTaskError) -> (a: AppError)
    ensures
        a == connect_sub_task_answer(e),
{
    let t = match e {
        ConnectSubTaskError::CheckError(SubTaskConnectionError::TaskNotFound) => ConnectSubTaskErrorType::TaskNotFound,
        ConnectSubTaskError::CheckError(SubTaskConnectionError::CircularTask) => ConnectSubTaskErrorType::CircularTask,
        ConnectSubTaskError::CheckError(SubTaskConnectionError::MultipleMainTask) => {
            ConnectSubTaskErrorType::MultipleMainTask
        },
        ConnectSubTaskError::CheckError(SubTaskConnectionError::BlockedByMainTask) => {
            ConnectSubTaskErrorType::BlockedByMainTask
        },
        _ => {
            return AppError::internal();
        },
    };
    AppError::with_json(BAD_REQUEST, ErrorBody::ConnectSubTask(ConnectSubTaskErrorBody { error_type: t }))
}

/// Makes one task of the logged-in user a sub task of another and brings
/// the main tasks up to date, as one transaction: a refused request
/// changes nothing.
pub fn handler(db: &mut TaskStore, user: Option<&User>, payload: &ConnectSubTask) -> (r: Result<
    (),
    AppError,
>)
    ensures
        user is None ==> r == Err::<(), AppError>(AppError::unauthorized_spec()) && final(db)@
            == old(db)@,
        user matches Some(u) ==> ({
            let (s, o) = connect_sub_task_outcome(old(db)@, payload.main_task_id@, payload.sub_task_id@, u.id@);
            match o {
                Ok(()) => r == Ok::<(), AppError>(()) && final(db)@ == s,
                Err(e) => r == Err::<(), AppError>(connect_sub_task_answer(e)) && final(db)@ == old(db)@,
            }
        }),
        old(db)@.wf() ==> final(db)@.wf(),
{
    let user = match user {
        Some(u) => u,
        None => {
            return Err(AppError::unauthorized());
        },
    };
    let saved = db.snapshot();
    let r = connect_sub_task::action(
        db,
        ConnectSubTaskArgs {
            main_task_id: payload.main_task_id.as_str(),
            sub_task_id: payload.sub_task_id.as_str(),
            user_id: user.id.as_str(),
        },
    );
    proof {
        if old(db)@.wf() {
            law_connect_sub_task_keeps_wf(old(db)@, payload.main_task_id@, payload.sub_task_id@, user.id@);
        }
    }
    match r {
        Ok(()) => Ok(()),
        Err(e) => {
            *db = saved;
            Err(answer(e))
        },
    }
}

} // verus!
