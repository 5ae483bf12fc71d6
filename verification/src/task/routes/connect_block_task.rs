use vstd::prelude::*;
use crate::error::{AppError, ErrorBody, BAD_REQUEST, INTERNAL_SERVER_ERROR};
use crate::store::TaskStore;
use crate::user::User;
use crate::block_task::ConnectBlockTask;
use crate::block_task::db::BlockTaskConnectionError;
use crate::task::usecases::connect_block_task::{
    self, ConnectBlockTaskArgs, ConnectBlockTaskError, connect_block_task_outcome,
};
use crate::laws::law_connect_block_task_keeps_wf;

verus! {

/// Which rule a refused blocking link broke.
#[derive(Debug, Clone, Copy, PartialEq, Eq, Structural)]
pub enum ConnectBlockTaskErrorType {
    TaskNotFound,
    IsSubTask,
    CircularTask,
}

/// Body of the answer to a refused blocking link.
#[derive(Debug, Clone, Copy, PartialEq, Eq, Structural)]
pub struct ConnectBlockTaskErrorBody {
    pub error_type: ConnectBlockTaskErrorType,
}

/// The answer to a failed [`connect_block_task::action`]: `400` with the
/// broken rule, or `500` when the stored state failed.
pub open spec fn connect_block_task_answer(e: ConnectBlockTaskError) -> AppError {
    let body = |t: ConnectBlockTaskErrorType|
        AppError {
            code: BAD_REQUEST,
            body: Some(ErrorBody::ConnectBlockTask(ConnectBlockTaskErrorBody { error_type: t })),
        };
    match e {
        ConnectBlockTaskError::CheckError(BlockTaskConnectionError::TaskNotFound) => body(
            ConnectBlockTaskErrorType::TaskNotFound,
        ),
        ConnectBlockTaskError::CheckError(BlockTaskConnectionError::IsSubTask) => body(
            ConnectBlockTaskErrorType::IsSubTask,
        ),
        ConnectBlockTaskError::CheckError(BlockTaskConnectionError::CircularTask) => body(
            ConnectBlockTaskErrorType::CircularTask,
        ),
        _ => AppError { code: INTERNAL_SERVER_ERROR, body: None },
    }
}

/// The answer to a failed link operation.
pub fn answer(e: ConnectBlockTaskError) -> (a: AppError)
    ensures
        a == connect_block_task_answer(e),
{
    let t = match e {
        ConnectBlockTaskError::CheckError(BlockTaskConnectionError::TaskNotFound) => {
            ConnectBlockTaskErrorType::TaskNotFound
        },
        ConnectBlockTaskError::CheckError(BlockTaskConnectionError::IsSubTask) => {
            ConnectBlockTaskErrorType::IsSubTask
        },
        ConnectBlockTaskError::CheckError(BlockTaskConnectionError::CircularTask) => {
            ConnectBlockTaskErrorType::CircularTask
        },
        _ => {
            return AppError::internal();
        },
    };
    AppError::with_json(
        BAD_REQUEST,
        ErrorBody::ConnectBlockTask(ConnectBlockTaskErrorBody { error_type: t }),
    )
}

/// Makes one task of the logged-in user block another, as one
/// transaction: a refused request changes nothing.
pub fn handler(db: &mut TaskStore, user: Option<&User>, payload: &ConnectBlockTask) -> (r: Result<
    (),
    AppError,
>)
    ensures
        user is None ==> r == Err::<(), AppError>(AppError::unauthorized_spec()) && final(db)@
            == old(db)@,
        user matches Some(u) ==> ({
            let (s, o) = connect_block_task_outcome(
                old(db)@,
                payload.blocking_task_id@,
                payload.blocked_task_id@,
                u.id@,
            );
            match o {
                Ok(()) => r == Ok::<(), AppError>(()) && final(db)@ == s,
                Err(e) => r == Err::<(), AppError>(connect_block_task_answer(e)) && final(db)@
                    == old(db)@,
            }
        }),
        old(db)@.wf() ==> final(db)@.wf(),
{
    let user = match user {
        Some(u) => u,
        None => {
            return Err(AppError::unauthorized());
        },
    };
    let saved = db.snapshot();
    let r = connect_block_task::action(
        db,
        ConnectBlockTaskArgs {
            blocking_task_id: payload.blocking_task_id.as_str(),
            blocked_task_id: payload.blocked_task_id.as_str(),
            user_id: user.id.as_str(),
        },
    );
    proof {
        if old(db)@.wf() {
            law_connect_block_task_keeps_wf(
                old(db)@,
                payload.blocking_task_id@,
                payload.blocked_task_id@,
                user.id@,
            );
        }
    }
    match r {
        Ok(()) => Ok(()),
        Err(e) => {
            *db = saved;
            Err(answer(e))
        },
    }
}

} // verus!
