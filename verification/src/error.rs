//! Errors as the API answers them: a status code and, for refused links, a
//! body that says which rule was broken.

use vstd::prelude::*;
use crate::task::routes::connect_block_task::ConnectBlockTaskErrorBody;
use crate::task::routes::connect_subtask::ConnectSubtaskErrorBody;
use crate::sub_task::routes::connect_sub_task::ConnectSubTaskErrorBody;
use crate::task::routes::reconnect_sub_task::ReconnectSubTaskErrorBody;

verus! {

/// An empty answer body.
#[derive(Debug, Clone, Copy, PartialEq, Eq, Structural)]
pub struct Empty;

/// `400 Bad Request`.
pub const BAD_REQUEST: u16 = 400;

/// `401 Unauthorized`.
pub const UNAUTHORIZED: u16 = 401;

/// `404 Not Found`.
pub const NOT_FOUND: u16 = 404;

/// `422 Unprocessable Entity`: the payload breaks its rules.
pub const UNPROCESSABLE_ENTITY: u16 = 422;

/// `500 Internal Server Error`.
pub const INTERNAL_SERVER_ERROR: u16 = 500;

/// The body that says why a link was refused.
#[derive(Debug, Clone, Copy, PartialEq, Eq, Structural)]
pub enum ErrorBody {
    ConnectBlockTask(ConnectBlockTaskErrorBody),
    ConnectSubtask(ConnectSubtaskErrorBody),
    ConnectSubTask(ConnectSubTaskErrorBody),
    ReconnectSubTask(ReconnectSubTaskErrorBody),
}

/// An error answer.
#[derive(Debug, Clone, Copy, PartialEq, Eq, Structural)]
pub struct AppError {
    pub code: u16,
    pub body: Option<ErrorBody>,
}

impl AppError {
    /// An answer with `code` and no body.
    pub fn new(code: u16) -> (e: AppError)
        ensures
            e == (AppError { code, body: None }),
    {
        AppError { code, body: None }
    }

    /// An answer with `code` and `body`.
    pub fn with_json(code: u16, body: ErrorBody) -> (e: AppError)
        ensures
            e == (AppError { code, body: Some(body) }),
    {
        AppError { code, body: Some(body) }
    }

    /// The answer to a request without a logged-in user.
    pub open spec fn unauthorized_spec() -> AppError {
        AppError { code: UNAUTHORIZED, body: None }
    }

    /// The answer to a request without a logged-in user.
    pub fn unauthorized() -> (e: AppError)
        ensures
            e == AppError::unauthorized_spec(),
    {
        AppError::new(UNAUTHORIZED)
    }

    /// The answer to a failure of the stored state.
    pub open spec fn internal_spec() -> AppError {
        AppError { code: INTERNAL_SERVER_ERROR, body: None }
    }

    /// The answer to a failure of the stored state.
    pub fn internal() -> (e: AppError)
        ensures
            e == AppError::internal_spec(),
    {
        AppError::new(INTERNAL_SERVER_ERROR)
    }
}

} // verus!
