use vstd::prelude::*;
use crate::store::{TaskStore, DbError};
use crate::sub_task::db::SubTaskConnectionError;
use super::reconnect_sub_task::{self, ReconnectSubTaskArgs, ReconnectSubTaskError, reconnect_outcome};

verus! {

/// The sub-task link to move, in the older naming.
pub struct ReconnectSubtaskArgs<'a> {
    pub old_parent_task_id: &'a str,
    pub old_subtask_id: &'a str,
    pub new_parent_task_id: &'a str,
    pub new_subtask_id: &'a str,
    pub user_id: &'a str,
}

/// Why the link was not moved.
#[derive(Debug, Clone, Copy, PartialEq, Eq, Structural)]
pub enum ReconnectSubtaskError {
    Connect(SubTaskConnectionError),
    Unknown(DbError),
}

/// Same as [`reconnect_sub_task::action`].
pub fn action<'a>(db: &mut TaskStore, args: ReconnectSubtaskArgs<'a>) -> (r: Result<
    (),
    ReconnectSubtaskError,
>)
    ensures
        ({
            let (d, o) = reconnect_outcome(
                old(db)@,
                args.old_parent_task_id@,
                args.old_subtask_id@,
                args.new_parent_task_id@,
                args.new_subtask_id@,
                args.user_id@,
            );
            &&& final(db)@ == d
            &&& r == match o {
                Ok(()) => Ok(()),
                Err(ReconnectSubTaskError::Connect(e)) => Err(ReconnectSubtaskError::Connect(e)),
                Err(ReconnectSubTaskError::Unknown(e)) => Err(ReconnectSubtaskError::Unknown(e)),
            }
        }),
{
    match reconnect_sub_task::action(
        db,
        ReconnectSubTaskArgs {
            old_parent_task_id: args.old_parent_task_id,
            old_sub_task_id: args.old_subtask_id,
            new_parent_task_id: args.new_parent_task_id,
            new_sub_task_id: args.new_subtask_id,
            user_id: args.user_id,
        },
    ) {
        Ok(()) => Ok(()),
        Err(ReconnectSubTaskError::Connect(e)) => Err(ReconnectSubtaskError::Connect(e)),
        Err(ReconnectSubTaskError::Unknown(e)) => Err(ReconnectSubtaskError::Unknown(e)),
    }
}

} // verus!
