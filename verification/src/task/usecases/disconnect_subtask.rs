use vstd::prelude::*;
use crate::store::{TaskStore, DbError};
use super::disconnect_sub_task::{self, DisconnectSubTaskArgs, disconnect_sub_task_outcome};

verus! {

/// The sub-task link to remove, in the older naming.
pub struct DisconnectSubtaskArgs<'a> {
    pub parent_task_id: &'a str,
    pub subtask_id: &'a str,
    pub user_id: &'a str,
}

/// Same as [`disconnect_sub_task::action`].
pub fn action<'a>(db: &mut TaskStore, args: DisconnectSubtaskArgs<'a>) -> (r: Result<(), DbError>)
    ensures
        (final(db)@, r) == disconnect_sub_task_outcome(
            old(db)@,
            args.parent_task_id@,
            args.subtask_id@,
            args.user_id@,
        ),
{
    disconnect_sub_task::action(
        db,
        DisconnectSubTaskArgs {
            main_task_id: args.parent_task_id,
            sub_task_id: args.subtask_id,
            user_id: args.user_id,
        },
    )
}

} // verus!
