use vstd::prelude::*;
use crate::store::TaskStore;
use super::connect_sub_task::{self, ConnectSubTaskArgs, ConnectSubTaskError, connect_sub_task_outcome};

verus! {

/// The link to add, in the older naming: `subtask_id` becomes a sub task
/// of `parent_task_id`.
pub struct ConnectSubtaskArgs<'a> {
    pub parent_task_id: &'a str,
    pub subtask_id: &'a str,
    pub user_id: &'a str,
}

/// Same as [`connect_sub_task::action`].
pub fn action<'a>(db: &mut TaskStore, args: ConnectSubtaskArgs<'a>) -> (r: Result<
    (),
    ConnectSubTaskError,
>)
    ensures
        (final(db)@, r) == connect_sub_task_outcome(
            old(db)@,
            args.parent_task_id@,
            args.subtask_id@,
            args.user_id@,
        ),
{
    connect_sub_task::action(
        db,
        ConnectSubTaskArgs {
            main_task_id: args.parent_task_id,
            sub_task_id: args.subtask_id,
            user_id: args.user_id,
        },
    )
}

} // verus!
