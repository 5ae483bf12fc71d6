use vstd::prelude::*;
use crate::store::{TaskStore, StoreView};
use super::connect_block_task::{self, ConnectBlockTaskArgs, ConnectBlockTaskError, connect_block_task_outcome};
use super::disconnect_block_task::{self, DisconnectBlockTaskArgs, disconnect_block_task_outcome};

verus! {

/// The blocking link to move.
pub struct ReconnectBlockTaskArgs<'a> {
    pub old_blocking_task_id: &'a str,
    pub old_blocked_task_id: &'a str,
    pub new_blocking_task_id: &'a str,
    pub new_blocked_task_id: &'a str,
    pub user_id: &'a str,
}

/// The store and outcome of [`action`]: the old link goes, then the new one
/// is added as [`connect_block_task::action`] adds it.
pub open spec fn reconnect_block_task_outcome(
    db: StoreView,
    old_blocking: Seq<char>,
    old_blocked: Seq<char>,
    new_blocking: Seq<char>,
    new_blocked: Seq<char>,
    user: Seq<char>,
) -> (StoreView, Result<(), ConnectBlockTaskError>) {
    let (d1, r1) = disconnect_block_task_outcome(db, old_blocking, old_blocked, user);
    match r1 {
        Err(e) => (d1, Err(ConnectBlockTaskError::Unknown(e))),
        Ok(()) => connect_block_task_outcome(d1, new_blocking, new_blocked, user),
    }
}

/// Removes the old blocking link, then adds the new one.
pub fn action<'a>(db: &mut TaskStore, args: ReconnectBlockTaskArgs<'a>) -> (r: Result<
    (),
    ConnectBlockTaskError,
>)
    ensures
        (final(db)@, r) == reconnect_block_task_outcome(
            old(db)@,
            args.old_blocking_task_id@,
            args.old_blocked_task_id@,
            args.new_blocking_task_id@,
            args.new_blocked_task_id@,
            args.user_id@,
        ),
{
    match disconnect_block_task::action(
        db,
        DisconnectBlockTaskArgs {
            blocking_task_id: args.old_blocking_task_id,
            blocked_task_id: args.old_blocked_task_id,
            user_id: args.user_id,
        },
    ) {
        Err(e) => {
            return Err(ConnectBlockTaskError::Unknown(e));
        },
        Ok(()) => {},
    }
    connect_block_task::action(
        db,
        ConnectBlockTaskArgs {
            blocking_task_id: args.new_blocking_task_id,
            blocked_task_id: args.new_blocked_task_id,
            user_id: args.user_id,
        },
    )
}

} // verus!
