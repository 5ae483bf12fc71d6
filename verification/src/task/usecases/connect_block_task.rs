use vstd::prelude::*;
use crate::store::{TaskStore, StoreView, DbError};
use crate::block_task::db::{
    check_insert_block_task_connection, insert_block_task_connection, block_task_check,
    BlockTaskConnectionError, InsertBlockTaskConnectionArgs,
};
use crate::sub_task::db::{has_pair, link_of};

verus! {

/// The link to add: `blocking_task_id` blocks `blocked_task_id`.
pub struct ConnectBlockTaskArgs<'a> {
    pub blocking_task_id: &'a str,
    pub blocked_task_id: &'a str,
    pub user_id: &'a str,
}

/// Why the link was not added.
#[derive(Debug, Clone, Copy, PartialEq, Eq, Structural)]
pub enum ConnectBlockTaskError {
    CheckError(BlockTaskConnectionError),
    Unknown(DbError),
}

/// The store and outcome of [`action`].
pub open spec fn connect_block_task_outcome(
    db: StoreView,
    blocking: Seq<char>,
    blocked: Seq<char>,
    user: Seq<char>,
) -> (StoreView, Result<(), ConnectBlockTaskError>) {
    match block_task_check(db, blocking, blocked, user) {
        Err(e) => (db, Err(ConnectBlockTaskError::CheckError(e))),
        Ok(()) => if !db.has_id(blocking) || !db.has_id(blocked) {
            (db, Err(ConnectBlockTaskError::Unknown(DbError::MissingReference)))
        } else if has_pair(db.blocks, blocking, blocked) {
            (db, Err(ConnectBlockTaskError::Unknown(DbError::Conflict)))
        } else {
            (
                StoreView { blocks: db.blocks.push(link_of(blocking, blocked, user)), ..db },
                Ok(()),
            )
        },
    }
}

/// Checks the rules on a new blocking link, then records it.
pub fn action<'a>(db: &mut TaskStore, args: ConnectBlockTaskArgs<'a>) -> (r: Result<
    (),
    ConnectBlockTaskError,
>)
    ensures
        (final(db)@, r) == connect_block_task_outcome(
            old(db)@,
            args.blocking_task_id@,
            args.blocked_task_id@,
            args.user_id@,
        ),
{
    let insert_args = InsertBlockTaskConnectionArgs {
        blocking_task_id: args.blocking_task_id,
        blocked_task_id: args.blocked_task_id,
        user_id: args.user_id,
    };
    match check_insert_block_task_connection(&*db, &insert_args) {
        Err(e) => {
            return Err(ConnectBlockTaskError::CheckError(e));
        },
        Ok(()) => {},
    }
    match insert_block_task_connection(db, insert_args) {
        Err(e) => Err(ConnectBlockTaskError::Unknown(e)),
        Ok(()) => Ok(()),
    }
}

} // verus!
