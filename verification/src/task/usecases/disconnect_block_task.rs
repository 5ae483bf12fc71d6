use vstd::prelude::*;
use crate::store::{TaskStore, StoreView, DbError};
use crate::block_task::db::{delete_block_task_connection, DeleteBlockTaskConnectionArgs};
use crate::sub_task::db::{link_of, without_link};

verus! {

/// The blocking link to remove.
pub struct DisconnectBlockTaskArgs<'a> {
    pub blocking_task_id: &'a str,
    pub blocked_task_id: &'a str,
    pub user_id: &'a str,
}

/// The store and outcome of [`action`].
pub open spec fn disconnect_block_task_outcome(
    db: StoreView,
    blocking: Seq<char>,
    blocked: Seq<char>,
    user: Seq<char>,
) -> (StoreView, Result<(), DbError>) {
    let target = link_of(blocking, blocked, user);
    if db.blocks.contains(target) {
        (StoreView { blocks: without_link(db.blocks, target), ..db }, Ok(()))
    } else {
        (db, Err(DbError::NotFound))
    }
}

/// Removes the blocking link; fails when the user has not recorded it.
pub fn action<'a>(db: &mut TaskStore, args: DisconnectBlockTaskArgs<'a>) -> (r: Result<(), DbError>)
    ensures
        (final(db)@, r) == disconnect_block_task_outcome(
            old(db)@,
            args.blocking_task_id@,
            args.blocked_task_id@,
            args.user_id@,
        ),
{
    delete_block_task_connection(
        db,
        DeleteBlockTaskConnectionArgs {
            blocking_task_id: args.blocking_task_id,
            blocked_task_id: args.blocked_task_id,
            user_id: args.user_id,
        },
    )
}

} // verus!
