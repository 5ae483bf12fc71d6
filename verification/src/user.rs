//! Users, as the session knows them.

use vstd::prelude::*;

verus! {

/// A registered user.
pub struct User {
    pub id: String,
    pub name: String,
    pub profile: String,
}

} // verus!
