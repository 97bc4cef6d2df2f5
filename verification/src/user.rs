//! User identity.

use vstd::prelude::*;

verus! {

/// Identifies an account holder. Every operation of the store is keyed by a
/// user id, so that no state is ever global to the process.
#[derive(Clone, Copy, Debug, PartialEq, Eq, Structural)]
pub struct UserId(pub i64);

impl UserId {
    /// The id as a mathematical integer, for contracts.
    pub open spec fn view(self) -> int {
        self.0 as int
    }
}

} // verus!
