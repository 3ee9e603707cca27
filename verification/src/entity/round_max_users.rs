//! Round capacities: how many users an event takes in one round.

use vstd::prelude::*;

verus! {

/// The capacity of one event in one round. Set when the store is seeded and
/// only read afterwards.
#[derive(Clone, Copy, Debug, PartialEq, Eq, Structural)]
pub struct Model {
    pub round: i32,
    pub event_id: i32,
    pub max_users: i32,
}

} // verus!
