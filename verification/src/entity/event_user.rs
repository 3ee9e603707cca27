//! Subscriptions: the claim of one user on one event for one round.

use vstd::prelude::*;
use crate::time::Timestamp;

verus! {

/// One subscription. A user holds at most one per round. `joined_at` and
/// `left_at` are unset until the user checks in and out.
#[derive(Clone, Copy, Debug, PartialEq, Eq)]
pub struct Model {
    pub user_id: i32,
    pub event_id: i32,
    pub round: i32,
    pub joined_at: Option<Timestamp>,
    pub left_at: Option<Timestamp>,
}

} // verus!
