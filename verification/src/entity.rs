//! The records that the store holds.

pub mod event;
pub mod event_user;
pub mod round_max_users;
pub mod user;
