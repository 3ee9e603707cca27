//! The subscription and notification core of an event scheduler.
//!
//! Participants subscribe to events that run in numbered rounds. The crate
//! holds the rules by which a participant's subscriptions change, the marks of
//! attendance, and the registry of observers to whom every change of a
//! subscriber count is pushed.

pub mod auth;
pub mod channel;
pub mod entity;
pub mod error;
pub mod mutation;
pub mod query;
pub mod registry;
pub mod seed;
pub mod seq_facts;
pub mod service;
pub mod store;
pub mod time;
