//! Room session engine for a small real-time collaborative-estimation tool.
//!
//! Participants join shared rooms, privately select an estimate card, and see
//! a synchronized view of the votes once they are revealed.  The crate holds
//! the in-memory room store, the publish/subscribe broker that fans room
//! snapshots out to subscribers, and the domain types they operate on.

pub mod broker;
pub mod domain;
pub mod engine;
pub mod errors;
mod ids;
pub mod laws;
pub mod model;
pub mod store;
