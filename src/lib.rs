//! A transactional event exchange: named queues of events, a status state
//! machine for each event, and follow-up commands that fire when an event
//! reaches a given status.

pub mod event;
pub mod exchange;
pub mod gateway;
pub mod queue;
pub mod transaction;
pub mod wire;
