//! The wire form of requests and replies: tagged unions whose cases may be
//! absent, as a decoder hands them over. The exchange never reads these
//! directly; see the `try_from` conversions of the internal types.

use vstd::prelude::*;

verus! {

#[derive(Debug, Clone, PartialEq, Eq)]
pub struct Attribute {
    pub name: String,
    pub value: String,
}

#[derive(Debug, Clone, Copy, PartialEq, Eq)]
pub enum StatusKind {
    Queued,
    Running,
    Complete,
    Errored,
    MissedHeartbeat,
    Timedout,
}

#[derive(Debug, Clone, PartialEq, Eq)]
pub struct Status {
    pub data_type: Option<StatusKind>,
}

#[derive(Debug, Clone, PartialEq, Eq)]
pub struct Event {
    pub id: u64,
    pub data: Vec<u8>,
    pub attributes: Vec<Attribute>,
    pub status: Option<Status>,
}

#[derive(Debug, Clone, PartialEq, Eq)]
pub struct AddQueue {
    pub name: String,
}

#[derive(Debug, Clone, PartialEq, Eq)]
pub struct AddEvent {
    pub queue_name: String,
    pub event: Option<Event>,
}

#[derive(Debug, Clone, PartialEq, Eq)]
pub struct AddEvents {
    pub queue_name: String,
    pub events: Vec<Event>,
}

#[derive(Debug, Clone, PartialEq, Eq)]
pub struct UpdateEventStatus {
    pub queue_name: String,
    pub event_id: u64,
    pub status: Option<Status>,
}

#[derive(Debug, Clone, PartialEq, Eq)]
pub struct CreateTransaction {
    pub queue_name: String,
    pub event_id: u64,
}

#[derive(Debug, Clone, PartialEq, Eq)]
pub enum CommandKind {
    AddQueue(AddQueue),
    AddEvent(AddEvent),
    AddEvents(AddEvents),
    UpdateEventStatus(UpdateEventStatus),
    CreateTransaction(CreateTransaction),
}

#[derive(Debug, Clone, PartialEq, Eq)]
pub struct Command {
    pub command: Option<CommandKind>,
}

#[derive(Debug, Clone, PartialEq, Eq)]
pub struct AddEventResp {
    pub id: u64,
}

#[derive(Debug, Clone, PartialEq, Eq)]
pub struct AddEventsResp {
    pub ids: Vec<u64>,
}

#[derive(Debug, Clone, PartialEq, Eq)]
pub struct CreateTransactionResp {
    pub id: u64,
}

#[derive(Debug, Clone, PartialEq, Eq)]
pub enum CommandRespKind {
    AddQueueResp,
    AddEventResp(AddEventResp),
    AddEventsResp(AddEventsResp),
    UpdateEventStatusResp,
    CreateTransactionResp(CreateTransactionResp),
}

#[derive(Debug, Clone, PartialEq, Eq)]
pub struct CommandResp {
    pub command_resp: Option<CommandRespKind>,
}

#[derive(Debug, Clone, PartialEq, Eq)]
pub struct ExecCommandReq {
    pub command: Option<Command>,
}

#[derive(Debug, Clone, PartialEq, Eq)]
pub struct ExecCommandResp {
    pub command_resp: Option<CommandResp>,
}

} // verus!
