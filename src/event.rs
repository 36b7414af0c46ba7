//! Events: units of work with a payload, metadata and a lifecycle status.

use vstd::prelude::*;

use crate::exchange::ExchangeError;
use crate::wire;

verus! {

/// A name/value tag on an event. Names need not be unique.
#[derive(Debug, Clone)]
pub struct Attribute {
    name: String,
    value: String,
}

pub struct AttributeView {
    pub name: Seq<char>,
    pub value: Seq<char>,
}

impl View for Attribute {
    type V = AttributeView;

    closed spec fn view(&self) -> AttributeView {
        AttributeView { name: self.name@, value: self.value@ }
    }
}

/// What an attribute read from the wire stands for.
pub open spec fn wire_attribute_view(w: wire::Attribute) -> AttributeView {
    AttributeView { name: w.name@, value: w.value@ }
}

impl Attribute {
    pub fn new(name: String, value: String) -> (r: Attribute)
        ensures
            r@ == (AttributeView { name: name@, value: value@ }),
    {
        Attribute { name, value }
    }

    pub fn name(&self) -> (r: &String)
        ensures
            r@ == self@.name,
    {
        &self.name
    }

    pub fn value(&self) -> (r: &String)
        ensures
            r@ == self@.value,
    {
        &self.value
    }

    /// Converts an attribute from its wire form; this never fails.
    pub fn try_from(obj: wire::Attribute) -> (r: Result<Attribute, ExchangeError>)
        ensures
            r is Ok,
            r->Ok_0@ == wire_attribute_view(obj),
    {
        Ok(Attribute { name: obj.name, value: obj.value })
    }
}

/// The lifecycle status of an event.
#[derive(Debug, Clone, Copy, PartialEq, Eq, Structural)]
pub enum EventStatus {
    Queued,
    Running,
    Complete,
    Errored,
    MissedHeartbeat,
    Timedout,
}

/// A terminal status takes an event out of its queue.
pub open spec fn is_terminal_status(s: EventStatus) -> bool {
    match s {
        EventStatus::Queued | EventStatus::Running => false,
        _ => true,
    }
}

/// The status that a wire status case names.
pub open spec fn status_of_kind(k: wire::StatusKind) -> EventStatus {
    match k {
        wire::StatusKind::Queued => EventStatus::Queued,
        wire::StatusKind::Running => EventStatus::Running,
        wire::StatusKind::Complete => EventStatus::Complete,
        wire::StatusKind::Errored => EventStatus::Errored,
        wire::StatusKind::MissedHeartbeat => EventStatus::MissedHeartbeat,
        wire::StatusKind::Timedout => EventStatus::Timedout,
    }
}

impl EventStatus {
    pub fn is_terminal(&self) -> (r: bool)
        ensures
            r == is_terminal_status(*self),
    {
        match self {
            EventStatus::Queued | EventStatus::Running => false,
            _ => true,
        }
    }

    /// Converts a wire status; a status with no case set is a decode error.
    pub fn try_from(obj: wire::Status) -> (r: Result<EventStatus, ExchangeError>)
        ensures
            obj.data_type is None <==> r is Err,
            r is Err ==> r->Err_0 == ExchangeError::StatusNotProvided,
            r is Ok ==> r->Ok_0 == status_of_kind(obj.data_type->Some_0),
    {
        match obj.data_type {
            Some(wire::StatusKind::Queued) => Ok(EventStatus::Queued),
            Some(wire::StatusKind::Running) => Ok(EventStatus::Running),
            Some(wire::StatusKind::Complete) => Ok(EventStatus::Complete),
            Some(wire::StatusKind::Errored) => Ok(EventStatus::Errored),
            Some(wire::StatusKind::MissedHeartbeat) => Ok(EventStatus::MissedHeartbeat),
            Some(wire::StatusKind::Timedout) => Ok(EventStatus::Timedout),
            None => Err(ExchangeError::StatusNotProvided),
        }
    }
}

/// A unit of work. Its id is assigned by the queue that takes it in.
#[derive(Debug, Clone)]
pub struct Event {
    id: u64,
    data: Vec<u8>,
    attributes: Vec<Attribute>,
    status: EventStatus,
}

pub struct EventView {
    pub id: u64,
    pub data: Seq<u8>,
    pub attributes: Seq<AttributeView>,
    pub status: EventStatus,
}

pub open spec fn attributes_view(attrs: Seq<Attribute>) -> Seq<AttributeView> {
    attrs.map_values(|a: Attribute| a@)
}

impl View for Event {
    type V = EventView;

    closed spec fn view(&self) -> EventView {
        EventView {
            id: self.id,
            data: self.data@,
            attributes: attributes_view(self.attributes@),
            status: self.status,
        }
    }
}

/// A wire event is decodable unless it carries a status with no case set.
pub open spec fn wire_event_decodes(w: wire::Event) -> bool {
    w.status is Some ==> w.status->Some_0.data_type is Some
}

/// What a decodable wire event stands for; an absent status means `Queued`.
pub open spec fn wire_event_view(w: wire::Event) -> EventView {
    EventView {
        id: w.id,
        data: w.data@,
        attributes: w.attributes@.map_values(|a: wire::Attribute| wire_attribute_view(a)),
        status: match w.status {
            Some(s) => status_of_kind(s.data_type->Some_0),
            None => EventStatus::Queued,
        },
    }
}

impl Event {
    pub fn new(id: u64, data: Vec<u8>, attributes: Vec<Attribute>) -> (r: Event)
        ensures
            r@ == (EventView {
                id,
                data: data@,
                attributes: attributes_view(attributes@),
                status: EventStatus::Queued,
            }),
    {
        Event { id, data, attributes, status: EventStatus::Queued }
    }

    pub fn set_id(&mut self, id: u64)
        ensures
            final(self)@ == (EventView { id, ..old(self)@ }),
    {
        self.id = id;
    }

    pub fn set_status(&mut self, status: EventStatus)
        ensures
            final(self)@ == (EventView { status, ..old(self)@ }),
    {
        self.status = status;
    }

    pub fn id(&self) -> (r: u64)
        ensures
            r == self@.id,
    {
        self.id
    }

    pub fn status(&self) -> (r: EventStatus)
        ensures
            r == self@.status,
    {
        self.status
    }

    pub fn data(&self) -> (r: &Vec<u8>)
        ensures
            r@ == self@.data,
    {
        &self.data
    }

    pub fn attributes(&self) -> (r: &Vec<Attribute>)
        ensures
            attributes_view(r@) == self@.attributes,
    {
        &self.attributes
    }

    /// Converts an event from its wire form. The only failure is a status
    /// that is present but has no case set.
    pub fn try_from(obj: wire::Event) -> (r: Result<Event, ExchangeError>)
        ensures
            r is Ok <==> wire_event_decodes(obj),
            r is Err ==> r->Err_0 == ExchangeError::StatusNotProvided,
            r is Ok ==> r->Ok_0@ == wire_event_view(obj),
    {
        let ghost w = obj;
        let status = match obj.status {
            Some(s) => match EventStatus::try_from(s) {
                Ok(st) => st,
                Err(e) => return Err(e),
            },
            None => EventStatus::Queued,
        };
        let mut items = obj.attributes;
        let mut attributes: Vec<Attribute> = Vec::new();
        let ghost n = items@.len();
        while items.len() > 0
            invariant
                items@ == w.attributes@.subrange(n - items@.len(), n as int),
                n == w.attributes@.len(),
                items@.len() <= n,
                attributes_view(attributes@) == w.attributes@.subrange(
                    0,
                    n - items@.len(),
                ).map_values(|a: wire::Attribute| wire_attribute_view(a)),
            decreases items@.len(),
        {
            let ghost done = n - items@.len();
            let item = items.remove(0);
            assert(item == w.attributes@[done]);
            let attribute = match Attribute::try_from(item) {
                Ok(a) => a,
                Err(e) => return Err(e),
            };
            let ghost prev = attributes@;
            attributes.push(attribute);
            assert(attributes_view(attributes@) =~= attributes_view(prev).push(attribute@));
            assert(w.attributes@.subrange(0, done + 1) =~= w.attributes@.subrange(0, done).push(
                item,
            ));
            assert(attributes_view(attributes@) =~= w.attributes@.subrange(0, done + 1).map_values(
                |a: wire::Attribute| wire_attribute_view(a),
            ));
            assert(items@ =~= w.attributes@.subrange(n - items@.len(), n as int));
        }
        assert(w.attributes@.subrange(0, n as int) =~= w.attributes@);
        let event = Event { id: obj.id, status, attributes, data: obj.data };
        Ok(event)
    }
}

} // verus!
