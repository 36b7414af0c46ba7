//! Queues: named sets of active events, with at most one transaction per event.

use std::collections::HashMap;

use vstd::prelude::*;

use crate::event::{is_terminal_status, Event, EventStatus, EventView};
use crate::transaction::{with_command, Command, Transaction, TransactionView, Trigger};

verus! {

broadcast use vstd::std_specs::hash::group_hash_axioms;

/// Failures a queue can report about its events.
#[derive(Debug, Clone, PartialEq, Eq)]
pub enum QueueError {
    EventNotFound(u64),
}

pub struct QueueView {
    pub name: Seq<char>,
    /// The active events, by id.
    pub events: Map<u64, EventView>,
    /// The id the next event will get.
    pub next_event_id: u64,
    /// The pending transactions, by the id of their event.
    pub transactions: Map<u64, TransactionView>,
    /// The id the next transaction will get.
    pub next_transaction_id: u64,
}

impl QueueView {
    pub open spec fn empty(name: Seq<char>) -> QueueView {
        QueueView {
            name,
            events: Map::empty(),
            next_event_id: 0,
            transactions: Map::empty(),
            next_transaction_id: 0,
        }
    }

    /// Every event is stored under its own id, which is below the next id to
    /// hand out; every transaction is stored under its event's id.
    pub open spec fn wf(self) -> bool {
        &&& self.events.dom().finite()
        &&& self.transactions.dom().finite()
        &&& forall|k: u64| #[trigger]
            self.events.contains_key(k) ==> k < self.next_event_id && self.events[k].id == k
        &&& forall|k: u64| #[trigger]
            self.transactions.contains_key(k) ==> self.transactions[k].event_id == k
                && self.transactions[k].wf()
    }

    /// Taking in `e`: it gets the next id, whatever id it carried.
    pub open spec fn with_event(self, e: EventView) -> QueueView {
        QueueView {
            events: self.events.insert(self.next_event_id, EventView { id: self.next_event_id, ..e }),
            next_event_id: (self.next_event_id + 1) as u64,
            ..self
        }
    }

    /// Taking in each of `es`, in order.
    pub open spec fn with_events(self, es: Seq<EventView>) -> QueueView
        decreases es.len(),
    {
        if es.len() == 0 {
            self
        } else {
            self.with_events(es.drop_last()).with_event(es.last())
        }
    }

    /// Setting the status of event `id`: a terminal status removes it, any
    /// other is set in place; an unknown id changes nothing.
    pub open spec fn with_status(self, id: u64, status: EventStatus) -> QueueView {
        if !self.events.contains_key(id) {
            self
        } else if is_terminal_status(status) {
            QueueView { events: self.events.remove(id), ..self }
        } else {
            QueueView { events: self.events.insert(id, EventView { status, ..self.events[id] }), ..self }
        }
    }

    /// A fresh transaction for `event_id`, replacing any there was.
    pub open spec fn with_transaction(self, event_id: u64) -> QueueView {
        QueueView {
            transactions: self.transactions.insert(
                event_id,
                TransactionView {
                    id: self.next_transaction_id,
                    event_id,
                    triggers: seq![],
                    last_heartbeat: None,
                },
            ),
            next_transaction_id: if self.next_transaction_id == u64::MAX {
                0
            } else {
                (self.next_transaction_id + 1) as u64
            },
            ..self
        }
    }

    pub open spec fn without_transaction(self, event_id: u64) -> QueueView {
        QueueView { transactions: self.transactions.remove(event_id), ..self }
    }

    /// `command` registered under `trigger` on the transaction of `event_id`,
    /// which must exist.
    pub open spec fn with_trigger_command(
        self,
        event_id: u64,
        trigger: Trigger,
        command: Command,
    ) -> QueueView {
        let t = self.transactions[event_id];
        QueueView {
            transactions: self.transactions.insert(
                event_id,
                TransactionView { triggers: with_command(t.triggers, trigger, command), ..t },
            ),
            ..self
        }
    }

    /// The events whose transaction has something that may fire.
    pub open spec fn armed_events(self) -> Set<u64> {
        self.transactions.dom().filter(|k: u64| self.transactions[k].armed())
    }

    pub open spec fn armed_count(self) -> nat {
        self.armed_events().len()
    }
}

/// A named queue of events.
#[derive(Debug)]
pub struct Queue {
    name: String,
    events: HashMap<u64, Event>,
    event_idx: u64,
    transactions: HashMap<u64, Transaction>,
    transaction_idx: u64,
}

impl View for Queue {
    type V = QueueView;

    closed spec fn view(&self) -> QueueView {
        QueueView {
            name: self.name@,
            events: self.events@.map_values(|e: Event| e@),
            next_event_id: self.event_idx,
            transactions: self.transactions@.map_values(|t: Transaction| t@),
            next_transaction_id: self.transaction_idx,
        }
    }
}

impl Queue {
    pub open spec fn wf(&self) -> bool {
        self@.wf()
    }

    pub fn new(name: String) -> (r: Queue)
        ensures
            r@ == QueueView::empty(name@),
            r.wf(),
    {
        let r = Queue {
            name,
            events: HashMap::new(),
            event_idx: 0,
            transactions: HashMap::new(),
            transaction_idx: 0,
        };
        assert(r@.events =~= Map::empty());
        assert(r@.transactions =~= Map::empty());
        r
    }

    pub fn has_name(&self, name: &String) -> (r: bool)
        ensures
            r == (self@.name == name@),
    {
        self.name == *name
    }

    pub fn next_event_id(&self) -> (r: u64)
        ensures
            r == self@.next_event_id,
    {
        self.event_idx
    }

    pub fn name(&self) -> (r: String)
        ensures
            r@ == self@.name,
    {
        self.name.clone()
    }

    /// Takes in `event` under the next id, which it returns.
    pub fn add_event(&mut self, event: Event) -> (r: u64)
        requires
            old(self).wf(),
            old(self)@.next_event_id < u64::MAX,
        ensures
            final(self).wf(),
            final(self)@ == old(self)@.with_event(event@),
            r == old(self)@.next_event_id,
            !old(self)@.events.contains_key(r),
            final(self)@.events.contains_key(r),
            final(self)@.events[r] == (EventView { id: r, ..event@ }),
            final(self)@.next_event_id == r + 1,
    {
        let mut event = event;
        let event_idx = self.event_idx;
        event.set_id(event_idx);
        self.events.insert(event_idx, event);
        self.event_idx = event_idx + 1;
        assert(self@.events =~= old(self)@.with_event(event@).events);
        event_idx
    }

    /// Sets the status of an event. Returns the event, with its new status,
    /// when a terminal status removed it, and whether the event was found.
    pub fn update_event_status(&mut self, event_id: &u64, status: EventStatus) -> (r: (
        Option<Event>,
        bool,
    ))
        requires
            old(self).wf(),
        ensures
            final(self).wf(),
            final(self)@ == old(self)@.with_status(*event_id, status),
            r.1 == old(self)@.events.contains_key(*event_id),
            r.0 is Some <==> r.1 && is_terminal_status(status),
            r.0 is Some ==> r.0->Some_0@ == (EventView {
                status,
                ..old(self)@.events[*event_id]
            }),
    {
        let id = *event_id;
        if status.is_terminal() {
            let mut event = match self.events.remove(&id) {
                Some(event) => event,
                None => {
                    assert(self@.events =~= old(self)@.events);
                    return (None, false);
                },
            };
            event.set_status(status);
            assert(self@.events =~= old(self)@.with_status(id, status).events);
            (Some(event), true)
        } else {
            let mut event = match self.events.remove(&id) {
                Some(event) => event,
                None => {
                    assert(self@.events =~= old(self)@.events);
                    return (None, false);
                },
            };
            event.set_status(status);
            self.events.insert(id, event);
            assert(self@.events =~= old(self)@.with_status(id, status).events);
            (None, true)
        }
    }

    /// Binds a fresh transaction to `event_id`, replacing any there was, and
    /// returns its id.
    pub fn create_transaction(&mut self, event_id: u64) -> (r: u64)
        requires
            old(self).wf(),
        ensures
            final(self).wf(),
            final(self)@ == old(self)@.with_transaction(event_id),
            r == old(self)@.next_transaction_id,
            final(self)@.armed_count() <= old(self)@.armed_count(),
    {
        let trans_id = self.transaction_idx;
        self.transaction_idx = if trans_id == u64::MAX {
            0
        } else {
            trans_id + 1
        };
        let t = Transaction::new(trans_id, event_id);
        self.transactions.insert(event_id, t);
        let ghost post = old(self)@.with_transaction(event_id);
        assert(self@.transactions =~= post.transactions);
        proof {
            let pre = old(self)@;
            assert(post.armed_events() =~= pre.armed_events().remove(event_id));
            pre.transactions.dom().lemma_len_filter(|k: u64| pre.transactions[k].armed());
        }
        trans_id
    }

    /// Takes out the transaction of `event_id`, if there is one.
    pub fn remove_transaction(&mut self, event_id: &u64) -> (r: Option<Transaction>)
        requires
            old(self).wf(),
        ensures
            final(self).wf(),
            final(self)@ == old(self)@.without_transaction(*event_id),
            r is Some <==> old(self)@.transactions.contains_key(*event_id),
            r is Some ==> r->Some_0@ == old(self)@.transactions[*event_id],
            final(self)@.armed_count() + (if r is Some && r->Some_0@.armed() {
                1int
            } else {
                0
            }) == old(self)@.armed_count(),
    {
        let r = self.transactions.remove(event_id);
        let ghost pre = old(self)@;
        let ghost post = pre.without_transaction(*event_id);
        assert(self@.transactions =~= post.transactions);
        proof {
            assert(post.armed_events() =~= pre.armed_events().remove(*event_id));
            pre.transactions.dom().lemma_len_filter(|k: u64| pre.transactions[k].armed());
        }
        r
    }

    /// Registers `command` under `trigger` on the transaction of `event_id`.
    /// Returns whether that transaction exists; without it nothing changes.
    pub fn add_command_trigger(&mut self, event_id: u64, trigger: Trigger, command: Command) -> (r:
        bool)
        requires
            old(self).wf(),
        ensures
            final(self).wf(),
            r == old(self)@.transactions.contains_key(event_id),
            r ==> final(self)@ == old(self)@.with_trigger_command(event_id, trigger, command),
            !r ==> final(self)@ == old(self)@,
    {
        let mut t = match self.transactions.remove(&event_id) {
            Some(t) => t,
            None => {
                assert(self@.transactions =~= old(self)@.transactions);
                return false;
            },
        };
        assert(old(self)@.transactions.contains_key(event_id));
        assert(t@ == old(self)@.transactions[event_id]);
        t.add_command_trigger(trigger, command);
        self.transactions.insert(event_id, t);
        assert(self@.transactions =~= old(self)@.with_trigger_command(
            event_id,
            trigger,
            command,
        ).transactions);
        true
    }

    pub fn get_event(&self, event_id: u64) -> (r: Option<&Event>)
        ensures
            r is Some <==> self@.events.contains_key(event_id),
            r is Some ==> r->Some_0@ == self@.events[event_id],
    {
        self.events.get(&event_id)
    }

    pub fn get_transaction(&self, event_id: u64) -> (r: Option<&Transaction>)
        ensures
            r is Some <==> self@.transactions.contains_key(event_id),
            r is Some ==> r->Some_0@ == self@.transactions[event_id],
    {
        self.transactions.get(&event_id)
    }
}

} // verus!
