//! Transactions: status-conditioned lists of follow-up commands bound to one
//! event, and the commands the exchange interprets.

use vstd::prelude::*;

use crate::event::{
    status_of_kind, wire_event_decodes, wire_event_view, Event, EventStatus, EventView,
};
use crate::exchange::ExchangeError;
use crate::wire;

verus! {

/// The status condition that makes a command trigger fire. Each case names
/// the event it was registered against.
#[derive(Debug, Clone, Copy, PartialEq, Eq, Structural)]
pub enum Trigger {
    OnEventComplete(u64),
    OnEventError(u64),
    OnEventMissedHeartbeat(u64),
    OnEventTimedout(u64),
}

/// A trigger fires on exactly one status; the event id is not compared.
pub open spec fn fires(t: Trigger, s: EventStatus) -> bool {
    match t {
        Trigger::OnEventComplete(_) => s == EventStatus::Complete,
        Trigger::OnEventError(_) => s == EventStatus::Errored,
        Trigger::OnEventMissedHeartbeat(_) => s == EventStatus::MissedHeartbeat,
        Trigger::OnEventTimedout(_) => s == EventStatus::Timedout,
    }
}

/// The operations the exchange interprets.
#[derive(Debug)]
pub enum Command {
    AddQueue { name: String },
    AddEvent { queue_name: String, event: Event },
    AddEvents { queue_name: String, events: Vec<Event> },
    UpdateEventStatus { queue_name: String, event_id: u64, status: EventStatus },
    CreateTransaction { queue_name: String, event_id: u64 },
}

/// The reply to each command, case for case.
#[derive(Debug, PartialEq, Eq)]
pub enum CommandResp {
    AddQueue {},
    AddEvent { id: u64 },
    AddEvents { ids: Vec<u64> },
    UpdateEventStatus {},
    CreateTransaction { id: u64 },
}

pub enum CommandRespView {
    AddQueue,
    AddEvent { id: u64 },
    AddEvents { ids: Seq<u64> },
    UpdateEventStatus,
    CreateTransaction { id: u64 },
}

impl View for CommandResp {
    type V = CommandRespView;

    open spec fn view(&self) -> CommandRespView {
        match self {
            CommandResp::AddQueue {} => CommandRespView::AddQueue,
            CommandResp::AddEvent { id } => CommandRespView::AddEvent { id: *id },
            CommandResp::AddEvents { ids } => CommandRespView::AddEvents { ids: ids@ },
            CommandResp::UpdateEventStatus {} => CommandRespView::UpdateEventStatus,
            CommandResp::CreateTransaction { id } => CommandRespView::CreateTransaction { id: *id },
        }
    }
}

/// The wire reply that carries a reply.
pub open spec fn wire_resp_of(v: CommandResp) -> wire::CommandResp {
    wire::CommandResp {
        command_resp: Some(
            match v {
                CommandResp::AddQueue {} => wire::CommandRespKind::AddQueueResp,
                CommandResp::AddEvent { id } => wire::CommandRespKind::AddEventResp(
                    wire::AddEventResp { id },
                ),
                CommandResp::AddEvents { ids } => wire::CommandRespKind::AddEventsResp(
                    wire::AddEventsResp { ids },
                ),
                CommandResp::UpdateEventStatus {} => wire::CommandRespKind::UpdateEventStatusResp,
                CommandResp::CreateTransaction { id } => wire::CommandRespKind::CreateTransactionResp(
                    wire::CreateTransactionResp { id },
                ),
            },
        ),
    }
}

impl wire::CommandResp {
    /// Encodes a reply in its wire form; this never fails.
    pub fn try_from(value: CommandResp) -> (r: Result<wire::CommandResp, ExchangeError>)
        ensures
            r == Ok::<wire::CommandResp, ExchangeError>(wire_resp_of(value)),
    {
        let kind = match value {
            CommandResp::AddQueue {} => wire::CommandRespKind::AddQueueResp,
            CommandResp::AddEvent { id } => wire::CommandRespKind::AddEventResp(
                wire::AddEventResp { id },
            ),
            CommandResp::AddEvents { ids } => wire::CommandRespKind::AddEventsResp(
                wire::AddEventsResp { ids },
            ),
            CommandResp::UpdateEventStatus {} => wire::CommandRespKind::UpdateEventStatusResp,
            CommandResp::CreateTransaction { id } => wire::CommandRespKind::CreateTransactionResp(
                wire::CreateTransactionResp { id },
            ),
        };
        Ok(wire::CommandResp { command_resp: Some(kind) })
    }
}

pub open spec fn events_view(es: Seq<Event>) -> Seq<EventView> {
    es.map_values(|e: Event| e@)
}

pub open spec fn wire_events_view(es: Seq<wire::Event>) -> Seq<EventView> {
    es.map_values(|e: wire::Event| wire_event_view(e))
}

/// A wire command decodes when its case is set and every field the case
/// requires is present.
pub open spec fn wire_command_decodes(w: wire::Command) -> bool {
    match w.command {
        None => false,
        Some(k) => match k {
            wire::CommandKind::AddQueue(_) => true,
            wire::CommandKind::AddEvent(o) => o.event is Some && wire_event_decodes(
                o.event->Some_0,
            ),
            wire::CommandKind::AddEvents(o) => forall|i: int|
                0 <= i < o.events@.len() ==> wire_event_decodes(#[trigger] o.events@[i]),
            wire::CommandKind::UpdateEventStatus(o) => o.status is Some
                && o.status->Some_0.data_type is Some,
            wire::CommandKind::CreateTransaction(_) => true,
        },
    }
}

/// The error that an undecodable wire command gives: the first absent field.
pub open spec fn wire_command_error(w: wire::Command) -> ExchangeError {
    match w.command {
        Some(wire::CommandKind::AddEvent(o)) => if o.event is None {
            ExchangeError::AddEventRequestMissingEvent
        } else {
            ExchangeError::StatusNotProvided
        },
        Some(wire::CommandKind::UpdateEventStatus(o)) => if o.status is None {
            ExchangeError::UpdateEventStatusMissingStatus
        } else {
            ExchangeError::StatusNotProvided
        },
        Some(_) => ExchangeError::StatusNotProvided,
        None => ExchangeError::CommandNotProvided,
    }
}

/// `c` is what the decodable wire command `w` stands for.
pub open spec fn decoded_as(w: wire::Command, c: Command) -> bool {
    match w.command->Some_0 {
        wire::CommandKind::AddQueue(o) => c == Command::AddQueue { name: o.name },
        wire::CommandKind::AddEvent(o) => match c {
            Command::AddEvent { queue_name, event } => queue_name == o.queue_name && event@
                == wire_event_view(o.event->Some_0),
            _ => false,
        },
        wire::CommandKind::AddEvents(o) => match c {
            Command::AddEvents { queue_name, events } => queue_name == o.queue_name
                && events_view(events@) == wire_events_view(o.events@),
            _ => false,
        },
        wire::CommandKind::UpdateEventStatus(o) => c == Command::UpdateEventStatus {
            queue_name: o.queue_name,
            event_id: o.event_id,
            status: status_of_kind(o.status->Some_0.data_type->Some_0),
        },
        wire::CommandKind::CreateTransaction(o) => c == Command::CreateTransaction {
            queue_name: o.queue_name,
            event_id: o.event_id,
        },
    }
}

/// Decodes each wire event in order; fails on the first that does not decode.
fn decode_events(obj: Vec<wire::Event>) -> (r: Result<Vec<Event>, ExchangeError>)
    ensures
        r is Ok <==> (forall|i: int| 0 <= i < obj@.len() ==> wire_event_decodes(#[trigger] obj@[i])),
        r is Err ==> r->Err_0 == ExchangeError::StatusNotProvided,
        r is Ok ==> events_view(r->Ok_0@) == wire_events_view(obj@),
{
    let ghost w = obj@;
    let ghost n = w.len();
    let mut items = obj;
    let mut events: Vec<Event> = Vec::new();
    while items.len() > 0
        invariant
            w == obj@,
            n == w.len(),
            items@.len() <= n,
            items@ == w.subrange(n - items@.len(), n as int),
            forall|i: int| 0 <= i < n - items@.len() ==> wire_event_decodes(#[trigger] w[i]),
            events_view(events@) == wire_events_view(w.subrange(0, n - items@.len())),
        decreases items@.len(),
    {
        let ghost done = n - items@.len();
        let e = items.remove(0);
        assert(e == w[done]);
        let event = match Event::try_from(e) {
            Ok(ev) => ev,
            Err(err) => {
                assert(!wire_event_decodes(w[done]));
                assert(!(forall|i: int| 0 <= i < w.len() ==> wire_event_decodes(#[trigger] w[i])));
                return Err(err);
            },
        };
        let ghost prev = events@;
        events.push(event);
        assert(events_view(events@) =~= events_view(prev).push(event@));
        assert(w.subrange(0, done + 1) =~= w.subrange(0, done).push(e));
        assert(events_view(events@) =~= wire_events_view(w.subrange(0, done + 1)));
        assert(items@ =~= w.subrange(n - items@.len(), n as int));
    }
    assert(w.subrange(0, n as int) =~= w);
    Ok(events)
}

impl Command {
    /// Decodes a command from its wire form.
    pub fn try_from(value: wire::Command) -> (r: Result<Command, ExchangeError>)
        ensures
            r is Ok <==> wire_command_decodes(value),
            r is Err ==> r->Err_0 == wire_command_error(value),
            r is Ok ==> decoded_as(value, r->Ok_0),
    {
        let kind = match value.command {
            Some(k) => k,
            None => return Err(ExchangeError::CommandNotProvided),
        };
        match kind {
            wire::CommandKind::AddQueue(obj) => Ok(Command::AddQueue { name: obj.name }),
            wire::CommandKind::AddEvent(obj) => {
                let e = match obj.event {
                    Some(e) => e,
                    None => return Err(ExchangeError::AddEventRequestMissingEvent),
                };
                let event = match Event::try_from(e) {
                    Ok(ev) => ev,
                    Err(err) => return Err(err),
                };
                Ok(Command::AddEvent { queue_name: obj.queue_name, event })
            },
            wire::CommandKind::AddEvents(obj) => {
                let events = match decode_events(obj.events) {
                    Ok(es) => es,
                    Err(err) => return Err(err),
                };
                Ok(Command::AddEvents { queue_name: obj.queue_name, events })
            },
            wire::CommandKind::UpdateEventStatus(obj) => {
                let s = match obj.status {
                    Some(s) => s,
                    None => return Err(ExchangeError::UpdateEventStatusMissingStatus),
                };
                let status = match EventStatus::try_from(s) {
                    Ok(st) => st,
                    Err(err) => return Err(err),
                };
                Ok(
                    Command::UpdateEventStatus {
                        queue_name: obj.queue_name,
                        event_id: obj.event_id,
                        status,
                    },
                )
            },
            wire::CommandKind::CreateTransaction(obj) => Ok(
                Command::CreateTransaction { queue_name: obj.queue_name, event_id: obj.event_id },
            ),
        }
    }
}

/// A trigger with the commands that run, in order, when it fires.
#[derive(Debug)]
pub struct CommandTrigger {
    trigger: Trigger,
    commands: Vec<Command>,
}

pub struct CommandTriggerView {
    pub trigger: Trigger,
    pub commands: Seq<Command>,
}

impl View for CommandTrigger {
    type V = CommandTriggerView;

    closed spec fn view(&self) -> CommandTriggerView {
        CommandTriggerView { trigger: self.trigger, commands: self.commands@ }
    }
}

pub open spec fn triggers_view(ts: Seq<CommandTrigger>) -> Seq<CommandTriggerView> {
    ts.map_values(|t: CommandTrigger| t@)
}

impl CommandTrigger {
    pub fn triggered_by_event_status_change(&self, event_status: EventStatus) -> (r: bool)
        ensures
            r == fires(self@.trigger, event_status),
    {
        match self.trigger {
            Trigger::OnEventComplete(_) => event_status == EventStatus::Complete,
            Trigger::OnEventError(_) => event_status == EventStatus::Errored,
            Trigger::OnEventMissedHeartbeat(_) => event_status == EventStatus::MissedHeartbeat,
            Trigger::OnEventTimedout(_) => event_status == EventStatus::Timedout,
        }
    }

    pub fn get_commands(&self) -> (r: &Vec<Command>)
        ensures
            r@ == self@.commands,
    {
        &self.commands
    }

    pub fn trigger(&self) -> (r: Trigger)
        ensures
            r == self@.trigger,
    {
        self.trigger
    }

    /// Gives up the commands, in order.
    pub fn into_commands(self) -> (r: Vec<Command>)
        ensures
            r@ == self@.commands,
    {
        self.commands
    }
}

pub struct TransactionView {
    pub id: u64,
    pub event_id: u64,
    pub triggers: Seq<CommandTriggerView>,
    pub last_heartbeat: Option<i64>,
}

/// `ts` holds an entry for trigger `t`.
pub open spec fn has_trigger(ts: Seq<CommandTriggerView>, t: Trigger) -> bool {
    exists|i: int| 0 <= i < ts.len() && (#[trigger] ts[i]).trigger == t
}

/// Where the entry for `t` stands, when there is one.
pub open spec fn trigger_index(ts: Seq<CommandTriggerView>, t: Trigger) -> int {
    choose|i: int| 0 <= i < ts.len() && (#[trigger] ts[i]).trigger == t
}

/// Registering `command` under `trigger`: appended to the entry for that
/// trigger if there is one, else a new entry with that one command.
pub open spec fn with_command(
    ts: Seq<CommandTriggerView>,
    trigger: Trigger,
    command: Command,
) -> Seq<CommandTriggerView> {
    if has_trigger(ts, trigger) {
        let i = trigger_index(ts, trigger);
        ts.update(i, CommandTriggerView { trigger, commands: ts[i].commands.push(command) })
    } else {
        ts.push(CommandTriggerView { trigger, commands: seq![command] })
    }
}

impl TransactionView {
    /// No trigger has two entries, and no entry is empty.
    pub open spec fn wf(self) -> bool {
        &&& forall|i: int, j: int|
            0 <= i < self.triggers.len() && 0 <= j < self.triggers.len() && i != j
                ==> (#[trigger] self.triggers[i]).trigger != (#[trigger] self.triggers[j]).trigger
        &&& forall|i: int|
            0 <= i < self.triggers.len() ==> (#[trigger] self.triggers[i]).commands.len() > 0
    }

    /// A transaction is armed when it has something that may fire.
    pub open spec fn armed(self) -> bool {
        self.triggers.len() > 0
    }
}

proof fn lemma_with_command_wf(t: TransactionView, trigger: Trigger, command: Command)
    requires
        t.wf(),
    ensures
        (TransactionView { triggers: with_command(t.triggers, trigger, command), ..t }).wf(),
{
    let ts = t.triggers;
    let u = with_command(ts, trigger, command);
    if has_trigger(ts, trigger) {
        assert forall|k: int| 0 <= k < ts.len() implies (#[trigger] u[k]).trigger == ts[k].trigger
            && u[k].commands.len() > 0 by {}
    } else {
        assert forall|k: int| 0 <= k < ts.len() implies (#[trigger] u[k]).trigger == ts[k].trigger
            by {}
        assert forall|k: int| 0 <= k < ts.len() implies ts[k].trigger != trigger by {
            if ts[k].trigger == trigger {
                assert(has_trigger(ts, trigger));
            }
        }
    }
}

/// Registering two commands under one trigger keeps a single entry for that
/// trigger, whose commands gain both, in order of registration.
pub proof fn lemma_same_trigger_merges(
    t: TransactionView,
    trigger: Trigger,
    first: Command,
    second: Command,
)
    requires
        t.wf(),
    ensures
        ({
            let once = with_command(t.triggers, trigger, first);
            let twice = with_command(once, trigger, second);
            let before = if has_trigger(t.triggers, trigger) {
                t.triggers[trigger_index(t.triggers, trigger)].commands
            } else {
                Seq::<Command>::empty()
            };
            &&& twice.len() == once.len()
            &&& once.len() == t.triggers.len() + if has_trigger(t.triggers, trigger) {
                0int
            } else {
                1int
            }
            &&& has_trigger(twice, trigger)
            &&& forall|i: int, j: int|
                0 <= i < twice.len() && 0 <= j < twice.len() && (#[trigger] twice[i]).trigger
                    == trigger && (#[trigger] twice[j]).trigger == trigger ==> i == j
            &&& twice[trigger_index(twice, trigger)].commands == before.push(first).push(second)
        }),
{
    let ts = t.triggers;
    let once = with_command(ts, trigger, first);
    lemma_with_command_wf(t, trigger, first);
    let t1 = TransactionView { triggers: once, ..t };
    lemma_with_command_wf(t1, trigger, second);
    let twice = with_command(once, trigger, second);
    let i = if has_trigger(ts, trigger) {
        trigger_index(ts, trigger)
    } else {
        ts.len() as int
    };
    assert(once[i].trigger == trigger);
    if !has_trigger(ts, trigger) {
        assert(seq![first] =~= Seq::<Command>::empty().push(first));
    }
    assert(has_trigger(once, trigger));
    let k = trigger_index(once, trigger);
    assert(k == i);
    assert(twice[i].trigger == trigger);
    assert(has_trigger(twice, trigger));
    let m = trigger_index(twice, trigger);
    assert(m == i);
}

/// The follow-up behaviour bound to one event.
#[derive(Debug)]
pub struct Transaction {
    id: u64,
    event_id: u64,
    command_triggers: Vec<CommandTrigger>,
    last_heartbeat_time: Option<i64>,
}

impl View for Transaction {
    type V = TransactionView;

    closed spec fn view(&self) -> TransactionView {
        TransactionView {
            id: self.id,
            event_id: self.event_id,
            triggers: triggers_view(self.command_triggers@),
            last_heartbeat: self.last_heartbeat_time,
        }
    }
}

/// Relies on chrono's `From<SystemTime> for DateTime<Utc>` and
/// `DateTime::timestamp_millis`: the system clock in milliseconds since the
/// Unix epoch, negative for a clock that reads before it. Nothing is promised
/// of the value. The conversion fails only for a clock more than about 262,000
/// years from the epoch.
#[verifier::external_body]
fn now_millis() -> (r: i64) {
    chrono::DateTime::<chrono::Utc>::from(std::time::SystemTime::now()).timestamp_millis()
}

impl Transaction {
    pub fn new(id: u64, event_id: u64) -> (r: Transaction)
        ensures
            r@ == (TransactionView { id, event_id, triggers: seq![], last_heartbeat: None }),
    {
        let r = Transaction {
            id,
            event_id,
            command_triggers: Vec::new(),
            last_heartbeat_time: None,
        };
        assert(r@.triggers =~= seq![]);
        r
    }

    pub fn add_command_trigger(&mut self, trigger: Trigger, command: Command)
        requires
            old(self)@.wf(),
        ensures
            final(self)@.wf(),
            final(self)@ == (TransactionView {
                triggers: with_command(old(self)@.triggers, trigger, command),
                ..old(self)@
            }),
    {
        let ghost ts = old(self)@.triggers;
        let mut i: usize = 0;
        while i < self.command_triggers.len()
            invariant
                i <= self.command_triggers@.len(),
                *self == *old(self),
                old(self)@.wf(),
                ts == triggers_view(self.command_triggers@),
                forall|k: int| 0 <= k < i ==> (#[trigger] ts[k]).trigger != trigger,
            decreases self.command_triggers@.len() - i,
        {
            assert(ts[i as int] == self.command_triggers@[i as int]@);
            if self.command_triggers[i].trigger == trigger {
                assert(has_trigger(ts, trigger));
                let ghost j = trigger_index(ts, trigger);
                assert(ts[j].trigger == trigger);
                assert(ts[i as int].trigger == trigger);
                assert(j == i);
                let mut entry = self.command_triggers.remove(i);
                entry.commands.push(command);
                self.command_triggers.insert(i, entry);
                assert(self@.triggers =~= with_command(ts, trigger, command));
                assert forall|k: int| 0 <= k < ts.len() implies (#[trigger] self@.triggers[k]).trigger
                    == ts[k].trigger && self@.triggers[k].commands.len() > 0 by {}
                return;
            }
            i = i + 1;
        }
        assert(!has_trigger(ts, trigger));
        let entry = CommandTrigger { trigger, commands: vec![command] };
        assert(entry@.commands =~= seq![command]);
        self.command_triggers.push(entry);
        assert(self@.triggers =~= with_command(ts, trigger, command));
    }

    /// Records the current time as the last heartbeat.
    pub fn update_heartbeat(&mut self)
        ensures
            final(self)@.last_heartbeat is Some,
            final(self)@ == (TransactionView {
                last_heartbeat: final(self)@.last_heartbeat,
                ..old(self)@
            }),
    {
        let now = now_millis();
        self.record_heartbeat(now);
    }

    /// Records `at_millis` as the last heartbeat.
    pub fn record_heartbeat(&mut self, at_millis: i64)
        ensures
            final(self)@ == (TransactionView { last_heartbeat: Some(at_millis), ..old(self)@ }),
    {
        self.last_heartbeat_time = Some(at_millis);
    }

    pub fn get_command_triggers(&self) -> (r: &Vec<CommandTrigger>)
        ensures
            triggers_view(r@) == self@.triggers,
    {
        &self.command_triggers
    }

    /// Gives up the command triggers, in registration order.
    pub fn into_command_triggers(self) -> (r: Vec<CommandTrigger>)
        ensures
            triggers_view(r@) == self@.triggers,
    {
        self.command_triggers
    }

    pub fn id(&self) -> (r: u64)
        ensures
            r == self@.id,
    {
        self.id
    }

    pub fn last_heartbeat(&self) -> (r: Option<i64>)
        ensures
            r == self@.last_heartbeat,
    {
        self.last_heartbeat_time
    }

    pub fn event_id(&self) -> (r: u64)
        ensures
            r == self@.event_id,
    {
        self.event_id
    }
}

} // verus!
