//! The exchange: owner of all queues and interpreter of commands.
//!
//! A status update that takes an event out of its queue also takes out the
//! event's transaction, and runs the commands of its triggers (the cascade)
//! before the update returns.

use vstd::prelude::*;

use crate::event::{is_terminal_status, Event, EventStatus, EventView};
use crate::queue::{Queue, QueueView};
use crate::transaction::{
    decoded_as, events_view, fires, triggers_view, wire_command_decodes, wire_command_error,
    wire_resp_of, Command, CommandResp, CommandRespView, CommandTrigger, CommandTriggerView,
    Trigger,
};
use crate::wire;

verus! {

/// Why a command, or the decoding of one, failed.
#[derive(Debug, Clone, PartialEq, Eq)]
pub enum ExchangeError {
    QueueAlreadyExistsForName(String),
    TransactionNotFound(u64),
    QueueNotFound(String),
    /// The queue has no event ids left to hand out.
    EventIdsExhausted(String),
    LockError,
    AddEventRequestMissingEvent,
    UpdateEventStatusMissingStatus,
    StatusNotProvided,
    CommandNotProvided,
}

/// The outcome of one command: the new queues and the reply or the error.
pub type Outcome = (Seq<QueueView>, Result<CommandRespView, ExchangeError>);

/// The outcome of a run of cascaded commands.
pub type CascadeOutcome = (Seq<QueueView>, Result<(), ExchangeError>);

pub open spec fn names_unique(qs: Seq<QueueView>) -> bool {
    forall|i: int, j: int|
        0 <= i < qs.len() && 0 <= j < qs.len() && i != j ==> (#[trigger] qs[i]).name != (
        #[trigger] qs[j]).name
}

/// Queue names are unique and every queue is well formed.
pub open spec fn queues_wf(qs: Seq<QueueView>) -> bool {
    &&& names_unique(qs)
    &&& forall|i: int| 0 <= i < qs.len() ==> (#[trigger] qs[i]).wf()
}

pub open spec fn has_queue(qs: Seq<QueueView>, name: Seq<char>) -> bool {
    exists|i: int| 0 <= i < qs.len() && (#[trigger] qs[i]).name == name
}

/// Where the queue named `name` stands, when there is one.
pub open spec fn queue_index(qs: Seq<QueueView>, name: Seq<char>) -> int {
    choose|i: int| 0 <= i < qs.len() && (#[trigger] qs[i]).name == name
}

/// How many transactions, over all queues, have something that may fire.
/// A cascade takes one of them out before it runs anything, and no command
/// adds one, so cascades nest at most this deep.
pub open spec fn total_armed(qs: Seq<QueueView>) -> nat
    decreases qs.len(),
{
    if qs.len() == 0 {
        0
    } else {
        total_armed(qs.drop_last()) + qs.last().armed_count()
    }
}

/// The reply ids of `n` events taken in from id `first` on.
pub open spec fn id_range(first: u64, n: nat) -> Seq<u64> {
    Seq::new(n, |k: int| (first + k) as u64)
}

/// One command on the queues `qs`, with cascades nested at most `fuel` deep.
pub open spec fn step(fuel: nat, qs: Seq<QueueView>, c: Command) -> Outcome
    decreases fuel, 2nat, 0nat,
{
    match c {
        Command::AddQueue { name } => if has_queue(qs, name@) {
            (qs, Err(ExchangeError::QueueAlreadyExistsForName(name)))
        } else {
            (qs.push(QueueView::empty(name@)), Ok(CommandRespView::AddQueue))
        },
        Command::AddEvent { queue_name, event } => if !has_queue(qs, queue_name@) {
            (qs, Err(ExchangeError::QueueNotFound(queue_name)))
        } else {
            let i = queue_index(qs, queue_name@);
            let q = qs[i];
            if q.next_event_id == u64::MAX {
                (qs, Err(ExchangeError::EventIdsExhausted(queue_name)))
            } else {
                (qs.update(i, q.with_event(event@)), Ok(CommandRespView::AddEvent { id: q.next_event_id }))
            }
        },
        Command::AddEvents { queue_name, events } => if !has_queue(qs, queue_name@) {
            (qs, Err(ExchangeError::QueueNotFound(queue_name)))
        } else {
            let i = queue_index(qs, queue_name@);
            let q = qs[i];
            if events@.len() > u64::MAX - q.next_event_id {
                (qs, Err(ExchangeError::EventIdsExhausted(queue_name)))
            } else {
                (
                    qs.update(i, q.with_events(events_view(events@))),
                    Ok(CommandRespView::AddEvents { ids: id_range(q.next_event_id, events@.len()) }),
                )
            }
        },
        Command::UpdateEventStatus { queue_name, event_id, status } => if !has_queue(
            qs,
            queue_name@,
        ) {
            (qs, Err(ExchangeError::QueueNotFound(queue_name)))
        } else {
            let i = queue_index(qs, queue_name@);
            let q = qs[i];
            let q1 = q.with_status(event_id, status);
            if q.events.contains_key(event_id) && is_terminal_status(status)
                && q.transactions.contains_key(event_id) {
                let t = q.transactions[event_id];
                let c = cascade(fuel, qs.update(i, q1.without_transaction(event_id)), t.triggers, status);
                (
                    c.0,
                    match c.1 {
                        Ok(_) => Ok(CommandRespView::UpdateEventStatus),
                        Err(e) => Err(e),
                    },
                )
            } else {
                (qs.update(i, q1), Ok(CommandRespView::UpdateEventStatus))
            }
        },
        Command::CreateTransaction { queue_name, event_id } => if !has_queue(qs, queue_name@) {
            (qs, Err(ExchangeError::QueueNotFound(queue_name)))
        } else {
            let i = queue_index(qs, queue_name@);
            let q = qs[i];
            (
                qs.update(i, q.with_transaction(event_id)),
                Ok(CommandRespView::CreateTransaction { id: q.next_transaction_id }),
            )
        },
    }
}

/// The triggers of a removed transaction, in registration order, after a
/// change to `status`. Processing stops at the first trigger that does not
/// fire, and at the first command that fails.
pub open spec fn cascade(
    fuel: nat,
    qs: Seq<QueueView>,
    ts: Seq<CommandTriggerView>,
    status: EventStatus,
) -> CascadeOutcome
    decreases fuel, 1nat, ts.len(),
{
    if ts.len() == 0 || !fires(ts[0].trigger, status) {
        (qs, Ok(()))
    } else {
        let c = run_commands(fuel, qs, ts[0].commands);
        if c.1 is Err {
            c
        } else {
            cascade(fuel, c.0, ts.drop_first(), status)
        }
    }
}

/// The commands of one trigger, in order, each run as a command of its own.
pub open spec fn run_commands(fuel: nat, qs: Seq<QueueView>, cs: Seq<Command>) -> CascadeOutcome
    decreases fuel, 0nat, cs.len(),
{
    if cs.len() == 0 || fuel == 0 {
        (qs, Ok(()))
    } else {
        let s = step((fuel - 1) as nat, qs, cs[0]);
        match s.1 {
            Err(e) => (s.0, Err(e)),
            Ok(_) => run_commands(fuel, s.0, cs.drop_first()),
        }
    }
}

/// What running `rest` after a run of commands that ended in `c` comes to.
pub open spec fn then_cascade(
    fuel: nat,
    c: CascadeOutcome,
    rest: Seq<CommandTriggerView>,
    status: EventStatus,
) -> CascadeOutcome {
    if c.1 is Err {
        c
    } else {
        cascade(fuel, c.0, rest, status)
    }
}

/// The outcome of executing `c` on the queues `qs`. The fuel is never used
/// up: see `total_armed`.
pub open spec fn execute_spec(qs: Seq<QueueView>, c: Command) -> Outcome {
    step(total_armed(qs) + 1, qs, c)
}

pub open spec fn resp_view(r: Result<CommandResp, ExchangeError>) -> Result<
    CommandRespView,
    ExchangeError,
> {
    match r {
        Ok(v) => Ok(v@),
        Err(e) => Err(e),
    }
}

/// `w` is the wire form of the reply `v`.
pub open spec fn encodes(w: wire::CommandResp, v: CommandRespView) -> bool {
    match w.command_resp {
        Some(wire::CommandRespKind::AddQueueResp) => v == CommandRespView::AddQueue,
        Some(wire::CommandRespKind::AddEventResp(o)) => v == CommandRespView::AddEvent { id: o.id },
        Some(wire::CommandRespKind::AddEventsResp(o)) => v == CommandRespView::AddEvents {
            ids: o.ids@,
        },
        Some(wire::CommandRespKind::UpdateEventStatusResp) => v
            == CommandRespView::UpdateEventStatus,
        Some(wire::CommandRespKind::CreateTransactionResp(o)) => v
            == CommandRespView::CreateTransaction { id: o.id },
        None => false,
    }
}

/// The reply `w` carries the outcome `o`: the encoded reply or the error.
pub open spec fn replies(
    o: Result<CommandRespView, ExchangeError>,
    w: Result<wire::CommandResp, ExchangeError>,
) -> bool {
    match o {
        Ok(v) => w is Ok && encodes(w->Ok_0, v),
        Err(e) => w == Err::<wire::CommandResp, ExchangeError>(e),
    }
}

proof fn lemma_encodes(v: CommandResp)
    ensures
        encodes(wire_resp_of(v), v@),
{
}

proof fn lemma_total_armed_update(qs: Seq<QueueView>, i: int, q: QueueView)
    requires
        0 <= i < qs.len(),
    ensures
        total_armed(qs.update(i, q)) + qs[i].armed_count() == total_armed(qs) + q.armed_count(),
    decreases qs.len(),
{
    let u = qs.update(i, q);
    if i == qs.len() - 1 {
        assert(u.drop_last() =~= qs.drop_last());
    } else {
        assert(u.drop_last() =~= qs.drop_last().update(i, q));
        lemma_total_armed_update(qs.drop_last(), i, q);
    }
}

proof fn lemma_total_armed_push(qs: Seq<QueueView>, q: QueueView)
    ensures
        total_armed(qs.push(q)) == total_armed(qs) + q.armed_count(),
{
    assert(qs.push(q).drop_last() =~= qs);
}

proof fn lemma_update_wf(qs: Seq<QueueView>, i: int, q: QueueView)
    requires
        queues_wf(qs),
        0 <= i < qs.len(),
        q.wf(),
        q.name == qs[i].name,
    ensures
        queues_wf(qs.update(i, q)),
{
    let u = qs.update(i, q);
    assert forall|a: int, b: int| 0 <= a < u.len() && 0 <= b < u.len() && a != b implies (
    #[trigger] u[a]).name != (#[trigger] u[b]).name by {
        assert(qs[a].name != qs[b].name);
    }
}

proof fn lemma_queue_index(qs: Seq<QueueView>, name: Seq<char>, i: int)
    requires
        names_unique(qs),
        0 <= i < qs.len(),
        qs[i].name == name,
    ensures
        has_queue(qs, name),
        queue_index(qs, name) == i,
{
    assert(has_queue(qs, name));
    let j = queue_index(qs, name);
    assert(qs[j].name == name);
}

/// Taking in events in order: each gets the next id, the events already
/// there stay, and the transactions and the name are untouched.
pub proof fn lemma_with_events(q: QueueView, es: Seq<EventView>)
    requires
        q.wf(),
        q.next_event_id + es.len() <= u64::MAX,
    ensures
        q.with_events(es).wf(),
        q.with_events(es).name == q.name,
        q.with_events(es).transactions == q.transactions,
        q.with_events(es).next_transaction_id == q.next_transaction_id,
        q.with_events(es).next_event_id == q.next_event_id + es.len(),
        forall|k: int|
            0 <= k < es.len() ==> #[trigger] q.with_events(es).events[(q.next_event_id + k) as u64]
                == (EventView { id: (q.next_event_id + k) as u64, ..es[k] })
                && q.with_events(es).events.contains_key((q.next_event_id + k) as u64),
        forall|id: u64| #[trigger]
            q.events.contains_key(id) ==> q.with_events(es).events.contains_key(id)
                && q.with_events(es).events[id] == q.events[id],
        forall|id: u64| #[trigger]
            q.with_events(es).events.contains_key(id) ==> q.events.contains_key(id) || id
                >= q.next_event_id,
    decreases es.len(),
{
    if es.len() > 0 {
        lemma_with_events(q, es.drop_last());
        assert forall|k: int| 0 <= k < es.len() implies #[trigger] q.with_events(es).events[(
        q.next_event_id + k) as u64] == (EventView { id: (q.next_event_id + k) as u64, ..es[k] })
            && q.with_events(es).events.contains_key((q.next_event_id + k) as u64) by {
            if k < es.len() - 1 {
                assert(es.drop_last()[k] == es[k]);
            }
        }
    }
}

proof fn lemma_with_events_armed(q: QueueView, es: Seq<EventView>)
    requires
        q.wf(),
        q.next_event_id + es.len() <= u64::MAX,
    ensures
        q.with_events(es).armed_count() == q.armed_count(),
{
    lemma_with_events(q, es);
    assert(q.with_events(es).armed_events() =~= q.armed_events());
}

/// `t` grew out of `s`: the queues of `s` are still there, in place and under
/// their names, their next event ids have not gone down, and an id below the
/// next event id that was not active has not become active again.
pub open spec fn evolves(s: Seq<QueueView>, t: Seq<QueueView>) -> bool {
    &&& s.len() <= t.len()
    &&& forall|i: int|
        #![trigger t[i]]
        0 <= i < s.len() ==> {
            &&& t[i].name == s[i].name
            &&& t[i].next_event_id >= s[i].next_event_id
            &&& forall|k: u64|
                k < s[i].next_event_id && !s[i].events.contains_key(k)
                    ==> !(#[trigger] t[i].events.contains_key(k))
        }
}

proof fn lemma_evolves_trans(a: Seq<QueueView>, b: Seq<QueueView>, c: Seq<QueueView>)
    requires
        evolves(a, b),
        evolves(b, c),
    ensures
        evolves(a, c),
{
    assert forall|i: int| 0 <= i < a.len() implies {
        &&& (#[trigger] c[i]).name == a[i].name
        &&& c[i].next_event_id >= a[i].next_event_id
        &&& forall|k: u64|
            k < a[i].next_event_id && !a[i].events.contains_key(k)
                ==> !(#[trigger] c[i].events.contains_key(k))
    } by {
        assert(b[i].name == a[i].name);
        assert(c[i].name == b[i].name);
    }
}

proof fn lemma_update_evolves(qs: Seq<QueueView>, i: int, q: QueueView)
    requires
        0 <= i < qs.len(),
        q.name == qs[i].name,
        q.next_event_id >= qs[i].next_event_id,
        forall|k: u64|
            k < qs[i].next_event_id && !qs[i].events.contains_key(k)
                ==> !(#[trigger] q.events.contains_key(k)),
    ensures
        evolves(qs, qs.update(i, q)),
{
}

proof fn lemma_step_evolves(fuel: nat, qs: Seq<QueueView>, c: Command)
    requires
        queues_wf(qs),
    ensures
        queues_wf(step(fuel, qs, c).0),
        evolves(qs, step(fuel, qs, c).0),
    decreases fuel, 2nat, 0nat,
{
    match c {
        Command::AddQueue { name } => {
            if !has_queue(qs, name@) {
                lemma_push_wf(qs, name@);
            }
        },
        Command::AddEvent { queue_name, event } => {
            if has_queue(qs, queue_name@) {
                let i = queue_index(qs, queue_name@);
                let q = qs[i];
                if q.next_event_id < u64::MAX {
                    lemma_with_events(q, seq![event@]);
                    assert(seq![event@].drop_last() =~= Seq::<EventView>::empty());
                    lemma_update_wf(qs, i, q.with_event(event@));
                    lemma_update_evolves(qs, i, q.with_event(event@));
                }
            }
        },
        Command::AddEvents { queue_name, events } => {
            if has_queue(qs, queue_name@) {
                let i = queue_index(qs, queue_name@);
                let q = qs[i];
                let es = events_view(events@);
                if events@.len() <= u64::MAX - q.next_event_id {
                    lemma_with_events(q, es);
                    lemma_update_wf(qs, i, q.with_events(es));
                    lemma_update_evolves(qs, i, q.with_events(es));
                }
            }
        },
        Command::UpdateEventStatus { queue_name, event_id, status } => {
            if has_queue(qs, queue_name@) {
                let i = queue_index(qs, queue_name@);
                let q = qs[i];
                let q1 = q.with_status(event_id, status);
                lemma_update_wf(qs, i, q1);
                lemma_update_evolves(qs, i, q1);
                if q.events.contains_key(event_id) && is_terminal_status(status)
                    && q.transactions.contains_key(event_id) {
                    let q2 = q1.without_transaction(event_id);
                    let s1 = qs.update(i, q2);
                    lemma_update_wf(qs, i, q2);
                    lemma_update_evolves(qs, i, q2);
                    lemma_cascade_evolves(fuel, s1, q.transactions[event_id].triggers, status);
                    lemma_evolves_trans(qs, s1, cascade(fuel, s1, q.transactions[event_id].triggers, status).0);
                }
            }
        },
        Command::CreateTransaction { queue_name, event_id } => {
            if has_queue(qs, queue_name@) {
                let i = queue_index(qs, queue_name@);
                let q = qs[i];
                lemma_update_wf(qs, i, q.with_transaction(event_id));
                lemma_update_evolves(qs, i, q.with_transaction(event_id));
            }
        },
    }
}

proof fn lemma_cascade_evolves(
    fuel: nat,
    qs: Seq<QueueView>,
    ts: Seq<CommandTriggerView>,
    status: EventStatus,
)
    requires
        queues_wf(qs),
    ensures
        queues_wf(cascade(fuel, qs, ts, status).0),
        evolves(qs, cascade(fuel, qs, ts, status).0),
    decreases fuel, 1nat, ts.len(),
{
    if ts.len() > 0 && fires(ts[0].trigger, status) {
        let c = run_commands(fuel, qs, ts[0].commands);
        lemma_run_evolves(fuel, qs, ts[0].commands);
        if c.1 is Ok {
            lemma_cascade_evolves(fuel, c.0, ts.drop_first(), status);
            lemma_evolves_trans(qs, c.0, cascade(fuel, c.0, ts.drop_first(), status).0);
        }
    }
}

proof fn lemma_run_evolves(fuel: nat, qs: Seq<QueueView>, cs: Seq<Command>)
    requires
        queues_wf(qs),
    ensures
        queues_wf(run_commands(fuel, qs, cs).0),
        evolves(qs, run_commands(fuel, qs, cs).0),
    decreases fuel, 0nat, cs.len(),
{
    if cs.len() > 0 && fuel > 0 {
        let s = step((fuel - 1) as nat, qs, cs[0]);
        lemma_step_evolves((fuel - 1) as nat, qs, cs[0]);
        if s.1 is Ok {
            lemma_run_evolves(fuel, s.0, cs.drop_first());
            lemma_evolves_trans(qs, s.0, run_commands(fuel, s.0, cs.drop_first()).0);
        }
    }
}

proof fn lemma_push_wf(qs: Seq<QueueView>, name: Seq<char>)
    requires
        queues_wf(qs),
        !has_queue(qs, name),
    ensures
        queues_wf(qs.push(QueueView::empty(name))),
{
    let u = qs.push(QueueView::empty(name));
    assert forall|i: int, j: int|
        0 <= i < u.len() && 0 <= j < u.len() && i != j implies (#[trigger] u[i]).name != (
    #[trigger] u[j]).name by {
        if i == qs.len() {
            assert(qs[j].name != name);
        } else if j == qs.len() {
            assert(qs[i].name != name);
        }
    }
}

/// Adding a queue under a name that is taken fails with
/// `QueueAlreadyExistsForName` and leaves the queues as they were; in
/// particular, adding the same name twice fails the second time.
pub proof fn lemma_add_queue_twice(qs: Seq<QueueView>, name: String)
    requires
        queues_wf(qs),
    ensures
        ({
            let first = execute_spec(qs, Command::AddQueue { name });
            let second = execute_spec(first.0, Command::AddQueue { name });
            &&& has_queue(first.0, name@)
            &&& second.0 == first.0
            &&& second.1 == Err::<CommandRespView, ExchangeError>(
                ExchangeError::QueueAlreadyExistsForName(name),
            )
        }),
{
    if !has_queue(qs, name@) {
        let u = qs.push(QueueView::empty(name@));
        assert(u[qs.len() as int].name == name@);
    }
}

/// A fresh queue that takes in events one after the other hands out ids 0, 1,
/// 2, ... in that order, whatever ids the events carried: the event taken in
/// k-th (from 0) gets id k, which is the reply to its `AddEvent`, and is stored
/// under it.
pub proof fn lemma_event_ids_sequential(name: Seq<char>, es: Seq<EventView>)
    requires
        es.len() <= u64::MAX,
    ensures
        forall|k: int|
            0 <= k < es.len() ==> #[trigger] QueueView::empty(name).with_events(
                es.take(k),
            ).next_event_id == k,
        forall|k: int|
            0 <= k < es.len() ==> QueueView::empty(name).with_events(es).events.contains_key(
                k as u64,
            ) && #[trigger] QueueView::empty(name).with_events(es).events[k as u64] == (EventView {
                id: k as u64,
                ..es[k]
            }),
        QueueView::empty(name).with_events(es).next_event_id == es.len(),
{
    let q = QueueView::empty(name);
    assert(q.events.dom() =~= Set::empty());
    assert(q.transactions.dom() =~= Set::empty());
    lemma_with_events(q, es);
    assert forall|k: int| 0 <= k < es.len() implies #[trigger] q.with_events(
        es.take(k),
    ).next_event_id == k by {
        lemma_with_events(q, es.take(k));
    }
    assert forall|k: int| 0 <= k < es.len() implies q.with_events(es).events.contains_key(k as u64)
        && #[trigger] q.with_events(es).events[k as u64] == (EventView { id: k as u64, ..es[k] }) by {
        assert((q.next_event_id + k) as u64 == k as u64);
        assert(q.with_events(es).events[(q.next_event_id + k) as u64] == (EventView {
            id: (q.next_event_id + k) as u64,
            ..es[k]
        }));
    }
}

/// `AddEvent` on a known queue with ids left replies with the queue's next id,
/// whatever id the event carried, and stores the event under that id; the id
/// was not active before, and the next id moves past it. After `k` earlier
/// additions to a fresh queue, that id is `k` (see `lemma_event_ids_sequential`).
pub proof fn lemma_add_event_id(qs: Seq<QueueView>, queue_name: String, event: Event)
    requires
        queues_wf(qs),
        has_queue(qs, queue_name@),
        qs[queue_index(qs, queue_name@)].next_event_id < u64::MAX,
    ensures
        ({
            let i = queue_index(qs, queue_name@);
            let id = qs[i].next_event_id;
            let r = execute_spec(qs, Command::AddEvent { queue_name, event });
            &&& r.1 == Ok::<CommandRespView, ExchangeError>(CommandRespView::AddEvent { id })
            &&& !qs[i].events.contains_key(id)
            &&& has_queue(r.0, queue_name@)
            &&& queue_index(r.0, queue_name@) == i
            &&& r.0[i].events.contains_key(id)
            &&& r.0[i].events[id] == (EventView { id, ..event@ })
            &&& r.0[i].next_event_id == id + 1
        }),
{
    let i = queue_index(qs, queue_name@);
    let c = Command::AddEvent { queue_name, event };
    lemma_step_evolves(total_armed(qs) + 1, qs, c);
    let r = execute_spec(qs, c);
    assert(r.0[i].name == queue_name@);
    lemma_queue_index(r.0, queue_name@, i);
}

/// A status update that names an unknown queue fails with `QueueNotFound`;
/// one that names a known queue but an unknown event succeeds. Neither
/// changes anything.
pub proof fn lemma_update_unknown(
    qs: Seq<QueueView>,
    queue_name: String,
    event_id: u64,
    status: EventStatus,
)
    requires
        queues_wf(qs),
    ensures
        ({
            let r = execute_spec(qs, Command::UpdateEventStatus { queue_name, event_id, status });
            &&& !has_queue(qs, queue_name@) ==> r == (
                qs,
                Err::<CommandRespView, ExchangeError>(ExchangeError::QueueNotFound(queue_name)),
            )
            &&& has_queue(qs, queue_name@) && !qs[queue_index(
                qs,
                queue_name@,
            )].events.contains_key(event_id) ==> r == (
                qs,
                Ok::<CommandRespView, ExchangeError>(CommandRespView::UpdateEventStatus),
            )
        }),
{
    if has_queue(qs, queue_name@) {
        let i = queue_index(qs, queue_name@);
        assert(qs.update(i, qs[i]) =~= qs);
    }
}

/// A terminal status update on an active event takes it out of its queue:
/// afterwards the queue is still there and the event is not active, and a
/// second update of the same id changes nothing and succeeds.
pub proof fn lemma_terminal_update_removes(
    qs: Seq<QueueView>,
    queue_name: String,
    event_id: u64,
    status: EventStatus,
    again: EventStatus,
)
    requires
        queues_wf(qs),
        has_queue(qs, queue_name@),
        qs[queue_index(qs, queue_name@)].events.contains_key(event_id),
        is_terminal_status(status),
    ensures
        ({
            let first = execute_spec(
                qs,
                Command::UpdateEventStatus { queue_name, event_id, status },
            );
            let second = execute_spec(
                first.0,
                Command::UpdateEventStatus { queue_name, event_id, status: again },
            );
            &&& has_queue(first.0, queue_name@)
            &&& !first.0[queue_index(first.0, queue_name@)].events.contains_key(event_id)
            &&& second == (
                first.0,
                Ok::<CommandRespView, ExchangeError>(CommandRespView::UpdateEventStatus),
            )
        }),
{
    let c = Command::UpdateEventStatus { queue_name, event_id, status };
    let first = execute_spec(qs, c);
    let i = queue_index(qs, queue_name@);
    let q = qs[i];
    let q1 = q.with_status(event_id, status);
    lemma_update_wf(qs, i, q1);
    lemma_step_evolves(total_armed(qs) + 1, qs, c);
    if q.transactions.contains_key(event_id) {
        let s1 = qs.update(i, q1.without_transaction(event_id));
        lemma_update_wf(qs, i, q1.without_transaction(event_id));
        lemma_cascade_evolves(total_armed(qs) + 1, s1, q.transactions[event_id].triggers, status);
        assert(!s1[i].events.contains_key(event_id));
        assert(first.0[i].name == queue_name@);
    } else {
        assert(first.0 == qs.update(i, q1));
    }
    lemma_queue_index(first.0, queue_name@, i);
    lemma_update_unknown(first.0, queue_name, event_id, again);
}

/// The cascade runs before the update returns: when the only trigger of an
/// event's transaction is `OnEventComplete` with the one command of adding
/// `event` to queue `target`, updating that event to `Complete` succeeds, and
/// by then `event` is active in `target` under that queue's next id.
pub proof fn lemma_cascade_adds_event(
    qs: Seq<QueueView>,
    queue_name: String,
    event_id: u64,
    on: u64,
    target: String,
    event: Event,
)
    requires
        queues_wf(qs),
        has_queue(qs, queue_name@),
        has_queue(qs, target@),
        qs[queue_index(qs, queue_name@)].events.contains_key(event_id),
        qs[queue_index(qs, queue_name@)].transactions.contains_key(event_id),
        qs[queue_index(qs, queue_name@)].transactions[event_id].triggers == seq![
            CommandTriggerView {
                trigger: Trigger::OnEventComplete(on),
                commands: seq![Command::AddEvent { queue_name: target, event }],
            },
        ],
        qs[queue_index(qs, target@)].next_event_id < u64::MAX,
    ensures
        ({
            let r = execute_spec(
                qs,
                Command::UpdateEventStatus { queue_name, event_id, status: EventStatus::Complete },
            );
            let j = queue_index(qs, target@);
            let id = qs[j].next_event_id;
            &&& r.1 == Ok::<CommandRespView, ExchangeError>(CommandRespView::UpdateEventStatus)
            &&& has_queue(r.0, target@)
            &&& queue_index(r.0, target@) == j
            &&& r.0[j].events.contains_key(id)
            &&& r.0[j].events[id] == (EventView { id, ..event@ })
        }),
{
    let fuel = total_armed(qs) + 1;
    let i = queue_index(qs, queue_name@);
    let j = queue_index(qs, target@);
    let q = qs[i];
    let q2 = q.with_status(event_id, EventStatus::Complete).without_transaction(event_id);
    let s1 = qs.update(i, q2);
    lemma_update_wf(qs, i, q2);
    let add = Command::AddEvent { queue_name: target, event };
    let ts = q.transactions[event_id].triggers;
    assert(s1[j].name == target@);
    lemma_queue_index(s1, target@, j);
    assert(s1[j].next_event_id == qs[j].next_event_id);
    let s2 = step((fuel - 1) as nat, s1, add);
    assert(s2.0 == s1.update(j, s1[j].with_event(event@)));
    lemma_step_evolves((fuel - 1) as nat, s1, add);
    assert(ts[0].commands.drop_first() =~= Seq::<Command>::empty());
    assert(run_commands(fuel, s2.0, ts[0].commands.drop_first()) == (s2.0, Ok::<(), ExchangeError>(())));
    assert(run_commands(fuel, s1, ts[0].commands) == (s2.0, Ok::<(), ExchangeError>(())));
    assert(ts.drop_first() =~= Seq::<CommandTriggerView>::empty());
    assert(cascade(fuel, s2.0, ts.drop_first(), EventStatus::Complete) == (s2.0, Ok::<(), ExchangeError>(())));
    assert(cascade(fuel, s1, ts, EventStatus::Complete) == (s2.0, Ok::<(), ExchangeError>(())));
    assert(s2.0[j].name == target@);
    lemma_queue_index(s2.0, target@, j);
}

/// The exchange: the queues, in order of creation.
pub struct Exchange {
    queues: Vec<Queue>,
}

impl View for Exchange {
    type V = Seq<QueueView>;

    closed spec fn view(&self) -> Seq<QueueView> {
        self.queues@.map_values(|q: Queue| q@)
    }
}

/// The reply the exchange gives to one request.
pub struct ExchangeResp {
    pub command_resp: Result<wire::CommandResp, ExchangeError>,
}

impl Exchange {
    pub open spec fn wf(&self) -> bool {
        queues_wf(self@)
    }

    pub fn new() -> (r: Exchange)
        ensures
            r@ == Seq::<QueueView>::empty(),
            r.wf(),
    {
        let r = Exchange { queues: Vec::new() };
        assert(r@ =~= Seq::<QueueView>::empty());
        r
    }

    fn find_queue(&self, name: &String) -> (r: Option<usize>)
        requires
            self.wf(),
        ensures
            r is Some <==> has_queue(self@, name@),
            r is Some ==> r->Some_0 < self@.len() && r->Some_0 == queue_index(self@, name@),
    {
        let mut i: usize = 0;
        while i < self.queues.len()
            invariant
                i <= self@.len(),
                self.wf(),
                forall|k: int| 0 <= k < i ==> (#[trigger] self@[k]).name != name@,
            decreases self@.len() - i,
        {
            assert(self@[i as int] == self.queues@[i as int]@);
            if self.queues[i].has_name(name) {
                proof {
                    lemma_queue_index(self@, name@, i as int);
                }
                return Some(i);
            }
            i = i + 1;
        }
        None
    }

    /// Executes one command. A failure aborts only this command (and, in a
    /// cascade, the commands after it).
    pub fn execute_command(&mut self, command: Command) -> (r: Result<CommandResp, ExchangeError>)
        requires
            old(self).wf(),
        ensures
            final(self).wf(),
            (final(self)@, resp_view(r)) == execute_spec(old(self)@, command),
    {
        self.execute(command, Ghost(total_armed(self@) + 1))
    }

    fn execute(&mut self, command: Command, Ghost(fuel): Ghost<nat>) -> (r: Result<
        CommandResp,
        ExchangeError,
    >)
        requires
            old(self).wf(),
            fuel > total_armed(old(self)@),
        ensures
            final(self).wf(),
            (final(self)@, resp_view(r)) == step(fuel, old(self)@, command),
            total_armed(final(self)@) <= total_armed(old(self)@),
        decreases fuel, 3nat,
    {
        let ghost qs = self@;
        match command {
            Command::AddQueue { name } => {
                match self.find_queue(&name) {
                    Some(_) => Err(ExchangeError::QueueAlreadyExistsForName(name)),
                    None => {
                        let queue = Queue::new(name);
                        self.queues.push(queue);
                        assert(self@ =~= qs.push(QueueView::empty(name@)));
                        proof {
                            lemma_total_armed_push(qs, QueueView::empty(name@));
                            assert(QueueView::empty(name@).armed_events() =~= Set::empty());
                            assert forall|i: int, j: int|
                                0 <= i < self@.len() && 0 <= j < self@.len() && i != j implies (
                            #[trigger] self@[i]).name != (#[trigger] self@[j]).name by {
                                if i == qs.len() {
                                    assert(qs[j].name != name@);
                                } else if j == qs.len() {
                                    assert(qs[i].name != name@);
                                }
                            }
                        }
                        Ok(CommandResp::AddQueue {  })
                    },
                }
            },
            Command::AddEvent { queue_name, event } => {
                let i = match self.find_queue(&queue_name) {
                    Some(i) => i,
                    None => return Err(ExchangeError::QueueNotFound(queue_name)),
                };
                assert(qs[i as int] == self.queues@[i as int]@);
                if self.queues[i].next_event_id() == u64::MAX {
                    return Err(ExchangeError::EventIdsExhausted(queue_name));
                }
                let ghost ev = event@;
                let id = self.queues[i].add_event(event);
                proof {
                    let q = qs[i as int];
                    assert(self@ =~= qs.update(i as int, q.with_event(ev)));
                    lemma_total_armed_update(qs, i as int, q.with_event(ev));
                    assert(q.with_event(ev).armed_events() =~= q.armed_events());
                }
                Ok(CommandResp::AddEvent { id })
            },
            Command::AddEvents { queue_name, events } => {
                let i = match self.find_queue(&queue_name) {
                    Some(i) => i,
                    None => return Err(ExchangeError::QueueNotFound(queue_name)),
                };
                assert(qs[i as int] == self.queues@[i as int]@);
                let next = self.queues[i].next_event_id();
                if events.len() as u64 > u64::MAX - next {
                    return Err(ExchangeError::EventIdsExhausted(queue_name));
                }
                let ghost es = events_view(events@);
                let ghost n = events@.len();
                let ghost q = qs[i as int];
                let mut items = events;
                let mut ids: Vec<u64> = Vec::new();
                proof {
                    assert(es.subrange(0, 0) =~= Seq::<EventView>::empty());
                    assert(self@ =~= qs.update(i as int, q.with_events(es.subrange(0, 0))));
                    assert(ids@ =~= id_range(q.next_event_id, 0));
                    assert(events_view(items@) =~= es.subrange(0, n as int));
                }
                while items.len() > 0
                    invariant
                        i < qs.len(),
                        qs.len() == self@.len(),
                        queues_wf(qs),
                        qs[i as int] == q,
                        n == es.len(),
                        q.next_event_id + n <= u64::MAX,
                        items@.len() <= n,
                        events_view(items@) == es.subrange(n - items@.len(), n as int),
                        self@ == qs.update(i as int, q.with_events(es.subrange(0, n - items@.len()))),
                        ids@ == id_range(q.next_event_id, (n - items@.len()) as nat),
                    decreases items@.len(),
                {
                    let ghost done = n - items@.len();
                    let ghost iv = items@;
                    let e = items.remove(0);
                    proof {
                        lemma_with_events(q, es.subrange(0, done));
                        assert(events_view(iv)[0] == e@);
                        assert(es.subrange(done, n as int)[0] == es[done]);
                        assert(items@ =~= iv.drop_first());
                    }
                    let ghost pre = q.with_events(es.subrange(0, done));
                    assert(self@[i as int] == self.queues@[i as int]@);
                    assert(self@[i as int] == pre);
                    let ghost before = self.queues@;
                    let ghost before_view = self@;
                    let id = self.queues[i].add_event(e);
                    ids.push(id);
                    proof {
                        assert(self@[i as int] == self.queues@[i as int]@);
                        assert(self@[i as int] == pre.with_event(es[done]));
                        assert forall|j: int| 0 <= j < qs.len() && j != i implies self@[j] == qs[j] by {
                            assert(self.queues@[j] == before[j]);
                            assert(self@[j] == self.queues@[j]@);
                            assert(before_view[j] == before[j]@);
                        }
                        assert(es.subrange(0, done + 1).drop_last() =~= es.subrange(0, done));
                        assert(es.subrange(0, done + 1).last() == es[done]);
                        assert(q.with_events(es.subrange(0, done + 1)) == pre.with_event(es[done]));
                        assert(events_view(items@) =~= events_view(iv).drop_first());
                        assert(self@ =~= qs.update(i as int, q.with_events(es.subrange(0, done + 1))));
                        assert(ids@ =~= id_range(q.next_event_id, (done + 1) as nat));
                        assert(events_view(items@) =~= es.subrange(n - items@.len(), n as int));
                    }
                }
                proof {
                    assert(es.subrange(0, n as int) =~= es);
                    lemma_with_events(q, es);
                    lemma_with_events_armed(q, es);
                    lemma_update_wf(qs, i as int, q.with_events(es));
                    lemma_total_armed_update(qs, i as int, q.with_events(es));
                }
                Ok(CommandResp::AddEvents { ids })
            },
            Command::UpdateEventStatus { queue_name, event_id, status } => {
                match self.update_event_status(queue_name, event_id, status, Ghost(fuel)) {
                    Ok(()) => Ok(CommandResp::UpdateEventStatus {  }),
                    Err(e) => Err(e),
                }
            },
            Command::CreateTransaction { queue_name, event_id } => {
                let i = match self.find_queue(&queue_name) {
                    Some(i) => i,
                    None => return Err(ExchangeError::QueueNotFound(queue_name)),
                };
                assert(qs[i as int] == self.queues@[i as int]@);
                let ghost q = qs[i as int];
                let id = self.queues[i].create_transaction(event_id);
                proof {
                    assert(self@ =~= qs.update(i as int, q.with_transaction(event_id)));
                    lemma_update_wf(qs, i as int, q.with_transaction(event_id));
                    lemma_total_armed_update(qs, i as int, q.with_transaction(event_id));
                }
                Ok(CommandResp::CreateTransaction { id })
            },
        }
    }

    /// Sets the status of an event; when that takes the event out of its
    /// queue, takes out its transaction too and runs the cascade.
    fn update_event_status(
        &mut self,
        queue_name: String,
        event_id: u64,
        status: EventStatus,
        Ghost(fuel): Ghost<nat>,
    ) -> (r: Result<(), ExchangeError>)
        requires
            old(self).wf(),
            fuel > total_armed(old(self)@),
        ensures
            final(self).wf(),
            ({
                let o = step(fuel, old(self)@, Command::UpdateEventStatus { queue_name, event_id, status });
                &&& final(self)@ == o.0
                &&& o.1 == match r {
                    Ok(_) => Ok::<CommandRespView, ExchangeError>(CommandRespView::UpdateEventStatus),
                    Err(e) => Err::<CommandRespView, ExchangeError>(e),
                }
            }),
            total_armed(final(self)@) <= total_armed(old(self)@),
        decreases fuel, 2nat,
    {
        let ghost qs = self@;
        let i = match self.find_queue(&queue_name) {
            Some(i) => i,
            None => return Err(ExchangeError::QueueNotFound(queue_name)),
        };
        assert(qs[i as int] == self.queues@[i as int]@);
        let ghost q = qs[i as int];
        let ghost q1 = q.with_status(event_id, status);
        let (event, found) = self.queues[i].update_event_status(&event_id, status);
        proof {
            assert(self@ =~= qs.update(i as int, q1));
            assert(q1.armed_events() =~= q.armed_events());
            lemma_update_wf(qs, i as int, q1);
            lemma_total_armed_update(qs, i as int, q1);
        }
        if !found || event.is_none() {
            return Ok(());
        }
        let ghost s1 = self@;
        assert(s1[i as int] == self.queues@[i as int]@);
        let transaction = match self.queues[i].remove_transaction(&event_id) {
            Some(t) => t,
            None => {
                assert(q1.without_transaction(event_id).transactions =~= q1.transactions);
                assert(self@ =~= s1);
                return Ok(());
            },
        };
        let ghost s2 = qs.update(i as int, q1.without_transaction(event_id));
        proof {
            assert(self@ =~= s2);
            assert(s1.update(i as int, q1.without_transaction(event_id)) =~= s2);
            lemma_update_wf(s1, i as int, q1.without_transaction(event_id));
            lemma_total_armed_update(s1, i as int, q1.without_transaction(event_id));
        }
        let triggers = transaction.into_command_triggers();
        self.run_cascade(triggers, status, Ghost(fuel))
    }

    /// Runs the triggers of a removed transaction after a change to `status`.
    fn run_cascade(
        &mut self,
        triggers: Vec<CommandTrigger>,
        status: EventStatus,
        Ghost(fuel): Ghost<nat>,
    ) -> (r: Result<(), ExchangeError>)
        requires
            old(self).wf(),
            triggers@.len() > 0 ==> fuel > total_armed(old(self)@) + 1,
        ensures
            final(self).wf(),
            (final(self)@, r) == cascade(fuel, old(self)@, triggers_view(triggers@), status),
            total_armed(final(self)@) <= total_armed(old(self)@),
        decreases fuel, 1nat,
    {
        let ghost tv0 = triggers_view(triggers@);
        let ghost goal = cascade(fuel, self@, tv0, status);
        let ghost start = total_armed(self@);
        let ghost n0 = triggers@.len();
        let mut ts = triggers;
        while ts.len() > 0
            invariant
                self.wf(),
                tv0 == triggers_view(triggers@),
                goal == cascade(fuel, old(self)@, tv0, status),
                start == total_armed(old(self)@),
                goal == cascade(fuel, self@, triggers_view(ts@), status),
                total_armed(self@) <= start,
                ts@.len() <= n0,
                n0 > 0 ==> fuel > start + 1,
            decreases ts@.len(),
        {
            let ghost tv = triggers_view(ts@);
            let ct = ts.remove(0);
            assert(tv[0] == ct@);
            assert(tv.drop_first() =~= triggers_view(ts@));
            if !ct.triggered_by_event_status_change(status) {
                return Ok(());
            }
            let ghost rest = triggers_view(ts@);
            let mut cs = ct.into_commands();
            while cs.len() > 0
                invariant
                    self.wf(),
                    tv0 == triggers_view(triggers@),
                    goal == cascade(fuel, old(self)@, tv0, status),
                    start == total_armed(old(self)@),
                    goal == then_cascade(fuel, run_commands(fuel, self@, cs@), rest, status),
                    total_armed(self@) <= start,
                    fuel > start + 1,
                    rest == triggers_view(ts@),
                decreases cs@.len(),
            {
                let ghost cv = cs@;
                let c = cs.remove(0);
                assert(cv[0] == c);
                assert(cv.drop_first() =~= cs@);
                match self.execute(c, Ghost((fuel - 1) as nat)) {
                    Ok(_) => {},
                    Err(e) => return Err(e),
                }
            }
        }
        Ok(())
    }

    /// Registers `command` under `trigger` on the transaction of event
    /// `event_id` in the queue named `queue_name`.
    pub fn add_command_trigger(
        &mut self,
        queue_name: &String,
        event_id: u64,
        trigger: Trigger,
        command: Command,
    ) -> (r: Result<(), ExchangeError>)
        requires
            old(self).wf(),
        ensures
            final(self).wf(),
            !has_queue(old(self)@, queue_name@) ==> r == Err::<(), ExchangeError>(
                ExchangeError::QueueNotFound(*queue_name),
            ) && final(self)@ == old(self)@,
            has_queue(old(self)@, queue_name@) ==> ({
                let i = queue_index(old(self)@, queue_name@);
                let q = old(self)@[i];
                if q.transactions.contains_key(event_id) {
                    r is Ok && final(self)@ == old(self)@.update(
                        i,
                        q.with_trigger_command(event_id, trigger, command),
                    )
                } else {
                    r == Err::<(), ExchangeError>(ExchangeError::TransactionNotFound(event_id))
                        && final(self)@ == old(self)@
                }
            }),
    {
        let ghost qs = self@;
        let i = match self.find_queue(queue_name) {
            Some(i) => i,
            None => return Err(ExchangeError::QueueNotFound(queue_name.clone())),
        };
        assert(qs[i as int] == self.queues@[i as int]@);
        let ghost q = qs[i as int];
        let ghost before = self.queues@;
        let found = self.queues[i].add_command_trigger(event_id, trigger, command);
        proof {
            let q2 = self.queues@[i as int]@;
            assert forall|j: int| 0 <= j < qs.len() && j != i implies self@[j] == qs[j] by {
                assert(self.queues@[j] == before[j]);
                assert(self@[j] == self.queues@[j]@);
                assert(qs[j] == before[j]@);
            }
            assert(self@ =~= qs.update(i as int, q2));
            lemma_update_wf(qs, i as int, q2);
            if !found {
                assert(self@ =~= qs);
            }
        }
        if found {
            Ok(())
        } else {
            Err(ExchangeError::TransactionNotFound(event_id))
        }
    }

    /// Handles one request: decodes the command, executes it and encodes the
    /// reply. A command that does not decode changes nothing, and its error
    /// is the reply.
    pub fn handle_command(&mut self, command: wire::Command) -> (r: ExchangeResp)
        requires
            old(self).wf(),
        ensures
            final(self).wf(),
            !wire_command_decodes(command) ==> final(self)@ == old(self)@ && r.command_resp == Err::<
                wire::CommandResp,
                ExchangeError,
            >(wire_command_error(command)),
            wire_command_decodes(command) ==> exists|c: Command| #[trigger]
                decoded_as(command, c) && execute_spec(old(self)@, c).0 == final(self)@
                    && replies(execute_spec(old(self)@, c).1, r.command_resp),
    {
        let com = match Command::try_from(command) {
            Ok(c) => c,
            Err(e) => return ExchangeResp { command_resp: Err(e) },
        };
        let ghost c = com;
        let res = self.execute_command(com);
        let command_resp = match res {
            Ok(resp) => {
                proof {
                    lemma_encodes(resp);
                }
                wire::CommandResp::try_from(resp)
            },
            Err(e) => Err(e),
        };
        assert(decoded_as(command, c));
        ExchangeResp { command_resp }
    }

    /// The queue named `name`, if there is one.
    pub fn get_queue(&self, name: &String) -> (r: Option<&Queue>)
        requires
            self.wf(),
        ensures
            r is Some <==> has_queue(self@, name@),
            r is Some ==> r->Some_0@ == self@[queue_index(self@, name@)],
    {
        match self.find_queue(name) {
            Some(i) => Some(&self.queues[i]),
            None => None,
        }
    }
}

} // verus!
