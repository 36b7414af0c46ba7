use orkidea::event::{Attribute, Event, EventStatus};
use orkidea::exchange::{Exchange, ExchangeError};
use orkidea::transaction::{Command, CommandResp, Trigger};

fn name(s: &str) -> String {
    s.to_string()
}

fn event(data: &str) -> Event {
    Event::new(0, data.as_bytes().to_vec(), Vec::new())
}

fn add_queue(ex: &mut Exchange, q: &str) {
    let r = ex.execute_command(Command::AddQueue { name: name(q) });
    assert_eq!(r, Ok(CommandResp::AddQueue {}));
}

fn add_event(ex: &mut Exchange, q: &str, data: &str) -> Result<CommandResp, ExchangeError> {
    ex.execute_command(Command::AddEvent { queue_name: name(q), event: event(data) })
}

fn update(ex: &mut Exchange, q: &str, id: u64, status: EventStatus) -> Result<CommandResp, ExchangeError> {
    ex.execute_command(Command::UpdateEventStatus { queue_name: name(q), event_id: id, status })
}

fn is_active(ex: &Exchange, q: &str, id: u64) -> bool {
    ex.get_queue(&name(q)).unwrap().get_event(id).is_some()
}

#[test]
fn end_to_end_orders() {
    let mut ex = Exchange::new();
    assert_eq!(ex.execute_command(Command::AddQueue { name: name("orders") }), Ok(CommandResp::AddQueue {}));
    assert_eq!(add_event(&mut ex, "orders", "x"), Ok(CommandResp::AddEvent { id: 0 }));
    assert_eq!(add_event(&mut ex, "orders", "x"), Ok(CommandResp::AddEvent { id: 1 }));
    assert_eq!(update(&mut ex, "orders", 0, EventStatus::Running), Ok(CommandResp::UpdateEventStatus {}));
    assert!(is_active(&ex, "orders", 0));
    let queue = ex.get_queue(&name("orders")).unwrap();
    assert_eq!(queue.get_event(0).unwrap().status(), EventStatus::Running);
    assert_eq!(queue.get_event(0).unwrap().data(), &b"x".to_vec());
    assert_eq!(update(&mut ex, "orders", 0, EventStatus::Complete), Ok(CommandResp::UpdateEventStatus {}));
    assert!(!is_active(&ex, "orders", 0));
    assert!(is_active(&ex, "orders", 1));
}

#[test]
fn event_ids_ignore_caller_ids() {
    let mut ex = Exchange::new();
    add_queue(&mut ex, "q");
    let supplied = [42u64, 7, 7, 0, u64::MAX];
    for (k, id) in supplied.iter().enumerate() {
        let e = Event::new(*id, vec![k as u8], Vec::new());
        let r = ex.execute_command(Command::AddEvent { queue_name: name("q"), event: e });
        assert_eq!(r, Ok(CommandResp::AddEvent { id: k as u64 }));
    }
    let queue = ex.get_queue(&name("q")).unwrap();
    for k in 0..5u64 {
        assert_eq!(queue.get_event(k).unwrap().id(), k);
        assert_eq!(queue.get_event(k).unwrap().data(), &vec![k as u8]);
    }
    assert_eq!(queue.next_event_id(), 5);
}

#[test]
fn event_ids_not_reused_after_removal() {
    let mut ex = Exchange::new();
    add_queue(&mut ex, "q");
    assert_eq!(add_event(&mut ex, "q", "a"), Ok(CommandResp::AddEvent { id: 0 }));
    assert_eq!(update(&mut ex, "q", 0, EventStatus::Errored), Ok(CommandResp::UpdateEventStatus {}));
    assert_eq!(add_event(&mut ex, "q", "b"), Ok(CommandResp::AddEvent { id: 1 }));
    assert!(!is_active(&ex, "q", 0));
}

#[test]
fn add_queue_twice_fails() {
    let mut ex = Exchange::new();
    add_queue(&mut ex, "q");
    add_event(&mut ex, "q", "a").unwrap();
    let r = ex.execute_command(Command::AddQueue { name: name("q") });
    assert_eq!(r, Err(ExchangeError::QueueAlreadyExistsForName(name("q"))));
    let queue = ex.get_queue(&name("q")).unwrap();
    assert!(queue.get_event(0).is_some());
    assert_eq!(queue.next_event_id(), 1);
}

#[test]
fn terminal_update_is_idempotent() {
    let mut ex = Exchange::new();
    add_queue(&mut ex, "q");
    add_event(&mut ex, "q", "a").unwrap();
    assert_eq!(update(&mut ex, "q", 0, EventStatus::Timedout), Ok(CommandResp::UpdateEventStatus {}));
    assert!(!is_active(&ex, "q", 0));
    assert_eq!(update(&mut ex, "q", 0, EventStatus::Timedout), Ok(CommandResp::UpdateEventStatus {}));
    assert_eq!(update(&mut ex, "q", 0, EventStatus::Complete), Ok(CommandResp::UpdateEventStatus {}));
    assert!(!is_active(&ex, "q", 0));
}

#[test]
fn every_terminal_status_removes() {
    for status in [EventStatus::Complete, EventStatus::Errored, EventStatus::MissedHeartbeat, EventStatus::Timedout] {
        let mut ex = Exchange::new();
        add_queue(&mut ex, "q");
        add_event(&mut ex, "q", "a").unwrap();
        update(&mut ex, "q", 0, status).unwrap();
        assert!(!is_active(&ex, "q", 0));
        assert!(status.is_terminal());
    }
    for status in [EventStatus::Queued, EventStatus::Running] {
        let mut ex = Exchange::new();
        add_queue(&mut ex, "q");
        add_event(&mut ex, "q", "a").unwrap();
        update(&mut ex, "q", 0, status).unwrap();
        assert!(is_active(&ex, "q", 0));
        assert!(!status.is_terminal());
    }
}

#[test]
fn update_unknown_queue_and_event() {
    let mut ex = Exchange::new();
    assert_eq!(update(&mut ex, "nope", 0, EventStatus::Running), Err(ExchangeError::QueueNotFound(name("nope"))));
    add_queue(&mut ex, "q");
    assert_eq!(update(&mut ex, "q", 9, EventStatus::Complete), Ok(CommandResp::UpdateEventStatus {}));
    assert_eq!(update(&mut ex, "q", 9, EventStatus::Running), Ok(CommandResp::UpdateEventStatus {}));
}

#[test]
fn unknown_queue_errors_for_every_command() {
    let mut ex = Exchange::new();
    assert_eq!(add_event(&mut ex, "nope", "a"), Err(ExchangeError::QueueNotFound(name("nope"))));
    let r = ex.execute_command(Command::AddEvents { queue_name: name("nope"), events: vec![event("a")] });
    assert_eq!(r, Err(ExchangeError::QueueNotFound(name("nope"))));
    let r = ex.execute_command(Command::CreateTransaction { queue_name: name("nope"), event_id: 0 });
    assert_eq!(r, Err(ExchangeError::QueueNotFound(name("nope"))));
}

#[test]
fn add_events_returns_all_ids() {
    let mut ex = Exchange::new();
    add_queue(&mut ex, "q");
    add_event(&mut ex, "q", "first").unwrap();
    let r = ex.execute_command(Command::AddEvents {
        queue_name: name("q"),
        events: vec![event("a"), event("b"), event("c")],
    });
    assert_eq!(r, Ok(CommandResp::AddEvents { ids: vec![1, 2, 3] }));
    let queue = ex.get_queue(&name("q")).unwrap();
    assert_eq!(queue.get_event(2).unwrap().data(), &b"b".to_vec());
    let r = ex.execute_command(Command::AddEvents { queue_name: name("q"), events: Vec::new() });
    assert_eq!(r, Ok(CommandResp::AddEvents { ids: Vec::new() }));
}

#[test]
fn create_transaction_ids_increase() {
    let mut ex = Exchange::new();
    add_queue(&mut ex, "q");
    let r = ex.execute_command(Command::CreateTransaction { queue_name: name("q"), event_id: 5 });
    assert_eq!(r, Ok(CommandResp::CreateTransaction { id: 0 }));
    let r = ex.execute_command(Command::CreateTransaction { queue_name: name("q"), event_id: 5 });
    assert_eq!(r, Ok(CommandResp::CreateTransaction { id: 1 }));
    let t = ex.get_queue(&name("q")).unwrap().get_transaction(5).unwrap();
    assert_eq!(t.id(), 1);
    assert_eq!(t.event_id(), 5);
    assert_eq!(t.get_command_triggers().len(), 0);
}

#[test]
fn cascade_adds_event_before_reply() {
    let mut ex = Exchange::new();
    add_queue(&mut ex, "q1");
    add_queue(&mut ex, "q2");
    add_event(&mut ex, "q1", "e1").unwrap();
    ex.execute_command(Command::CreateTransaction { queue_name: name("q1"), event_id: 0 }).unwrap();
    let follow = Command::AddEvent { queue_name: name("q2"), event: event("e2") };
    assert_eq!(ex.add_command_trigger(&name("q1"), 0, Trigger::OnEventComplete(0), follow), Ok(()));
    assert!(!is_active(&ex, "q2", 0));
    assert_eq!(update(&mut ex, "q1", 0, EventStatus::Complete), Ok(CommandResp::UpdateEventStatus {}));
    assert!(is_active(&ex, "q2", 0));
    let q2 = ex.get_queue(&name("q2")).unwrap();
    assert_eq!(q2.get_event(0).unwrap().data(), &b"e2".to_vec());
    assert!(ex.get_queue(&name("q1")).unwrap().get_transaction(0).is_none());
}

#[test]
fn cascade_needs_matching_status() {
    let mut ex = Exchange::new();
    add_queue(&mut ex, "q1");
    add_queue(&mut ex, "q2");
    add_event(&mut ex, "q1", "e1").unwrap();
    ex.execute_command(Command::CreateTransaction { queue_name: name("q1"), event_id: 0 }).unwrap();
    let follow = Command::AddEvent { queue_name: name("q2"), event: event("e2") };
    ex.add_command_trigger(&name("q1"), 0, Trigger::OnEventComplete(0), follow).unwrap();
    update(&mut ex, "q1", 0, EventStatus::Running).unwrap();
    assert!(ex.get_queue(&name("q1")).unwrap().get_transaction(0).is_some());
    update(&mut ex, "q1", 0, EventStatus::Errored).unwrap();
    assert!(!is_active(&ex, "q2", 0));
    assert!(ex.get_queue(&name("q1")).unwrap().get_transaction(0).is_none());
}

#[test]
fn cascade_stops_at_first_non_matching_trigger() {
    let mut ex = Exchange::new();
    add_queue(&mut ex, "q1");
    add_queue(&mut ex, "q2");
    add_event(&mut ex, "q1", "e1").unwrap();
    ex.execute_command(Command::CreateTransaction { queue_name: name("q1"), event_id: 0 }).unwrap();
    let on_error = Command::AddEvent { queue_name: name("q2"), event: event("err") };
    let on_complete = Command::AddEvent { queue_name: name("q2"), event: event("ok") };
    ex.add_command_trigger(&name("q1"), 0, Trigger::OnEventError(0), on_error).unwrap();
    ex.add_command_trigger(&name("q1"), 0, Trigger::OnEventComplete(0), on_complete).unwrap();
    assert_eq!(update(&mut ex, "q1", 0, EventStatus::Complete), Ok(CommandResp::UpdateEventStatus {}));
    assert!(!is_active(&ex, "q2", 0));
    assert!(ex.get_queue(&name("q1")).unwrap().get_transaction(0).is_none());
}

#[test]
fn cascade_runs_all_commands_in_order() {
    let mut ex = Exchange::new();
    add_queue(&mut ex, "q1");
    add_event(&mut ex, "q1", "e1").unwrap();
    ex.execute_command(Command::CreateTransaction { queue_name: name("q1"), event_id: 0 }).unwrap();
    let t = Trigger::OnEventTimedout(0);
    ex.add_command_trigger(&name("q1"), 0, t, Command::AddQueue { name: name("q3") }).unwrap();
    ex.add_command_trigger(&name("q1"), 0, t, Command::AddEvent { queue_name: name("q3"), event: event("a") }).unwrap();
    assert_eq!(ex.get_queue(&name("q1")).unwrap().get_transaction(0).unwrap().get_command_triggers().len(), 1);
    update(&mut ex, "q1", 0, EventStatus::Timedout).unwrap();
    assert!(is_active(&ex, "q3", 0));
}

#[test]
fn cascade_failure_aborts_and_propagates() {
    let mut ex = Exchange::new();
    add_queue(&mut ex, "q1");
    add_event(&mut ex, "q1", "e1").unwrap();
    ex.execute_command(Command::CreateTransaction { queue_name: name("q1"), event_id: 0 }).unwrap();
    let t = Trigger::OnEventComplete(0);
    ex.add_command_trigger(&name("q1"), 0, t, Command::AddEvent { queue_name: name("missing"), event: event("a") }).unwrap();
    ex.add_command_trigger(&name("q1"), 0, t, Command::AddEvent { queue_name: name("q1"), event: event("b") }).unwrap();
    let r = update(&mut ex, "q1", 0, EventStatus::Complete);
    assert_eq!(r, Err(ExchangeError::QueueNotFound(name("missing"))));
    assert!(!is_active(&ex, "q1", 0));
    assert!(!is_active(&ex, "q1", 1));
}

#[test]
fn nested_cascade() {
    let mut ex = Exchange::new();
    add_queue(&mut ex, "q");
    add_event(&mut ex, "q", "a").unwrap();
    add_event(&mut ex, "q", "b").unwrap();
    ex.execute_command(Command::CreateTransaction { queue_name: name("q"), event_id: 0 }).unwrap();
    ex.execute_command(Command::CreateTransaction { queue_name: name("q"), event_id: 1 }).unwrap();
    let done_b = Command::UpdateEventStatus { queue_name: name("q"), event_id: 1, status: EventStatus::Complete };
    ex.add_command_trigger(&name("q"), 0, Trigger::OnEventComplete(0), done_b).unwrap();
    let add_c = Command::AddEvent { queue_name: name("q"), event: event("c") };
    ex.add_command_trigger(&name("q"), 1, Trigger::OnEventComplete(1), add_c).unwrap();
    update(&mut ex, "q", 0, EventStatus::Complete).unwrap();
    assert!(!is_active(&ex, "q", 0));
    assert!(!is_active(&ex, "q", 1));
    assert!(is_active(&ex, "q", 2));
}

#[test]
fn add_command_trigger_errors() {
    let mut ex = Exchange::new();
    let c = Command::AddQueue { name: name("x") };
    assert_eq!(ex.add_command_trigger(&name("q"), 0, Trigger::OnEventComplete(0), c), Err(ExchangeError::QueueNotFound(name("q"))));
    add_queue(&mut ex, "q");
    let c = Command::AddQueue { name: name("x") };
    assert_eq!(ex.add_command_trigger(&name("q"), 3, Trigger::OnEventComplete(3), c), Err(ExchangeError::TransactionNotFound(3)));
}

#[test]
fn attributes_kept() {
    let mut ex = Exchange::new();
    add_queue(&mut ex, "q");
    let attrs = vec![Attribute::new(name("k"), name("v1")), Attribute::new(name("k"), name("v2"))];
    let e = Event::new(9, b"d".to_vec(), attrs);
    ex.execute_command(Command::AddEvent { queue_name: name("q"), event: e }).unwrap();
    let queue = ex.get_queue(&name("q")).unwrap();
    let stored = queue.get_event(0).unwrap();
    assert_eq!(stored.attributes().len(), 2);
    assert_eq!(stored.attributes()[1].value(), &name("v2"));
    assert_eq!(stored.attributes()[0].name(), &name("k"));
    assert_eq!(stored.status(), EventStatus::Queued);
    assert_eq!(queue.name(), name("q"));
}
