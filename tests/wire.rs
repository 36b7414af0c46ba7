use orkidea::event::{Attribute, Event, EventStatus};
use orkidea::exchange::{Exchange, ExchangeError};
use orkidea::transaction::{Command, CommandResp};
use orkidea::wire;

fn status(k: wire::StatusKind) -> Option<wire::Status> {
    Some(wire::Status { data_type: Some(k) })
}

fn wire_event(data: &str, st: Option<wire::Status>) -> wire::Event {
    wire::Event {
        id: 5,
        data: data.as_bytes().to_vec(),
        attributes: vec![wire::Attribute { name: "key_1".to_string(), value: "value_1".to_string() }],
        status: st,
    }
}

fn command(k: wire::CommandKind) -> wire::Command {
    wire::Command { command: Some(k) }
}

#[test]
fn decode_status() {
    assert_eq!(EventStatus::try_from(wire::Status { data_type: Some(wire::StatusKind::Errored) }), Ok(EventStatus::Errored));
    assert_eq!(EventStatus::try_from(wire::Status { data_type: Some(wire::StatusKind::Queued) }), Ok(EventStatus::Queued));
    assert_eq!(EventStatus::try_from(wire::Status { data_type: None }), Err(ExchangeError::StatusNotProvided));
}

#[test]
fn decode_event_defaults_to_queued() {
    let e = Event::try_from(wire_event("abc", None)).unwrap();
    assert_eq!(e.status(), EventStatus::Queued);
    assert_eq!(e.id(), 5);
    assert_eq!(e.data(), &b"abc".to_vec());
    assert_eq!(e.attributes().len(), 1);
    assert_eq!(e.attributes()[0].name(), &"key_1".to_string());
    assert_eq!(e.attributes()[0].value(), &"value_1".to_string());
    let e = Event::try_from(wire_event("abc", status(wire::StatusKind::Running))).unwrap();
    assert_eq!(e.status(), EventStatus::Running);
}

#[test]
fn decode_event_bad_status() {
    let r = Event::try_from(wire_event("abc", Some(wire::Status { data_type: None })));
    assert!(matches!(r, Err(ExchangeError::StatusNotProvided)));
}

#[test]
fn decode_attribute() {
    let a = Attribute::try_from(wire::Attribute { name: "n".to_string(), value: "v".to_string() }).unwrap();
    assert_eq!(a.name(), &"n".to_string());
    assert_eq!(a.value(), &"v".to_string());
}

#[test]
fn decode_missing_fields() {
    let r = Command::try_from(wire::Command { command: None });
    assert!(matches!(r, Err(ExchangeError::CommandNotProvided)));
    let r = Command::try_from(command(wire::CommandKind::AddEvent(wire::AddEvent { queue_name: "q".to_string(), event: None })));
    assert!(matches!(r, Err(ExchangeError::AddEventRequestMissingEvent)));
    let r = Command::try_from(command(wire::CommandKind::UpdateEventStatus(wire::UpdateEventStatus {
        queue_name: "q".to_string(),
        event_id: 1,
        status: None,
    })));
    assert!(matches!(r, Err(ExchangeError::UpdateEventStatusMissingStatus)));
    let r = Command::try_from(command(wire::CommandKind::UpdateEventStatus(wire::UpdateEventStatus {
        queue_name: "q".to_string(),
        event_id: 1,
        status: Some(wire::Status { data_type: None }),
    })));
    assert!(matches!(r, Err(ExchangeError::StatusNotProvided)));
    let r = Command::try_from(command(wire::CommandKind::AddEvents(wire::AddEvents {
        queue_name: "q".to_string(),
        events: vec![wire_event("a", None), wire_event("b", Some(wire::Status { data_type: None }))],
    })));
    assert!(matches!(r, Err(ExchangeError::StatusNotProvided)));
}

#[test]
fn decode_commands() {
    match Command::try_from(command(wire::CommandKind::AddQueue(wire::AddQueue { name: "q".to_string() }))) {
        Ok(Command::AddQueue { name }) => assert_eq!(name, "q"),
        other => panic!("unexpected {:?}", other),
    }
    match Command::try_from(command(wire::CommandKind::AddEvents(wire::AddEvents {
        queue_name: "q".to_string(),
        events: vec![wire_event("a", None), wire_event("b", status(wire::StatusKind::Complete))],
    }))) {
        Ok(Command::AddEvents { queue_name, events }) => {
            assert_eq!(queue_name, "q");
            assert_eq!(events.len(), 2);
            assert_eq!(events[1].data(), &b"b".to_vec());
            assert_eq!(events[1].status(), EventStatus::Complete);
        },
        other => panic!("unexpected {:?}", other),
    }
    match Command::try_from(command(wire::CommandKind::UpdateEventStatus(wire::UpdateEventStatus {
        queue_name: "q".to_string(),
        event_id: 3,
        status: status(wire::StatusKind::Timedout),
    }))) {
        Ok(Command::UpdateEventStatus { queue_name, event_id, status }) => {
            assert_eq!(queue_name, "q");
            assert_eq!(event_id, 3);
            assert_eq!(status, EventStatus::Timedout);
        },
        other => panic!("unexpected {:?}", other),
    }
    match Command::try_from(command(wire::CommandKind::CreateTransaction(wire::CreateTransaction { queue_name: "q".to_string(), event_id: 8 }))) {
        Ok(Command::CreateTransaction { queue_name, event_id }) => {
            assert_eq!(queue_name, "q");
            assert_eq!(event_id, 8);
        },
        other => panic!("unexpected {:?}", other),
    }
}

#[test]
fn encode_replies() {
    let r = wire::CommandResp::try_from(CommandResp::AddEvents { ids: vec![4, 5] }).unwrap();
    assert_eq!(r, wire::CommandResp { command_resp: Some(wire::CommandRespKind::AddEventsResp(wire::AddEventsResp { ids: vec![4, 5] })) });
    let r = wire::CommandResp::try_from(CommandResp::AddQueue {}).unwrap();
    assert_eq!(r, wire::CommandResp { command_resp: Some(wire::CommandRespKind::AddQueueResp) });
    let r = wire::CommandResp::try_from(CommandResp::CreateTransaction { id: 2 }).unwrap();
    assert_eq!(r, wire::CommandResp { command_resp: Some(wire::CommandRespKind::CreateTransactionResp(wire::CreateTransactionResp { id: 2 })) });
    let r = wire::CommandResp::try_from(CommandResp::AddEvent { id: 6 }).unwrap();
    assert_eq!(r, wire::CommandResp { command_resp: Some(wire::CommandRespKind::AddEventResp(wire::AddEventResp { id: 6 })) });
    let r = wire::CommandResp::try_from(CommandResp::UpdateEventStatus {}).unwrap();
    assert_eq!(r, wire::CommandResp { command_resp: Some(wire::CommandRespKind::UpdateEventStatusResp) });
}

#[test]
fn handle_wire_requests() {
    let mut ex = Exchange::new();
    let r = ex.handle_command(command(wire::CommandKind::AddQueue(wire::AddQueue { name: "orders".to_string() })));
    assert_eq!(r.command_resp, Ok(wire::CommandResp { command_resp: Some(wire::CommandRespKind::AddQueueResp) }));
    let r = ex.handle_command(command(wire::CommandKind::AddEvent(wire::AddEvent {
        queue_name: "orders".to_string(),
        event: Some(wire_event("x", None)),
    })));
    assert_eq!(r.command_resp, Ok(wire::CommandResp { command_resp: Some(wire::CommandRespKind::AddEventResp(wire::AddEventResp { id: 0 })) }));
    let r = ex.handle_command(command(wire::CommandKind::AddQueue(wire::AddQueue { name: "orders".to_string() })));
    assert_eq!(r.command_resp, Err(ExchangeError::QueueAlreadyExistsForName("orders".to_string())));
    let r = ex.handle_command(wire::Command { command: None });
    assert_eq!(r.command_resp, Err(ExchangeError::CommandNotProvided));
    assert!(ex.get_queue(&"orders".to_string()).unwrap().get_event(0).is_some());
}
