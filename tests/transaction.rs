use orkidea::event::{Event, EventStatus};
use orkidea::queue::Queue;
use orkidea::transaction::{Command, Transaction, Trigger};

fn cmd(q: &str) -> Command {
    Command::AddQueue { name: q.to_string() }
}

fn queue_names(cs: &Vec<Command>) -> Vec<String> {
    cs.iter()
        .map(|c| match c {
            Command::AddQueue { name } => name.clone(),
            _ => String::new(),
        })
        .collect()
}

#[test]
fn same_trigger_merges_commands() {
    let mut t = Transaction::new(0, 4);
    t.add_command_trigger(Trigger::OnEventComplete(4), cmd("a"));
    t.add_command_trigger(Trigger::OnEventComplete(4), cmd("b"));
    let triggers = t.get_command_triggers();
    assert_eq!(triggers.len(), 1);
    assert_eq!(triggers[0].trigger(), Trigger::OnEventComplete(4));
    assert_eq!(queue_names(triggers[0].get_commands()), vec!["a".to_string(), "b".to_string()]);
}

#[test]
fn different_triggers_keep_registration_order() {
    let mut t = Transaction::new(0, 4);
    t.add_command_trigger(Trigger::OnEventError(4), cmd("a"));
    t.add_command_trigger(Trigger::OnEventComplete(4), cmd("b"));
    t.add_command_trigger(Trigger::OnEventError(4), cmd("c"));
    t.add_command_trigger(Trigger::OnEventError(5), cmd("d"));
    let triggers = t.get_command_triggers();
    assert_eq!(triggers.len(), 3);
    assert_eq!(triggers[0].trigger(), Trigger::OnEventError(4));
    assert_eq!(queue_names(triggers[0].get_commands()), vec!["a".to_string(), "c".to_string()]);
    assert_eq!(triggers[1].trigger(), Trigger::OnEventComplete(4));
    assert_eq!(triggers[2].trigger(), Trigger::OnEventError(5));
}

#[test]
fn firing_rule() {
    let statuses = [
        EventStatus::Queued,
        EventStatus::Running,
        EventStatus::Complete,
        EventStatus::Errored,
        EventStatus::MissedHeartbeat,
        EventStatus::Timedout,
    ];
    let pairs = [
        (Trigger::OnEventComplete(1), EventStatus::Complete),
        (Trigger::OnEventError(1), EventStatus::Errored),
        (Trigger::OnEventMissedHeartbeat(1), EventStatus::MissedHeartbeat),
        (Trigger::OnEventTimedout(1), EventStatus::Timedout),
    ];
    for (trigger, fires_on) in pairs {
        let mut t = Transaction::new(0, 1);
        t.add_command_trigger(trigger, cmd("x"));
        let ct = &t.get_command_triggers()[0];
        for s in statuses {
            assert_eq!(ct.triggered_by_event_status_change(s), s == fires_on);
        }
    }
}

#[test]
fn heartbeat_recorded() {
    let mut t = Transaction::new(3, 9);
    assert_eq!(t.last_heartbeat(), None);
    t.update_heartbeat();
    let at = t.last_heartbeat().unwrap();
    assert!(at > 1_500_000_000_000);
    assert_eq!(t.id(), 3);
    assert_eq!(t.event_id(), 9);
    t.record_heartbeat(17);
    assert_eq!(t.last_heartbeat(), Some(17));
}

#[test]
fn queue_transactions() {
    let mut q = Queue::new("q".to_string());
    assert_eq!(q.create_transaction(2), 0);
    assert!(q.add_command_trigger(2, Trigger::OnEventComplete(2), cmd("a")));
    assert!(!q.add_command_trigger(3, Trigger::OnEventComplete(3), cmd("b")));
    assert_eq!(q.create_transaction(2), 1);
    assert_eq!(q.get_transaction(2).unwrap().get_command_triggers().len(), 0);
    let t = q.remove_transaction(&2).unwrap();
    assert_eq!(t.id(), 1);
    assert!(q.remove_transaction(&2).is_none());
}

#[test]
fn queue_update_event_status() {
    let mut q = Queue::new("q".to_string());
    assert_eq!(q.add_event(Event::new(77, vec![1], Vec::new())), 0);
    let (e, found) = q.update_event_status(&0, EventStatus::Running);
    assert!(e.is_none() && found);
    let (e, found) = q.update_event_status(&5, EventStatus::Complete);
    assert!(e.is_none() && !found);
    let (e, found) = q.update_event_status(&0, EventStatus::MissedHeartbeat);
    assert!(found);
    let e = e.unwrap();
    assert_eq!(e.id(), 0);
    assert_eq!(e.status(), EventStatus::MissedHeartbeat);
    assert!(q.get_event(0).is_none());
}
