use accountant::{LinkAction, LinkEvent, LinkState, Outbox, RECONNECT_INTERVAL};

fn connected_with(items: &[u32]) -> Outbox<u32> {
    let mut o = Outbox::new();
    for &i in items {
        o.enqueue(i);
    }
    assert_eq!(o.step(LinkEvent::TimerElapsed), LinkAction::Dial);
    o
}

#[test]
fn starts_disconnected_and_waits_before_dialling() {
    let mut o: Outbox<u32> = Outbox::new();
    assert_eq!(o.state(), LinkState::Disconnected);
    assert_eq!(o.step(LinkEvent::DialSucceeded), LinkAction::Wait(RECONNECT_INTERVAL));
    assert_eq!(RECONNECT_INTERVAL, 10);
    assert_eq!(o.step(LinkEvent::TimerElapsed), LinkAction::Dial);
    assert_eq!(o.state(), LinkState::Connecting);
}

#[test]
fn failed_dial_waits_the_interval() {
    let mut o = connected_with(&[]);
    assert_eq!(o.step(LinkEvent::DialFailed), LinkAction::Wait(RECONNECT_INTERVAL));
    assert_eq!(o.state(), LinkState::Disconnected);
}

#[test]
fn items_are_sent_in_order() {
    let mut o = connected_with(&[1, 2, 3]);
    let mut sent = Vec::new();
    let mut action = o.step(LinkEvent::DialSucceeded);
    while action == LinkAction::Send {
        sent.push(*o.in_flight().unwrap());
        action = o.step(LinkEvent::WriteSucceeded);
    }
    assert_eq!(action, LinkAction::AwaitItem);
    assert_eq!(sent, vec![1, 2, 3]);
    assert_eq!(o.queue_len(), 0);
    assert!(o.in_flight().is_none());
}

#[test]
fn failed_write_requeues_at_head_and_retries() {
    let mut o = connected_with(&[1, 2]);
    assert_eq!(o.step(LinkEvent::DialSucceeded), LinkAction::Send);
    assert_eq!(o.in_flight(), Some(&1));
    o.enqueue(3);
    assert_eq!(o.step(LinkEvent::WriteFailed), LinkAction::Wait(RECONNECT_INTERVAL));
    assert_eq!(o.state(), LinkState::Disconnected);
    assert!(o.in_flight().is_none());
    assert_eq!(o.queue_len(), 3);
    assert_eq!(o.step(LinkEvent::TimerElapsed), LinkAction::Dial);
    assert_eq!(o.step(LinkEvent::DialSucceeded), LinkAction::Send);
    assert_eq!(o.in_flight(), Some(&1));
    assert_eq!(o.step(LinkEvent::WriteSucceeded), LinkAction::Send);
    assert_eq!(o.in_flight(), Some(&2));
    assert_eq!(o.step(LinkEvent::WriteSucceeded), LinkAction::Send);
    assert_eq!(o.in_flight(), Some(&3));
}

#[test]
fn item_queued_while_idle_is_sent() {
    let mut o = connected_with(&[]);
    assert_eq!(o.step(LinkEvent::DialSucceeded), LinkAction::AwaitItem);
    o.enqueue(9);
    assert_eq!(o.step(LinkEvent::ItemQueued), LinkAction::Send);
    assert_eq!(o.in_flight(), Some(&9));
    assert_eq!(o.queue_len(), 0);
}

#[test]
fn unexpected_event_changes_nothing() {
    let mut o = connected_with(&[4]);
    assert_eq!(o.step(LinkEvent::WriteSucceeded), LinkAction::Dial);
    assert_eq!(o.state(), LinkState::Connecting);
    assert_eq!(o.queue_len(), 1);
}
