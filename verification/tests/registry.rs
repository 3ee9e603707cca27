use event_scheduler::channel::Delivery;
use event_scheduler::error::ServiceError;
use event_scheduler::query::EventCounterStatus;
use event_scheduler::registry::{
    report_for, DeliveryReport, ObservationChannel, SubscriberRegistry, SubscriberStats,
    CHANNEL_CAPACITY,
};

fn update(event_id: i32, count: u64) -> EventCounterStatus {
    EventCounterStatus { event_id, round: 1, count }
}

fn stats(id: u64, delivered: u64, dropped: u64) -> SubscriberStats {
    SubscriberStats { id, delivered, dropped }
}

fn report(subscriber: u64, outcome: Delivery) -> DeliveryReport {
    DeliveryReport { subscriber, outcome }
}

fn drain(channel: &mut ObservationChannel) -> Vec<EventCounterStatus> {
    let mut seen = Vec::new();
    while let Some(next) = channel.try_next() {
        seen.push(next);
    }
    seen
}

#[test]
fn attach_hands_out_fresh_identities() {
    let mut registry = SubscriberRegistry::new();
    assert_eq!(registry.len(), 0);
    let a = registry.attach().unwrap();
    let b = registry.attach().unwrap();
    assert_eq!(a.id(), 0);
    assert_eq!(b.id(), 1);
    assert!(registry.detach(0));
    let c = registry.attach().unwrap();
    assert_eq!(c.id(), 2);
    assert_eq!(registry.subscribers(), vec![stats(1, 0, 0), stats(2, 0, 0)]);
    assert_eq!(registry.len(), 2);
}

#[test]
fn a_new_observer_has_nothing_waiting() {
    let mut registry = SubscriberRegistry::new();
    let mut a = registry.attach().unwrap();
    assert_eq!(a.try_next(), None);
}

#[test]
fn broadcast_reaches_every_observer_in_order() {
    let mut registry = SubscriberRegistry::new();
    let mut channels: Vec<ObservationChannel> = Vec::new();
    for _ in 0..5 {
        channels.push(registry.attach().unwrap());
    }
    let first = registry.notify_subscribers(update(7, 3));
    let second = registry.notify_subscribers(update(7, 4));
    let third = registry.notify_subscribers(update(8, 1));
    for reports in [first, second, third] {
        assert_eq!(
            reports,
            (0..5).map(|id| report(id, Delivery::Delivered)).collect::<Vec<DeliveryReport>>()
        );
    }
    for channel in channels.iter_mut() {
        assert_eq!(drain(channel), vec![update(7, 3), update(7, 4), update(8, 1)]);
    }
    assert_eq!(registry.subscribers(), (0..5).map(|id| stats(id, 3, 0)).collect::<Vec<SubscriberStats>>());
}

#[test]
fn a_full_queue_drops_the_update_for_that_observer_only() {
    let mut registry = SubscriberRegistry::new();
    let mut slow = registry.attach().unwrap();
    let mut quick = registry.attach().unwrap();
    assert_eq!(CHANNEL_CAPACITY, 4);
    for k in 0..4 {
        let reports = registry.notify_subscribers(update(1, k));
        assert_eq!(reports, vec![report(0, Delivery::Delivered), report(1, Delivery::Delivered)]);
        assert_eq!(quick.try_next(), Some(update(1, k)));
    }
    let reports = registry.notify_subscribers(update(1, 4));
    assert_eq!(reports, vec![report(0, Delivery::Full), report(1, Delivery::Delivered)]);
    assert_eq!(quick.try_next(), Some(update(1, 4)));
    assert_eq!(registry.subscribers(), vec![stats(0, 4, 1), stats(1, 5, 0)]);
    assert_eq!(drain(&mut slow), vec![update(1, 0), update(1, 1), update(1, 2), update(1, 3)]);
    let reports = registry.notify_subscribers(update(1, 5));
    assert_eq!(reports, vec![report(0, Delivery::Delivered), report(1, Delivery::Delivered)]);
    assert_eq!(drain(&mut slow), vec![update(1, 5)]);
}

#[test]
fn a_disconnected_observer_does_not_hold_up_the_others() {
    let mut registry = SubscriberRegistry::new();
    let gone = registry.attach().unwrap();
    let mut stays = registry.attach().unwrap();
    drop(gone);
    let mut received = Vec::new();
    for k in 0..10 {
        let reports = registry.notify_subscribers(update(3, k));
        if k == 0 {
            assert_eq!(reports, vec![report(0, Delivery::Closed), report(1, Delivery::Delivered)]);
        } else {
            assert_eq!(reports, vec![report(1, Delivery::Delivered)]);
        }
        assert_eq!(registry.len(), 1);
        received.extend(drain(&mut stays));
    }
    assert_eq!(received, (0..10).map(|k| update(3, k)).collect::<Vec<EventCounterStatus>>());
    assert_eq!(registry.subscribers(), vec![stats(1, 10, 0)]);
}

#[test]
fn a_detached_observer_does_not_hold_up_the_others() {
    let mut registry = SubscriberRegistry::new();
    let mut idle = registry.attach().unwrap();
    let mut stays = registry.attach().unwrap();
    assert!(registry.detach(idle.id()));
    assert!(!registry.detach(idle.id()));
    let mut received = Vec::new();
    for k in 0..10 {
        assert_eq!(registry.notify_subscribers(update(3, k)), vec![report(1, Delivery::Delivered)]);
        received.extend(drain(&mut stays));
    }
    assert_eq!(received.len(), 10);
    assert_eq!(idle.try_next(), None);
}

#[test]
fn a_closed_observer_is_detached_by_the_next_broadcast() {
    let mut registry = SubscriberRegistry::new();
    let mut a = registry.attach().unwrap();
    let mut b = registry.attach().unwrap();
    registry.notify_subscribers(update(1, 1));
    a.close();
    assert_eq!(a.id(), 0);
    assert_eq!(registry.len(), 2);
    let reports = registry.notify_subscribers(update(1, 2));
    assert_eq!(reports, vec![report(0, Delivery::Closed), report(1, Delivery::Delivered)]);
    assert_eq!(registry.subscribers(), vec![stats(1, 2, 0)]);
    assert_eq!(drain(&mut a), vec![update(1, 1)]);
    assert_eq!(drain(&mut b), vec![update(1, 1), update(1, 2)]);
}

#[test]
fn broadcast_to_nobody_reports_nothing() {
    let mut registry = SubscriberRegistry::new();
    assert_eq!(registry.notify_subscribers(update(1, 1)), vec![]);
    assert_eq!(registry.len(), 0);
}

#[test]
fn settle_counts_each_outcome() {
    let mut registry = SubscriberRegistry::new();
    let _a = registry.attach().unwrap();
    let _b = registry.attach().unwrap();
    let _c = registry.attach().unwrap();
    let _d = registry.attach().unwrap();
    registry.settle(&vec![
        report(2, Delivery::Full),
        report(0, Delivery::Delivered),
        report(1, Delivery::Closed),
        report(0, Delivery::Closed),
        report(9, Delivery::Closed),
    ]);
    assert_eq!(registry.subscribers(), vec![stats(0, 1, 0), stats(2, 0, 1), stats(3, 0, 0)]);
    registry.settle(&vec![]);
    assert_eq!(registry.subscribers(), vec![stats(0, 1, 0), stats(2, 0, 1), stats(3, 0, 0)]);
}

#[test]
fn the_first_report_on_an_observer_counts() {
    let reports = vec![report(4, Delivery::Full), report(2, Delivery::Closed), report(4, Delivery::Delivered)];
    assert_eq!(report_for(&reports, 4), Some(Delivery::Full));
    assert_eq!(report_for(&reports, 2), Some(Delivery::Closed));
    assert_eq!(report_for(&reports, 3), None);
}

#[test]
fn the_receiving_half_can_be_taken_out() {
    let mut registry = SubscriberRegistry::new();
    let channel = registry.attach().unwrap();
    registry.notify_subscribers(update(5, 9));
    let mut receiver = channel.into_receiver();
    assert_eq!(receiver.try_recv().ok(), Some(update(5, 9)));
}

#[test]
fn an_update_that_did_not_arrive_is_a_delivery_failure() {
    assert_eq!(report(1, Delivery::Delivered).failure(), None);
    assert_eq!(report(1, Delivery::Full).failure(), Some(ServiceError::ChannelDeliveryFailure));
    assert_eq!(report(1, Delivery::Closed).failure(), Some(ServiceError::ChannelDeliveryFailure));
}
