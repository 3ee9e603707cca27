use event_scheduler::channel::Delivery;
use event_scheduler::entity::{event, round_max_users};
use event_scheduler::error::ServiceError;
use event_scheduler::mutation::{Mutation, UserToCreate};
use event_scheduler::query::{EventCounterStatus, EventUserStatus, Query};
use event_scheduler::registry::{DeliveryReport, ObservationChannel, SubscriberStats};
use event_scheduler::service::MyScheduleService;
use event_scheduler::store::Store;
use event_scheduler::time::Timestamp;

fn person(name: &str) -> UserToCreate {
    UserToCreate {
        name: name.to_string(),
        email: format!("{name}@example.org"),
        section: 1,
        class: "3A".to_string(),
        admin: false,
    }
}

fn seeded(events: i32, users: i32) -> Store {
    let mut db = Store::new();
    for k in 1..=events {
        db.insert_event(format!("event {k}"), "r".to_string(), "z".to_string(), "f".to_string(), 1)
            .unwrap();
    }
    for k in 1..=users {
        Mutation::add_user(&mut db, person(&format!("user{k}"))).unwrap();
    }
    db
}

fn count(event_id: i32, round: i32, count: u64) -> EventCounterStatus {
    EventCounterStatus { event_id, round, count }
}

fn drain(channel: &mut ObservationChannel) -> Vec<EventCounterStatus> {
    let mut seen = Vec::new();
    while let Some(update) = channel.try_next() {
        seen.push(update);
    }
    seen
}

#[test]
fn switching_events_updates_both_counts() {
    let mut db = seeded(2, 2);
    db.insert_round_max_users(round_max_users::Model { round: 1, event_id: 1, max_users: 2 })
        .unwrap();
    let mut service = MyScheduleService::new();
    let mut watcher = service.subscriber_count().unwrap();

    let log = service.subscribe_to_events(&mut db, 1, &vec![1]).unwrap();
    assert_eq!(log.len(), 1);
    assert_eq!(log[0].update, count(1, 1, 1));
    assert_eq!(Query::get_event_user_count_by_id(&db, 1, 1), 1);
    assert_eq!(drain(&mut watcher), vec![count(1, 1, 1)]);

    let log = service.subscribe_to_events(&mut db, 2, &vec![1]).unwrap();
    assert_eq!(log[0].reports, vec![DeliveryReport { subscriber: 0, outcome: Delivery::Delivered }]);
    assert_eq!(Query::get_event_user_count_by_id(&db, 1, 1), 2);
    assert_eq!(drain(&mut watcher), vec![count(1, 1, 2)]);

    let log = service.subscribe_to_events(&mut db, 1, &vec![2]).unwrap();
    assert_eq!(log.len(), 2);
    assert_eq!(Query::get_event_user_count_by_id(&db, 1, 1), 1);
    assert_eq!(Query::get_event_user_count_by_id(&db, 2, 1), 1);
    assert_eq!(drain(&mut watcher), vec![count(1, 1, 1), count(2, 1, 1)]);
}

#[test]
fn every_watcher_sees_the_counts_in_the_order_of_the_commits() {
    let mut db = seeded(1, 3);
    let mut service = MyScheduleService::new();
    let mut watchers: Vec<ObservationChannel> = Vec::new();
    for _ in 0..3 {
        watchers.push(service.subscriber_count().unwrap());
    }
    for user_id in 1..=3 {
        service.subscribe_to_events(&mut db, user_id, &vec![1]).unwrap();
    }
    for watcher in watchers.iter_mut() {
        assert_eq!(drain(watcher), vec![count(1, 1, 1), count(1, 1, 2), count(1, 1, 3)]);
    }
    assert_eq!(
        service.registry().subscribers(),
        vec![
            SubscriberStats { id: 0, delivered: 3, dropped: 0 },
            SubscriberStats { id: 1, delivered: 3, dropped: 0 },
            SubscriberStats { id: 2, delivered: 3, dropped: 0 },
        ]
    );
}

#[test]
fn a_request_tells_the_rounds_given_up_and_the_rounds_requested() {
    let mut db = seeded(3, 2);
    let mut service = MyScheduleService::new();
    service.subscribe_to_events(&mut db, 1, &vec![1, 2, 3]).unwrap();
    service.subscribe_to_events(&mut db, 2, &vec![1, 3]).unwrap();
    let mut watcher = service.subscriber_count().unwrap();
    let log = service.subscribe_to_events(&mut db, 1, &vec![1, 3]).unwrap();
    let updates: Vec<EventCounterStatus> = log.iter().map(|b| b.update).collect();
    assert_eq!(updates, vec![count(2, 2, 0), count(3, 3, 0), count(1, 1, 2), count(3, 2, 2)]);
    assert_eq!(drain(&mut watcher), updates);
    assert_eq!(
        MyScheduleService::released_subscriptions(&db, 1, &vec![3]).len(),
        2
    );
}

#[test]
fn a_failed_request_tells_nobody() {
    let mut db = seeded(1, 1);
    let mut service = MyScheduleService::new();
    let mut watcher = service.subscriber_count().unwrap();
    assert_eq!(
        service.subscribe_to_events(&mut db, 1, &vec![]).err(),
        Some(ServiceError::InvalidRequest)
    );
    assert_eq!(
        service.subscribe_to_events(&mut db, 1, &vec![2]).err(),
        Some(ServiceError::StoreUnavailable)
    );
    assert_eq!(drain(&mut watcher), vec![]);
    assert!(db.event_users().is_empty());
}

#[test]
fn a_failed_delivery_does_not_fail_the_request() {
    let mut db = seeded(1, 2);
    let mut service = MyScheduleService::new();
    let gone = service.subscriber_count().unwrap();
    let mut stays = service.subscriber_count().unwrap();
    drop(gone);
    let log = service.subscribe_to_events(&mut db, 1, &vec![1]).unwrap();
    assert_eq!(
        log[0].reports,
        vec![
            DeliveryReport { subscriber: 0, outcome: Delivery::Closed },
            DeliveryReport { subscriber: 1, outcome: Delivery::Delivered },
        ]
    );
    assert_eq!(db.event_users().len(), 1);
    assert_eq!(drain(&mut stays), vec![count(1, 1, 1)]);
    assert_eq!(service.registry().len(), 1);
}

#[test]
fn attendance_tells_nobody() {
    let mut db = seeded(1, 1);
    let mut service = MyScheduleService::new();
    service.subscribe_to_events(&mut db, 1, &vec![1]).unwrap();
    let mut watcher = service.subscriber_count().unwrap();
    assert_eq!(service.join_event(&mut db, 1, 1), Ok(()));
    assert_eq!(service.leave_event(&mut db, 1, 1), Ok(()));
    assert_eq!(service.join_event(&mut db, 1, 2), Err(ServiceError::NotSubscribed));
    assert_eq!(drain(&mut watcher), vec![]);
    assert_eq!(Query::get_event_user_count_by_id(&db, 1, 1), 1);
}

#[test]
fn unsubscribe_detaches_one_watcher() {
    let mut service = MyScheduleService::new();
    let a = service.subscriber_count().unwrap();
    let mut b = service.subscriber_count().unwrap();
    assert!(service.unsubscribe(a.id()));
    assert!(!service.unsubscribe(17));
    let reports = service.notify_subscribers(count(4, 2, 6));
    assert_eq!(reports, vec![DeliveryReport { subscriber: 1, outcome: Delivery::Delivered }]);
    assert_eq!(b.try_next(), Some(count(4, 2, 6)));
}

#[test]
fn publish_sends_the_updates_in_order() {
    let mut service = MyScheduleService::new();
    let mut watcher = service.subscriber_count().unwrap();
    let log = service.publish(&vec![count(1, 1, 1), count(2, 1, 5), count(1, 1, 2)]);
    assert_eq!(log.len(), 3);
    assert_eq!(log[1].update, count(2, 1, 5));
    assert_eq!(drain(&mut watcher), vec![count(1, 1, 1), count(2, 1, 5), count(1, 1, 2)]);
}

#[test]
fn ping_answers_pong() {
    assert_eq!(MyScheduleService::new().ping(), "Pong!");
}

#[test]
fn events_come_in_the_order_of_their_identities() {
    let db = seeded(3, 0);
    let service = MyScheduleService::new();
    let events = service.events(&db);
    assert_eq!(events.iter().map(|e| e.id).collect::<Vec<i32>>(), vec![1, 2, 3]);
    assert_eq!(
        events[1],
        event::Model {
            id: 2,
            name: "event 2".to_string(),
            room: "r".to_string(),
            zone: "z".to_string(),
            floor: "f".to_string(),
            minimum_section: 1,
        }
    );
    assert_eq!(Query::get_all_events(&db), events);
}

#[test]
fn status_joins_subscriptions_with_users() {
    let mut db = seeded(2, 3);
    Mutation::subscribe_to_events(&mut db, 3, &vec![2, 1]).unwrap();
    Mutation::subscribe_to_events(&mut db, 1, &vec![1, 1]).unwrap();
    Mutation::subscribe_to_events(&mut db, 2, &vec![2]).unwrap();
    Mutation::join_event_at(&mut db, 1, 1, Timestamp { seconds: 50, nanos: 1 }).unwrap();
    let service = MyScheduleService::new();
    let statuses = service.event_users_status(&db, 1, 2);
    let expected = |id: i32, joined_at: Option<Timestamp>| EventUserStatus {
        id,
        name: Some(format!("user{id}")),
        email: format!("user{id}@example.org"),
        section: 1,
        class: Some("3A".to_string()),
        joined_at,
        left_at: None,
    };
    assert_eq!(statuses, vec![expected(3, None), expected(1, None)]);
    assert_eq!(
        Query::event_users_status(&db, 1, 1),
        vec![expected(1, Some(Timestamp { seconds: 50, nanos: 1 }))]
    );
    assert_eq!(Query::event_users_status(&db, 2, 2), vec![]);
}

#[test]
fn counts_for_a_request_go_by_position() {
    let mut db = seeded(2, 2);
    Mutation::subscribe_to_events(&mut db, 1, &vec![1, 2]).unwrap();
    Mutation::subscribe_to_events(&mut db, 2, &vec![1, 1]).unwrap();
    assert_eq!(
        Query::get_events_user_count_by_ids(&db, vec![1, 1, 2]),
        vec![count(1, 1, 2), count(1, 2, 1), count(2, 3, 0)]
    );
    assert_eq!(Query::get_events_user_count_by_ids(&db, vec![]), vec![]);
    assert_eq!(
        MyScheduleService::counts_for(&db, db.event_users()),
        vec![count(1, 1, 2), count(2, 2, 1), count(1, 1, 2), count(1, 2, 1)]
    );
}
