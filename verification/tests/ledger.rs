use event_scheduler::entity::event_user;
use event_scheduler::error::ServiceError;
use event_scheduler::mutation::{Mutation, UserToCreate};
use event_scheduler::query::Query;
use event_scheduler::store::Store;
use event_scheduler::time::Timestamp;

fn person(name: &str) -> UserToCreate {
    UserToCreate {
        name: name.to_string(),
        email: format!("{name}@example.org"),
        section: 2,
        class: "4B".to_string(),
        admin: false,
    }
}

fn seeded(events: i32, users: i32) -> Store {
    let mut db = Store::new();
    for k in 1..=events {
        let id = db
            .insert_event(format!("event {k}"), "12".to_string(), "A".to_string(), "1".to_string(), 1)
            .unwrap();
        assert_eq!(id, k);
    }
    for k in 1..=users {
        let record = Mutation::add_user(&mut db, person(&format!("user{k}"))).unwrap();
        assert_eq!(record.id, k);
    }
    db
}

fn row(user_id: i32, event_id: i32, round: i32) -> event_user::Model {
    event_user::Model { user_id, event_id, round, joined_at: None, left_at: None }
}

fn at(seconds: i64) -> Timestamp {
    Timestamp { seconds, nanos: 500 }
}

#[test]
fn subscribe_takes_each_event_for_its_round() {
    let mut db = seeded(3, 1);
    assert_eq!(Mutation::subscribe_to_events(&mut db, 1, &vec![3, 1, 3]), Ok(()));
    assert_eq!(db.event_users(), &vec![row(1, 3, 1), row(1, 1, 2), row(1, 3, 3)]);
}

#[test]
fn subscribe_replaces_what_the_user_held() {
    let mut db = seeded(3, 2);
    Mutation::subscribe_to_events(&mut db, 1, &vec![1, 2]).unwrap();
    Mutation::subscribe_to_events(&mut db, 2, &vec![2]).unwrap();
    Mutation::subscribe_to_events(&mut db, 1, &vec![3]).unwrap();
    assert_eq!(db.event_users(), &vec![row(2, 2, 1), row(1, 3, 1)]);
    assert_eq!(Query::get_event_user_count_by_id(&db, 1, 1), 0);
    assert_eq!(Query::get_event_user_count_by_id(&db, 2, 2), 0);
    assert_eq!(Query::get_event_user_count_by_id(&db, 3, 1), 1);
}

#[test]
fn subscribe_drops_rounds_beyond_the_request() {
    let mut db = seeded(2, 1);
    Mutation::subscribe_to_events(&mut db, 1, &vec![1, 1, 2]).unwrap();
    Mutation::subscribe_to_events(&mut db, 1, &vec![2]).unwrap();
    assert_eq!(db.event_users(), &vec![row(1, 2, 1)]);
}

#[test]
fn no_user_holds_two_rows_in_one_round() {
    let mut db = seeded(4, 3);
    let requests: Vec<(i32, Vec<i32>)> = vec![
        (1, vec![1, 2]),
        (2, vec![1]),
        (1, vec![4, 4, 4]),
        (3, vec![2, 3]),
        (2, vec![3, 1]),
        (1, vec![2]),
        (9, vec![1]),
        (3, vec![]),
    ];
    for (user_id, event_ids) in requests {
        let _ = Mutation::subscribe_to_events(&mut db, user_id, &event_ids);
        let rows = db.event_users();
        for a in 0..rows.len() {
            for b in (a + 1)..rows.len() {
                assert!(!(rows[a].user_id == rows[b].user_id && rows[a].round == rows[b].round));
            }
        }
    }
    assert_eq!(db.event_users(), &vec![row(3, 2, 1), row(3, 3, 2), row(2, 3, 1), row(2, 1, 2), row(1, 2, 1)]);
}

#[test]
fn empty_request_is_invalid() {
    let mut db = seeded(1, 1);
    Mutation::subscribe_to_events(&mut db, 1, &vec![1]).unwrap();
    assert_eq!(Mutation::subscribe_to_events(&mut db, 1, &vec![]), Err(ServiceError::InvalidRequest));
    assert_eq!(db.event_users(), &vec![row(1, 1, 1)]);
}

#[test]
fn identifiers_below_one_are_invalid() {
    let mut db = seeded(2, 1);
    assert_eq!(Mutation::subscribe_to_events(&mut db, 0, &vec![1]), Err(ServiceError::InvalidRequest));
    assert_eq!(Mutation::subscribe_to_events(&mut db, 1, &vec![1, -4]), Err(ServiceError::InvalidRequest));
    assert_eq!(Mutation::subscribe_to_events(&mut db, 1, &vec![0]), Err(ServiceError::InvalidRequest));
    assert!(db.event_users().is_empty());
    assert!(!Mutation::request_is_well_formed(1, &vec![2, 0]));
    assert!(Mutation::request_is_well_formed(1, &vec![2, 7]));
}

#[test]
fn unknown_user_or_event_is_refused_by_the_store() {
    let mut db = seeded(2, 1);
    Mutation::subscribe_to_events(&mut db, 1, &vec![2]).unwrap();
    assert_eq!(Mutation::subscribe_to_events(&mut db, 5, &vec![1]), Err(ServiceError::StoreUnavailable));
    assert_eq!(
        Mutation::subscribe_to_events(&mut db, 1, &vec![1, 3]),
        Err(ServiceError::StoreUnavailable)
    );
    assert_eq!(db.event_users(), &vec![row(1, 2, 1)]);
    assert!(Mutation::request_is_known(&db, 1, &vec![1, 2]));
    assert!(!Mutation::request_is_known(&db, 1, &vec![1, 3]));
}

#[test]
fn new_subscriptions_number_the_rounds_from_one() {
    assert_eq!(Mutation::new_subscriptions(7, &vec![5, 9]), vec![row(7, 5, 1), row(7, 9, 2)]);
    assert_eq!(Mutation::new_subscriptions(7, &vec![]), vec![]);
}

#[test]
fn remove_old_subscriptions_leaves_the_others() {
    let mut db = seeded(2, 3);
    Mutation::subscribe_to_events(&mut db, 1, &vec![1, 2]).unwrap();
    Mutation::subscribe_to_events(&mut db, 2, &vec![2]).unwrap();
    Mutation::subscribe_to_events(&mut db, 3, &vec![1]).unwrap();
    Mutation::remove_old_subscriptions_for_user(&mut db, 1);
    assert_eq!(db.event_users(), &vec![row(2, 2, 1), row(3, 1, 1)]);
    Mutation::remove_old_subscriptions_for_user(&mut db, 1);
    assert_eq!(db.event_users(), &vec![row(2, 2, 1), row(3, 1, 1)]);
}

#[test]
fn join_without_subscription_fails() {
    let mut db = seeded(2, 2);
    assert_eq!(Mutation::join_event_at(&mut db, 1, 1, at(10)), Err(ServiceError::NotSubscribed));
    assert_eq!(Mutation::join_event(&mut db, 1, 1), Err(ServiceError::NotSubscribed));
    Mutation::subscribe_to_events(&mut db, 1, &vec![1]).unwrap();
    assert_eq!(Mutation::join_event_at(&mut db, 1, 2, at(10)), Err(ServiceError::NotSubscribed));
    assert_eq!(Mutation::join_event_at(&mut db, 2, 1, at(10)), Err(ServiceError::NotSubscribed));
    assert_eq!(Mutation::leave_event_at(&mut db, 2, 1, at(10)), Err(ServiceError::NotSubscribed));
    assert_eq!(Mutation::leave_event(&mut db, 1, 2), Err(ServiceError::NotSubscribed));
    assert_eq!(db.event_users(), &vec![row(1, 1, 1)]);
}

#[test]
fn join_after_subscription_succeeds() {
    let mut db = seeded(2, 1);
    Mutation::subscribe_to_events(&mut db, 1, &vec![2, 1]).unwrap();
    assert_eq!(Mutation::join_event_at(&mut db, 1, 1, at(77)), Ok(()));
    assert_eq!(
        db.event_users(),
        &vec![
            row(1, 2, 1),
            event_user::Model { user_id: 1, event_id: 1, round: 2, joined_at: Some(at(77)), left_at: None },
        ]
    );
}

#[test]
fn joining_twice_overwrites_the_time() {
    let mut db = seeded(1, 1);
    Mutation::subscribe_to_events(&mut db, 1, &vec![1]).unwrap();
    assert_eq!(Mutation::join_event_at(&mut db, 1, 1, at(100)), Ok(()));
    assert_eq!(db.event_users()[0].joined_at, Some(at(100)));
    assert_eq!(Mutation::join_event_at(&mut db, 1, 1, at(250)), Ok(()));
    assert_eq!(db.event_users().len(), 1);
    assert_eq!(
        db.event_users()[0],
        event_user::Model { user_id: 1, event_id: 1, round: 1, joined_at: Some(at(250)), left_at: None }
    );
    assert_eq!(Query::get_event_user_count_by_id(&db, 1, 1), 1);
}

#[test]
fn leaving_marks_only_the_time_of_leaving() {
    let mut db = seeded(1, 1);
    Mutation::subscribe_to_events(&mut db, 1, &vec![1]).unwrap();
    Mutation::join_event_at(&mut db, 1, 1, at(100)).unwrap();
    assert_eq!(Mutation::leave_event_at(&mut db, 1, 1, at(300)), Ok(()));
    assert_eq!(Mutation::leave_event_at(&mut db, 1, 1, at(400)), Ok(()));
    assert_eq!(
        db.event_users(),
        &vec![event_user::Model {
            user_id: 1,
            event_id: 1,
            round: 1,
            joined_at: Some(at(100)),
            left_at: Some(at(400)),
        }]
    );
}

#[test]
fn attendance_is_marked_on_the_earliest_round_of_the_event() {
    let mut db = seeded(1, 1);
    Mutation::subscribe_to_events(&mut db, 1, &vec![1, 1]).unwrap();
    Mutation::join_event_at(&mut db, 1, 1, at(5)).unwrap();
    assert_eq!(db.event_users()[0].joined_at, Some(at(5)));
    assert_eq!(db.event_users()[1].joined_at, None);
    assert_eq!(Mutation::find_subscription(&db, 1, 1), Some(0));
    assert_eq!(Mutation::find_subscription(&db, 1, 2), None);
}

#[test]
fn join_reads_the_clock() {
    let mut db = seeded(1, 1);
    Mutation::subscribe_to_events(&mut db, 1, &vec![1]).unwrap();
    assert_eq!(Mutation::join_event(&mut db, 1, 1), Ok(()));
    let joined = db.event_users()[0].joined_at.unwrap();
    assert!(joined.seconds > 1_600_000_000);
    assert!(joined.nanos < 2_000_000_000);
    assert_eq!(db.event_users()[0].left_at, None);
    assert_eq!(Mutation::leave_event(&mut db, 1, 1), Ok(()));
    let left = db.event_users()[0].left_at.unwrap();
    assert!(left.seconds >= joined.seconds);
    assert_eq!(db.event_users()[0].joined_at, Some(joined));
}

#[test]
fn resubscribing_clears_attendance() {
    let mut db = seeded(1, 1);
    Mutation::subscribe_to_events(&mut db, 1, &vec![1]).unwrap();
    Mutation::join_event_at(&mut db, 1, 1, at(5)).unwrap();
    Mutation::subscribe_to_events(&mut db, 1, &vec![1]).unwrap();
    assert_eq!(db.event_users(), &vec![row(1, 1, 1)]);
}

#[test]
fn add_user_hands_out_identities_in_order() {
    let mut db = Store::new();
    let first = Mutation::add_user(&mut db, person("ada")).unwrap();
    let second = Mutation::add_user(&mut db, person("bob")).unwrap();
    assert_eq!(first.id, 1);
    assert_eq!(second.id, 2);
    assert_eq!(first.name, Some("ada".to_string()));
    assert_eq!(first.email, "ada@example.org");
    assert_eq!(first.section, 2);
    assert_eq!(first.class, Some("4B".to_string()));
    assert!(!first.admin);
    assert!(!first.interactive_done);
    assert_eq!(db.users(), &vec![first, second]);
}

#[test]
fn add_user_refuses_a_taken_email() {
    let mut db = Store::new();
    Mutation::add_user(&mut db, person("ada")).unwrap();
    let mut twin = person("eve");
    twin.email = "ada@example.org".to_string();
    assert_eq!(Mutation::add_user(&mut db, twin), Err(ServiceError::StoreUnavailable));
    assert_eq!(db.users().len(), 1);
    assert_eq!(db.find_user_by_email(&"ada@example.org".to_string()), Some(0));
    assert_eq!(db.find_user_by_email(&"eve@example.org".to_string()), None);
}
