use event_scheduler::entity::{event, event_user, round_max_users, user};
use event_scheduler::error::ServiceError;
use event_scheduler::store::{
    capacities_differ, capacities_known, emails_differ, events_in_order, position_of_event,
    position_of_user, rows_exclusive, rows_refer, users_in_order, Store,
};

fn an_event(id: i32) -> event::Model {
    event::Model {
        id,
        name: format!("event {id}"),
        room: "1".to_string(),
        zone: "A".to_string(),
        floor: "0".to_string(),
        minimum_section: 0,
    }
}

fn a_user(id: i32, email: &str) -> user::Model {
    user::Model {
        id,
        name: None,
        email: email.to_string(),
        interactive_done: false,
        section: 1,
        class: None,
        admin: false,
    }
}

fn a_row(user_id: i32, event_id: i32, round: i32) -> event_user::Model {
    event_user::Model { user_id, event_id, round, joined_at: None, left_at: None }
}

fn a_capacity(event_id: i32, round: i32) -> round_max_users::Model {
    round_max_users::Model { round, event_id, max_users: 10 }
}

#[test]
fn a_new_store_is_empty() {
    let db = Store::new();
    assert!(db.events().is_empty());
    assert!(db.users().is_empty());
    assert!(db.event_users().is_empty());
    assert!(db.round_max_users().is_empty());
}

#[test]
fn consistent_records_make_a_store() {
    let db = Store::from_records(
        vec![an_event(2), an_event(5)],
        vec![a_user(1, "a@x"), a_user(4, "b@x")],
        vec![a_row(4, 5, 1), a_row(1, 5, 1), a_row(4, 2, 2)],
        vec![a_capacity(2, 1), a_capacity(2, 2), a_capacity(5, 1)],
    )
    .unwrap();
    assert_eq!(db.events().len(), 2);
    assert_eq!(db.find_event(5), Some(1));
    assert_eq!(db.find_event(3), None);
    assert_eq!(db.find_user(4), Some(1));
    assert_eq!(db.find_user(2), None);
    assert_eq!(db.event_users(), &vec![a_row(4, 5, 1), a_row(1, 5, 1), a_row(4, 2, 2)]);
    let copy = db.clone();
    assert_eq!(copy.users(), db.users());
    assert_eq!(copy.round_max_users(), db.round_max_users());
}

#[test]
fn records_that_break_a_constraint_make_no_store() {
    let none = |events, users, rows, capacities| Store::from_records(events, users, rows, capacities).is_none();
    assert!(none(vec![an_event(2), an_event(2)], vec![], vec![], vec![]));
    assert!(none(vec![an_event(3), an_event(2)], vec![], vec![], vec![]));
    assert!(none(vec![an_event(0)], vec![], vec![], vec![]));
    assert!(none(vec![], vec![a_user(2, "a@x"), a_user(1, "b@x")], vec![], vec![]));
    assert!(none(vec![], vec![a_user(1, "a@x"), a_user(2, "a@x")], vec![], vec![]));
    assert!(none(vec![an_event(1)], vec![a_user(1, "a@x")], vec![a_row(1, 1, 1), a_row(1, 1, 1)], vec![]));
    assert!(none(vec![an_event(1)], vec![a_user(1, "a@x")], vec![a_row(2, 1, 1)], vec![]));
    assert!(none(vec![an_event(1)], vec![a_user(1, "a@x")], vec![a_row(1, 2, 1)], vec![]));
    assert!(none(vec![an_event(1)], vec![], vec![], vec![a_capacity(1, 1), a_capacity(1, 1)]));
    assert!(none(vec![an_event(1)], vec![], vec![], vec![a_capacity(2, 1)]));
}

#[test]
fn each_constraint_can_be_asked_alone() {
    assert!(events_in_order(&vec![an_event(1), an_event(2), an_event(9)]));
    assert!(!events_in_order(&vec![an_event(1), an_event(9), an_event(2)]));
    assert!(events_in_order(&vec![]));
    assert!(users_in_order(&vec![a_user(3, "a"), a_user(4, "b")]));
    assert!(!users_in_order(&vec![a_user(-1, "a")]));
    assert!(emails_differ(&vec![a_user(1, "a"), a_user(2, "b"), a_user(3, "c")]));
    assert!(!emails_differ(&vec![a_user(1, "a"), a_user(2, "b"), a_user(3, "a")]));
    assert!(rows_exclusive(&vec![a_row(1, 1, 1), a_row(1, 1, 2), a_row(2, 1, 1)]));
    assert!(!rows_exclusive(&vec![a_row(1, 1, 1), a_row(2, 1, 1), a_row(1, 2, 1)]));
    assert!(rows_refer(&vec![a_row(1, 2, 1)], &vec![a_user(1, "a")], &vec![an_event(2)]));
    assert!(!rows_refer(&vec![a_row(1, 2, 1)], &vec![a_user(1, "a")], &vec![an_event(1)]));
    assert!(capacities_differ(&vec![a_capacity(1, 1), a_capacity(1, 2), a_capacity(2, 1)]));
    assert!(!capacities_differ(&vec![a_capacity(1, 1), a_capacity(2, 1), a_capacity(1, 1)]));
    assert!(capacities_known(&vec![a_capacity(1, 1)], &vec![an_event(1)]));
    assert!(!capacities_known(&vec![a_capacity(1, 1)], &vec![an_event(4)]));
    assert_eq!(position_of_event(&vec![an_event(3), an_event(6)], 6), Some(1));
    assert_eq!(position_of_event(&vec![an_event(3), an_event(6)], 4), None);
    assert_eq!(position_of_user(&vec![a_user(3, "a")], 3), Some(0));
    assert_eq!(position_of_user(&vec![a_user(3, "a")], 1), None);
}

#[test]
fn events_get_the_identity_after_the_last() {
    let mut db = Store::from_records(vec![an_event(4)], vec![], vec![], vec![]).unwrap();
    let id = db.insert_event("n".to_string(), "r".to_string(), "z".to_string(), "f".to_string(), 2);
    assert_eq!(id, Ok(5));
    assert_eq!(
        db.events()[1],
        event::Model {
            id: 5,
            name: "n".to_string(),
            room: "r".to_string(),
            zone: "z".to_string(),
            floor: "f".to_string(),
            minimum_section: 2,
        }
    );
}

#[test]
fn identities_run_out_at_the_largest_number() {
    let mut db =
        Store::from_records(vec![an_event(i32::MAX)], vec![a_user(i32::MAX, "a@x")], vec![], vec![]).unwrap();
    assert_eq!(
        db.insert_event("n".to_string(), "r".to_string(), "z".to_string(), "f".to_string(), 2),
        Err(ServiceError::StoreUnavailable)
    );
    assert_eq!(
        db.insert_user(None, "b@x".to_string(), 1, None, false),
        Err(ServiceError::StoreUnavailable)
    );
    assert_eq!(db.events().len(), 1);
    assert_eq!(db.users().len(), 1);
}

#[test]
fn a_capacity_needs_its_event_and_a_free_round() {
    let mut db = Store::from_records(vec![an_event(1)], vec![], vec![], vec![]).unwrap();
    assert_eq!(db.insert_round_max_users(a_capacity(1, 1)), Ok(()));
    assert_eq!(db.insert_round_max_users(a_capacity(1, 2)), Ok(()));
    assert_eq!(db.insert_round_max_users(a_capacity(1, 1)), Err(ServiceError::StoreUnavailable));
    assert_eq!(db.insert_round_max_users(a_capacity(2, 1)), Err(ServiceError::StoreUnavailable));
    assert_eq!(db.round_max_users(), &vec![a_capacity(1, 1), a_capacity(1, 2)]);
}

#[test]
fn clearing_the_events_keeps_the_users() {
    let mut db = Store::from_records(
        vec![an_event(1)],
        vec![a_user(1, "a@x")],
        vec![a_row(1, 1, 1)],
        vec![a_capacity(1, 1)],
    )
    .unwrap();
    db.clear_events();
    assert!(db.events().is_empty() && db.event_users().is_empty() && db.round_max_users().is_empty());
    assert_eq!(db.users(), &vec![a_user(1, "a@x")]);
    db.clear_users();
    assert!(db.users().is_empty());
}
