//! The questions that the store answers: events, subscriber counts and the
//! attendance of an event.

use vstd::prelude::*;
use crate::entity::{event, event_user, user};
use crate::entity::user::copy_text;
use crate::store::{event_ids_ascending, has_user, Store};
use crate::time::Timestamp;

verus! {

/// A user subscribed to an event, with the marks of attendance.
#[derive(Debug, PartialEq, Eq)]
pub struct EventUserStatus {
    pub id: i32,
    pub name: Option<String>,
    pub email: String,
    pub section: i32,
    pub class: Option<String>,
    pub joined_at: Option<Timestamp>,
    pub left_at: Option<Timestamp>,
}

/// The number of users subscribed to an event in a round. This is what goes
/// out to the observers.
#[derive(Clone, Copy, Debug, PartialEq, Eq, Structural)]
pub struct EventCounterStatus {
    pub event_id: i32,
    pub round: i32,
    pub count: u64,
}

/// The rows for `event_id` in `round`.
pub open spec fn in_event_round(event_id: i32, round: i32) -> spec_fn(event_user::Model) -> bool {
    |row: event_user::Model| row.event_id == event_id && row.round == round
}

/// The number of subscriptions to `event_id` in `round`. It is derived from
/// the rows each time; attendance does not enter into it.
pub open spec fn subscriber_count(rows: Seq<event_user::Model>, event_id: i32, round: i32) -> nat {
    rows.filter(in_event_round(event_id, round)).len()
}

/// The count of the event that a request names at position `k`, in the
/// round that the request takes it for.
pub open spec fn requested_count(
    rows: Seq<event_user::Model>,
    event_ids: Seq<i32>,
    k: int,
) -> EventCounterStatus {
    EventCounterStatus {
        event_id: event_ids[k],
        round: (k + 1) as i32,
        count: subscriber_count(rows, event_ids[k], (k + 1) as i32) as u64,
    }
}

/// The position of the user with identity `id`.
pub open spec fn user_position(users: Seq<user::Model>, id: i32) -> int {
    choose|i: int| 0 <= i < users.len() && (#[trigger] users[i]).id == id
}

/// What is shown of a subscription: the subscriber and the marks of
/// attendance.
pub open spec fn status_of(users: Seq<user::Model>) -> spec_fn(
    event_user::Model,
) -> EventUserStatus {
    |row: event_user::Model|
        {
            let subscriber = users[user_position(users, row.user_id)];
            EventUserStatus {
                id: subscriber.id,
                name: subscriber.name,
                email: subscriber.email,
                section: subscriber.section,
                class: subscriber.class,
                joined_at: row.joined_at,
                left_at: row.left_at,
            }
        }
}

/// The questions that the store answers.
pub struct Query;

impl Query {
    /// All events, in the order of their identities.
    pub fn get_all_events(db: &Store) -> (events: Vec<event::Model>)
        ensures
            events@ == db@.events,
            event_ids_ascending(events@),
    {
        proof {
            use_type_invariant(db);
            db.lemma_valid();
        }
        let events = db.events().clone();
        assert(events@ =~= db@.events);
        events
    }

    /// The number of users subscribed to an event in a round.
    pub fn get_event_user_count_by_id(db: &Store, event_id: i32, round: i32) -> (count: u64)
        ensures
            count == subscriber_count(db@.event_users, event_id, round),
    {
        let rows = db.event_users();
        let mut count: u64 = 0;
        let mut i: usize = 0;
        while i < rows.len()
            invariant
                i <= rows.len(),
                count == subscriber_count(rows@.take(i as int), event_id, round),
                count <= i,
            decreases rows.len() - i,
        {
            proof {
                reveal(Seq::filter);
                assert(rows@.take(i + 1).drop_last() == rows@.take(i as int));
            }
            if rows[i].event_id == event_id && rows[i].round == round {
                count += 1;
            }
            i += 1;
        }
        proof {
            assert(rows@.take(rows@.len() as int) == rows@);
        }
        count
    }

    /// The counts for the events of a request: the event at position `k` is
    /// counted in round `k + 1`, the round that the request takes it for.
    pub fn get_events_user_count_by_ids(db: &Store, event_ids: Vec<i32>) -> (counts: Vec<
        EventCounterStatus,
    >)
        requires
            event_ids.len() <= i32::MAX,
        ensures
            counts@.len() == event_ids@.len(),
            forall|k: int|
                0 <= k < event_ids@.len() ==> #[trigger] counts@[k] == requested_count(
                    db@.event_users,
                    event_ids@,
                    k,
                ),
    {
        let mut counts: Vec<EventCounterStatus> = Vec::with_capacity(event_ids.len());
        let mut k: usize = 0;
        while k < event_ids.len()
            invariant
                k <= event_ids.len() <= i32::MAX,
                counts@.len() == k,
                forall|i: int|
                    0 <= i < k ==> #[trigger] counts@[i] == requested_count(
                        db@.event_users,
                        event_ids@,
                        i,
                    ),
            decreases event_ids.len() - k,
        {
            let event_id = event_ids[k];
            let round = (k + 1) as i32;
            let count = Self::get_event_user_count_by_id(db, event_id, round);
            counts.push(EventCounterStatus { event_id, round, count });
            k += 1;
        }
        counts
    }

    /// The users subscribed to an event in a round, in the order of the
    /// store, each with the marks of attendance.
    pub fn event_users_status(db: &Store, event_id: i32, round: i32) -> (statuses: Vec<
        EventUserStatus,
    >)
        ensures
            statuses@ == db@.event_users.filter(in_event_round(event_id, round)).map_values(
                status_of(db@.users),
            ),
            statuses@.len() == subscriber_count(db@.event_users, event_id, round),
    {
        proof {
            use_type_invariant(db);
            db.lemma_valid();
        }
        let rows = db.event_users();
        let users = db.users();
        let mut statuses: Vec<EventUserStatus> = Vec::new();
        let mut i: usize = 0;
        while i < rows.len()
            invariant
                i <= rows.len(),
                rows@ == db@.event_users,
                users@ == db@.users,
                db@.valid(),
                statuses@ == rows@.take(i as int).filter(
                    in_event_round(event_id, round),
                ).map_values(status_of(users@)),
            decreases rows.len() - i,
        {
            let row = rows[i];
            proof {
                reveal(Seq::filter);
                assert(rows@.take(i + 1).drop_last() == rows@.take(i as int));
            }
            if row.event_id == event_id && row.round == round {
                let found = db.find_user(row.user_id);
                assert(has_user(users@, rows@[i as int].user_id));
                let subscriber = &users[found.unwrap()];
                proof {
                    let p = user_position(users@, row.user_id);
                    assert(users@[p].id == users@[found.unwrap() as int].id);
                    assert(p == found.unwrap());
                    let kept = rows@.take(i as int).filter(in_event_round(event_id, round));
                    assert(kept.push(row).map_values(status_of(users@)) == kept.map_values(
                        status_of(users@),
                    ).push(status_of(users@)(row)));
                }
                statuses.push(
                    EventUserStatus {
                        id: subscriber.id,
                        name: copy_text(&subscriber.name),
                        email: subscriber.email.clone(),
                        section: subscriber.section,
                        class: copy_text(&subscriber.class),
                        joined_at: row.joined_at,
                        left_at: row.left_at,
                    },
                );
            }
            i += 1;
        }
        proof {
            assert(rows@.take(rows@.len() as int) == rows@);
        }
        statuses
    }
}

} // verus!
