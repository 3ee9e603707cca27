//! The capacity store: events, users, round capacities and subscriptions,
//! with the constraints that keep them consistent.

use vstd::prelude::*;
use crate::entity::{event, event_user, round_max_users, user};
use crate::error::ServiceError;

verus! {

/// The contents of a store, as the contracts see them.
pub struct StoreView {
    pub events: Seq<event::Model>,
    pub users: Seq<user::Model>,
    pub event_users: Seq<event_user::Model>,
    pub round_max_users: Seq<round_max_users::Model>,
}

/// Whether some event carries the identity `id`.
pub open spec fn has_event(events: Seq<event::Model>, id: i32) -> bool {
    exists|i: int| 0 <= i < events.len() && (#[trigger] events[i]).id == id
}

/// Whether some user carries the identity `id`.
pub open spec fn has_user(users: Seq<user::Model>, id: i32) -> bool {
    exists|i: int| 0 <= i < users.len() && (#[trigger] users[i]).id == id
}

/// Whether some user has the email address `email`.
pub open spec fn has_email(users: Seq<user::Model>, email: Seq<char>) -> bool {
    exists|i: int| 0 <= i < users.len() && (#[trigger] users[i]).email@ == email
}

/// Whether a capacity is recorded for `event_id` in `round`.
pub open spec fn has_capacity(
    capacities: Seq<round_max_users::Model>,
    event_id: i32,
    round: i32,
) -> bool {
    exists|i: int|
        0 <= i < capacities.len() && (#[trigger] capacities[i]).event_id == event_id
            && capacities[i].round == round
}

/// Event identities start at 1 and grow along the sequence.
pub open spec fn event_ids_ascending(events: Seq<event::Model>) -> bool {
    &&& forall|i: int| 0 <= i < events.len() ==> (#[trigger] events[i]).id >= 1
    &&& forall|i: int, j: int|
        0 <= i < j < events.len() ==> (#[trigger] events[i]).id < (#[trigger] events[j]).id
}

/// User identities start at 1 and grow along the sequence.
pub open spec fn user_ids_ascending(users: Seq<user::Model>) -> bool {
    &&& forall|i: int| 0 <= i < users.len() ==> (#[trigger] users[i]).id >= 1
    &&& forall|i: int, j: int|
        0 <= i < j < users.len() ==> (#[trigger] users[i]).id < (#[trigger] users[j]).id
}

/// No two users share an email address.
pub open spec fn emails_distinct(users: Seq<user::Model>) -> bool {
    forall|i: int, j: int|
        0 <= i < j < users.len() ==> (#[trigger] users[i]).email@ != (#[trigger] users[j]).email@
}

/// No user holds two subscriptions in one round.
pub open spec fn exclusive(rows: Seq<event_user::Model>) -> bool {
    forall|i: int, j: int|
        0 <= i < j < rows.len() ==> !((#[trigger] rows[i]).user_id == (#[trigger] rows[j]).user_id
            && rows[i].round == rows[j].round)
}

/// Every subscription names a user and an event that exist.
pub open spec fn subscriptions_refer(
    rows: Seq<event_user::Model>,
    users: Seq<user::Model>,
    events: Seq<event::Model>,
) -> bool {
    forall|i: int|
        0 <= i < rows.len() ==> has_user(users, (#[trigger] rows[i]).user_id) && has_event(
            events,
            rows[i].event_id,
        )
}

/// No event has two capacities for one round.
pub open spec fn capacities_keyed(capacities: Seq<round_max_users::Model>) -> bool {
    forall|i: int, j: int|
        0 <= i < j < capacities.len() ==> !((#[trigger] capacities[i]).event_id == (
        #[trigger] capacities[j]).event_id && capacities[i].round == capacities[j].round)
}

/// Every capacity names an event that exists.
pub open spec fn capacities_refer(
    capacities: Seq<round_max_users::Model>,
    events: Seq<event::Model>,
) -> bool {
    forall|i: int|
        0 <= i < capacities.len() ==> has_event(events, (#[trigger] capacities[i]).event_id)
}

/// The identity that the next new event gets.
pub open spec fn next_event_id(events: Seq<event::Model>) -> int {
    if events.len() == 0 {
        1
    } else {
        events.last().id + 1
    }
}

/// The identity that the next new user gets.
pub open spec fn next_user_id(users: Seq<user::Model>) -> int {
    if users.len() == 0 {
        1
    } else {
        users.last().id + 1
    }
}

impl StoreView {
    /// The constraints that every store keeps.
    pub open spec fn valid(self) -> bool {
        &&& event_ids_ascending(self.events)
        &&& user_ids_ascending(self.users)
        &&& emails_distinct(self.users)
        &&& exclusive(self.event_users)
        &&& subscriptions_refer(self.event_users, self.users, self.events)
        &&& capacities_keyed(self.round_max_users)
        &&& capacities_refer(self.round_max_users, self.events)
    }
}

/// The position of the event with identity `id` among `events`, if there is
/// one.
pub fn position_of_event(events: &Vec<event::Model>, id: i32) -> (found: Option<usize>)
    ensures
        match found {
            Some(i) => i < events@.len() && events@[i as int].id == id,
            None => !has_event(events@, id),
        },
{
    let mut i: usize = 0;
    while i < events.len()
        invariant
            i <= events.len(),
            forall|k: int| 0 <= k < i ==> (#[trigger] events@[k]).id != id,
        decreases events.len() - i,
    {
        if events[i].id == id {
            return Some(i);
        }
        i += 1;
    }
    None
}

/// The position of the user with identity `id` among `users`, if there is
/// one.
pub fn position_of_user(users: &Vec<user::Model>, id: i32) -> (found: Option<usize>)
    ensures
        match found {
            Some(i) => i < users@.len() && users@[i as int].id == id,
            None => !has_user(users@, id),
        },
{
    let mut i: usize = 0;
    while i < users.len()
        invariant
            i <= users.len(),
            forall|k: int| 0 <= k < i ==> (#[trigger] users@[k]).id != id,
        decreases users.len() - i,
    {
        if users[i].id == id {
            return Some(i);
        }
        i += 1;
    }
    None
}

/// Whether the identities of `events` start at 1 or above and grow.
pub fn events_in_order(events: &Vec<event::Model>) -> (ok: bool)
    ensures
        ok == event_ids_ascending(events@),
{
    let mut i: usize = 0;
    while i < events.len()
        invariant
            i <= events.len(),
            event_ids_ascending(events@.take(i as int)),
        decreases events.len() - i,
    {
        if events[i].id < 1 {
            return false;
        }
        if i > 0 && events[i - 1].id >= events[i].id {
            assert(!(events@[i - 1].id < events@[i as int].id));
            return false;
        }
        proof {
            let seen = events@.take(i + 1);
            assert forall|a: int, b: int| 0 <= a < b < seen.len() implies (#[trigger] seen[a]).id < (
            #[trigger] seen[b]).id by {
                if b == i && a < i - 1 {
                    assert(events@.take(i as int)[a].id < events@.take(i as int)[i - 1].id);
                } else if b < i {
                    assert(events@.take(i as int)[a].id < events@.take(i as int)[b].id);
                }
            }
            assert forall|a: int| 0 <= a < seen.len() implies (#[trigger] seen[a]).id >= 1 by {
                if a < i {
                    assert(events@.take(i as int)[a].id >= 1);
                }
            }
        }
        i += 1;
    }
    proof {
        assert(events@.take(events@.len() as int) == events@);
    }
    true
}

/// Whether the identities of `users` start at 1 or above and grow.
pub fn users_in_order(users: &Vec<user::Model>) -> (ok: bool)
    ensures
        ok == user_ids_ascending(users@),
{
    let mut i: usize = 0;
    while i < users.len()
        invariant
            i <= users.len(),
            user_ids_ascending(users@.take(i as int)),
        decreases users.len() - i,
    {
        if users[i].id < 1 {
            return false;
        }
        if i > 0 && users[i - 1].id >= users[i].id {
            assert(!(users@[i - 1].id < users@[i as int].id));
            return false;
        }
        proof {
            let seen = users@.take(i + 1);
            assert forall|a: int, b: int| 0 <= a < b < seen.len() implies (#[trigger] seen[a]).id < (
            #[trigger] seen[b]).id by {
                if b == i && a < i - 1 {
                    assert(users@.take(i as int)[a].id < users@.take(i as int)[i - 1].id);
                } else if b < i {
                    assert(users@.take(i as int)[a].id < users@.take(i as int)[b].id);
                }
            }
            assert forall|a: int| 0 <= a < seen.len() implies (#[trigger] seen[a]).id >= 1 by {
                if a < i {
                    assert(users@.take(i as int)[a].id >= 1);
                }
            }
        }
        i += 1;
    }
    proof {
        assert(users@.take(users@.len() as int) == users@);
    }
    true
}

/// Whether no two of `users` share an email address.
pub fn emails_differ(users: &Vec<user::Model>) -> (ok: bool)
    ensures
        ok == emails_distinct(users@),
{
    let mut j: usize = 0;
    while j < users.len()
        invariant
            j <= users.len(),
            forall|a: int, b: int|
                0 <= a < b < j ==> (#[trigger] users@[a]).email@ != (#[trigger] users@[b]).email@,
        decreases users.len() - j,
    {
        let mut i: usize = 0;
        while i < j
            invariant
                i <= j < users.len(),
                forall|a: int| 0 <= a < i ==> (#[trigger] users@[a]).email@ != users@[j as int].email@,
            decreases j - i,
        {
            if users[i].email == users[j].email {
                return false;
            }
            i += 1;
        }
        j += 1;
    }
    true
}

/// Whether no user holds two of `rows` in one round.
pub fn rows_exclusive(rows: &Vec<event_user::Model>) -> (ok: bool)
    ensures
        ok == exclusive(rows@),
{
    let mut j: usize = 0;
    while j < rows.len()
        invariant
            j <= rows.len(),
            forall|a: int, b: int|
                0 <= a < b < j ==> !((#[trigger] rows@[a]).user_id == (#[trigger] rows@[b]).user_id
                    && rows@[a].round == rows@[b].round),
        decreases rows.len() - j,
    {
        let mut i: usize = 0;
        while i < j
            invariant
                i <= j < rows.len(),
                forall|a: int|
                    0 <= a < i ==> !((#[trigger] rows@[a]).user_id == rows@[j as int].user_id
                        && rows@[a].round == rows@[j as int].round),
            decreases j - i,
        {
            if rows[i].user_id == rows[j].user_id && rows[i].round == rows[j].round {
                return false;
            }
            i += 1;
        }
        j += 1;
    }
    true
}

/// Whether every one of `rows` names a user and an event that exist.
pub fn rows_refer(
    rows: &Vec<event_user::Model>,
    users: &Vec<user::Model>,
    events: &Vec<event::Model>,
) -> (ok: bool)
    ensures
        ok == subscriptions_refer(rows@, users@, events@),
{
    let mut i: usize = 0;
    while i < rows.len()
        invariant
            i <= rows.len(),
            forall|k: int|
                0 <= k < i ==> has_user(users@, (#[trigger] rows@[k]).user_id) && has_event(
                    events@,
                    rows@[k].event_id,
                ),
        decreases rows.len() - i,
    {
        if position_of_user(users, rows[i].user_id).is_none() || position_of_event(
            events,
            rows[i].event_id,
        ).is_none() {
            assert(!(has_user(users@, rows@[i as int].user_id) && has_event(
                events@,
                rows@[i as int].event_id,
            )));
            return false;
        }
        i += 1;
    }
    true
}

/// Whether no event has two of `capacities` for one round.
pub fn capacities_differ(capacities: &Vec<round_max_users::Model>) -> (ok: bool)
    ensures
        ok == capacities_keyed(capacities@),
{
    let mut j: usize = 0;
    while j < capacities.len()
        invariant
            j <= capacities.len(),
            forall|a: int, b: int|
                0 <= a < b < j ==> !((#[trigger] capacities@[a]).event_id == (
                #[trigger] capacities@[b]).event_id && capacities@[a].round
                    == capacities@[b].round),
        decreases capacities.len() - j,
    {
        let mut i: usize = 0;
        while i < j
            invariant
                i <= j < capacities.len(),
                forall|a: int|
                    0 <= a < i ==> !((#[trigger] capacities@[a]).event_id
                        == capacities@[j as int].event_id && capacities@[a].round
                        == capacities@[j as int].round),
            decreases j - i,
        {
            if capacities[i].event_id == capacities[j].event_id && capacities[i].round
                == capacities[j].round {
                return false;
            }
            i += 1;
        }
        j += 1;
    }
    true
}

/// Whether every one of `capacities` names an event that exists.
pub fn capacities_known(
    capacities: &Vec<round_max_users::Model>,
    events: &Vec<event::Model>,
) -> (ok: bool)
    ensures
        ok == capacities_refer(capacities@, events@),
{
    let mut i: usize = 0;
    while i < capacities.len()
        invariant
            i <= capacities.len(),
            forall|k: int|
                0 <= k < i ==> has_event(events@, (#[trigger] capacities@[k]).event_id),
        decreases capacities.len() - i,
    {
        if position_of_event(events, capacities[i].event_id).is_none() {
            assert(!has_event(events@, capacities@[i as int].event_id));
            return false;
        }
        i += 1;
    }
    true
}

/// The store, held in memory. Its records can be read by anyone and changed
/// only through operations that keep the constraints of [`StoreView::valid`].
pub struct Store {
    events: Vec<event::Model>,
    users: Vec<user::Model>,
    event_users: Vec<event_user::Model>,
    round_max_users: Vec<round_max_users::Model>,
}

impl View for Store {
    type V = StoreView;

    closed spec fn view(&self) -> StoreView {
        StoreView {
            events: self.events@,
            users: self.users@,
            event_users: self.event_users@,
            round_max_users: self.round_max_users@,
        }
    }
}

impl Clone for Store {
    fn clone(&self) -> (copy: Self)
        ensures
            copy@ == self@,
    {
        proof {
            use_type_invariant(self);
        }
        let events = self.events.clone();
        let users = self.users.clone();
        let event_users = self.event_users.clone();
        let round_max_users = self.round_max_users.clone();
        proof {
            assert(events@ =~= self.events@);
            assert(users@ =~= self.users@);
            assert(event_users@ =~= self.event_users@);
            assert(round_max_users@ =~= self.round_max_users@);
        }
        Store { events, users, event_users, round_max_users }
    }
}

impl Store {
    /// The constraints, as a property of the store itself.
    #[verifier::type_invariant]
    pub closed spec fn consistent(&self) -> bool {
        self@.valid()
    }

    /// A store with no records.
    pub fn new() -> (db: Store)
        ensures
            db@ == Store::empty_view(),
            db@.valid(),
    {
        Store {
            events: Vec::new(),
            users: Vec::new(),
            event_users: Vec::new(),
            round_max_users: Vec::new(),
        }
    }

    /// A store with the given records, if they keep the constraints.
    pub fn from_records(
        events: Vec<event::Model>,
        users: Vec<user::Model>,
        event_users: Vec<event_user::Model>,
        round_max_users: Vec<round_max_users::Model>,
    ) -> (db: Option<Store>)
        ensures
            db is Some <==> (StoreView {
                events: events@,
                users: users@,
                event_users: event_users@,
                round_max_users: round_max_users@,
            }).valid(),
            db matches Some(store) ==> store@ == (StoreView {
                events: events@,
                users: users@,
                event_users: event_users@,
                round_max_users: round_max_users@,
            }),
    {
        if events_in_order(&events) && users_in_order(&users) && emails_differ(&users)
            && rows_exclusive(&event_users) && rows_refer(&event_users, &users, &events)
            && capacities_differ(&round_max_users) && capacities_known(&round_max_users, &events) {
            Some(Store { events, users, event_users, round_max_users })
        } else {
            None
        }
    }

    /// Removes all events and, with them, all round capacities and all
    /// subscriptions. The users stay.
    pub fn clear_events(&mut self)
        ensures
            final(self)@ == (StoreView {
                events: Seq::empty(),
                event_users: Seq::empty(),
                round_max_users: Seq::empty(),
                ..old(self)@
            }),
    {
        let Store { events: _, users, event_users: _, round_max_users: _ } = self.take();
        *self = Store {
            events: Vec::new(),
            users,
            event_users: Vec::new(),
            round_max_users: Vec::new(),
        };
    }

    /// Removes all users and, with them, all subscriptions. The events and
    /// their capacities stay.
    pub fn clear_users(&mut self)
        ensures
            final(self)@ == (StoreView {
                users: Seq::empty(),
                event_users: Seq::empty(),
                ..old(self)@
            }),
    {
        let Store { events, users: _, event_users: _, round_max_users } = self.take();
        *self = Store { events, users: Vec::new(), event_users: Vec::new(), round_max_users };
    }

    /// The constraints hold of every store that a program holds.
    pub proof fn lemma_valid(&self)
        requires
            self.consistent(),
        ensures
            self@.valid(),
    {
    }

    /// Moves the records out and leaves an empty store behind.
    fn take(&mut self) -> (taken: Store)
        ensures
            taken@ == old(self)@,
            taken@.valid(),
            final(self)@ == Store::empty_view(),
    {
        proof {
            use_type_invariant(&*self);
        }
        let mut taken = Store::new();
        core::mem::swap(self, &mut taken);
        taken
    }

    /// The contents of a store without records.
    pub open spec fn empty_view() -> StoreView {
        StoreView {
            events: Seq::empty(),
            users: Seq::empty(),
            event_users: Seq::empty(),
            round_max_users: Seq::empty(),
        }
    }

    /// The position of the event with identity `id`, if there is one.
    pub fn find_event(&self, id: i32) -> (found: Option<usize>)
        ensures
            match found {
                Some(i) => i < self@.events.len() && self@.events[i as int].id == id,
                None => !has_event(self@.events, id),
            },
    {
        position_of_event(&self.events, id)
    }

    /// The position of the user with identity `id`, if there is one.
    pub fn find_user(&self, id: i32) -> (found: Option<usize>)
        ensures
            match found {
                Some(i) => i < self@.users.len() && self@.users[i as int].id == id,
                None => !has_user(self@.users, id),
            },
    {
        position_of_user(&self.users, id)
    }

    /// The position of the user with the email address `email`, if there is
    /// one.
    pub fn find_user_by_email(&self, email: &String) -> (found: Option<usize>)
        ensures
            match found {
                Some(i) => i < self@.users.len() && self@.users[i as int].email@ == email@,
                None => !has_email(self@.users, email@),
            },
    {
        let mut i: usize = 0;
        while i < self.users.len()
            invariant
                i <= self.users.len(),
                forall|k: int| 0 <= k < i ==> (#[trigger] self.users@[k]).email@ != email@,
            decreases self.users.len() - i,
        {
            if self.users[i].email == *email {
                return Some(i);
            }
            i += 1;
        }
        None
    }

    /// The position of the capacity of `event_id` in `round`, if one is
    /// recorded.
    pub fn find_capacity(&self, event_id: i32, round: i32) -> (found: Option<usize>)
        ensures
            match found {
                Some(i) => i < self@.round_max_users.len()
                    && self@.round_max_users[i as int].event_id == event_id
                    && self@.round_max_users[i as int].round == round,
                None => !has_capacity(self@.round_max_users, event_id, round),
            },
    {
        let mut i: usize = 0;
        while i < self.round_max_users.len()
            invariant
                i <= self.round_max_users.len(),
                forall|k: int|
                    0 <= k < i ==> !((#[trigger] self.round_max_users@[k]).event_id == event_id
                        && self.round_max_users@[k].round == round),
            decreases self.round_max_users.len() - i,
        {
            if self.round_max_users[i].event_id == event_id && self.round_max_users[i].round
                == round {
                return Some(i);
            }
            i += 1;
        }
        None
    }

    /// Records a new event under the next free identity and returns that
    /// identity. The store refuses when the identities are used up.
    pub fn insert_event(
        &mut self,
        name: String,
        room: String,
        zone: String,
        floor: String,
        minimum_section: i32,
    ) -> (outcome: Result<i32, ServiceError>)
        ensures
            match outcome {
                Ok(id) => {
                    &&& id == next_event_id(old(self)@.events)
                    &&& final(self)@ == (StoreView {
                        events: old(self)@.events.push(
                            event::Model { id, name, room, zone, floor, minimum_section },
                        ),
                        ..old(self)@
                    })
                },
                Err(e) => {
                    &&& e == ServiceError::StoreUnavailable
                    &&& next_event_id(old(self)@.events) > i32::MAX
                    &&& final(self)@ == old(self)@
                },
            },
    {
        proof {
            use_type_invariant(&*self);
        }
        let count = self.events.len();
        let id: i32 = if count == 0 {
            1
        } else {
            let last = self.events[count - 1].id;
            if last == i32::MAX {
                return Err(ServiceError::StoreUnavailable);
            }
            last + 1
        };
        let ghost before = self@;
        let record = event::Model { id, name, room, zone, floor, minimum_section };
        proof {
            let after = before.events.push(record);
            assert forall|i: int| 0 <= i < before.event_users.len() implies has_event(
                after,
                (#[trigger] before.event_users[i]).event_id,
            ) by {
                let k = choose|k: int|
                    0 <= k < before.events.len() && (#[trigger] before.events[k]).id
                        == before.event_users[i].event_id;
                assert(after[k].id == before.event_users[i].event_id);
            }
            assert forall|i: int| 0 <= i < before.round_max_users.len() implies has_event(
                after,
                (#[trigger] before.round_max_users[i]).event_id,
            ) by {
                let k = choose|k: int|
                    0 <= k < before.events.len() && (#[trigger] before.events[k]).id
                        == before.round_max_users[i].event_id;
                assert(after[k].id == before.round_max_users[i].event_id);
            }
        }
        let Store { mut events, users, event_users, round_max_users } = self.take();
        events.push(record);
        *self = Store { events, users, event_users, round_max_users };
        Ok(id)
    }

    /// Records a new user under the next free identity and returns the
    /// record. The store refuses when the email address is taken or the
    /// identities are used up.
    pub fn insert_user(
        &mut self,
        name: Option<String>,
        email: String,
        section: i32,
        class: Option<String>,
        admin: bool,
    ) -> (outcome: Result<user::Model, ServiceError>)
        ensures
            match outcome {
                Ok(record) => {
                    &&& !has_email(old(self)@.users, email@)
                    &&& record == (user::Model {
                        id: next_user_id(old(self)@.users) as i32,
                        name,
                        email,
                        interactive_done: false,
                        section,
                        class,
                        admin,
                    })
                    &&& next_user_id(old(self)@.users) <= i32::MAX
                    &&& final(self)@ == (StoreView {
                        users: old(self)@.users.push(record),
                        ..old(self)@
                    })
                },
                Err(e) => {
                    &&& e == ServiceError::StoreUnavailable
                    &&& has_email(old(self)@.users, email@) || next_user_id(old(self)@.users)
                        > i32::MAX
                    &&& final(self)@ == old(self)@
                },
            },
    {
        proof {
            use_type_invariant(&*self);
        }
        if self.find_user_by_email(&email).is_some() {
            return Err(ServiceError::StoreUnavailable);
        }
        let count = self.users.len();
        let id: i32 = if count == 0 {
            1
        } else {
            let last = self.users[count - 1].id;
            if last == i32::MAX {
                return Err(ServiceError::StoreUnavailable);
            }
            last + 1
        };
        let ghost before = self@;
        let record = user::Model { id, name, email, interactive_done: false, section, class, admin };
        let copy = record.clone();
        proof {
            let after = before.users.push(record);
            assert forall|i: int| 0 <= i < before.event_users.len() implies has_user(
                after,
                (#[trigger] before.event_users[i]).user_id,
            ) by {
                let k = choose|k: int|
                    0 <= k < before.users.len() && (#[trigger] before.users[k]).id
                        == before.event_users[i].user_id;
                assert(after[k].id == before.event_users[i].user_id);
            }
        }
        let Store { events, mut users, event_users, round_max_users } = self.take();
        users.push(record);
        *self = Store { events, users, event_users, round_max_users };
        Ok(copy)
    }

    /// Records the capacity of an event in a round. The store refuses when
    /// the event does not exist or already has a capacity for that round.
    pub fn insert_round_max_users(&mut self, capacity: round_max_users::Model) -> (outcome: Result<
        (),
        ServiceError,
    >)
        ensures
            match outcome {
                Ok(()) => {
                    &&& has_event(old(self)@.events, capacity.event_id)
                    &&& !has_capacity(old(self)@.round_max_users, capacity.event_id, capacity.round)
                    &&& final(self)@ == (StoreView {
                        round_max_users: old(self)@.round_max_users.push(capacity),
                        ..old(self)@
                    })
                },
                Err(e) => {
                    &&& e == ServiceError::StoreUnavailable
                    &&& !has_event(old(self)@.events, capacity.event_id) || has_capacity(
                        old(self)@.round_max_users,
                        capacity.event_id,
                        capacity.round,
                    )
                    &&& final(self)@ == old(self)@
                },
            },
    {
        proof {
            use_type_invariant(&*self);
        }
        if self.find_event(capacity.event_id).is_none() {
            return Err(ServiceError::StoreUnavailable);
        }
        if self.find_capacity(capacity.event_id, capacity.round).is_some() {
            return Err(ServiceError::StoreUnavailable);
        }
        let Store { events, users, event_users, mut round_max_users } = self.take();
        round_max_users.push(capacity);
        *self = Store { events, users, event_users, round_max_users };
        Ok(())
    }

    /// Puts `rows` in the place of all subscriptions.
    pub(crate) fn put_event_users(&mut self, rows: Vec<event_user::Model>)
        requires
            exclusive(rows@),
            subscriptions_refer(rows@, old(self)@.users, old(self)@.events),
        ensures
            final(self)@ == (StoreView { event_users: rows@, ..old(self)@ }),
    {
        proof {
            use_type_invariant(&*self);
        }
        self.event_users = rows;
    }

    /// Adds `rows` behind the subscriptions that are there.
    pub(crate) fn extend_event_users(&mut self, rows: Vec<event_user::Model>)
        requires
            exclusive(old(self)@.event_users + rows@),
            subscriptions_refer(rows@, old(self)@.users, old(self)@.events),
        ensures
            final(self)@ == (StoreView {
                event_users: old(self)@.event_users + rows@,
                ..old(self)@
            }),
    {
        let mut rows = rows;
        let Store { events, users, mut event_users, round_max_users } = self.take();
        event_users.append(&mut rows);
        *self = Store { events, users, event_users, round_max_users };
    }

    /// Writes `row` over the subscription at position `i`. The row keeps the
    /// user, the event and the round of the one it replaces.
    pub(crate) fn set_event_user(&mut self, i: usize, row: event_user::Model)
        requires
            i < old(self)@.event_users.len(),
            row.user_id == old(self)@.event_users[i as int].user_id,
            row.event_id == old(self)@.event_users[i as int].event_id,
            row.round == old(self)@.event_users[i as int].round,
        ensures
            final(self)@ == (StoreView {
                event_users: old(self)@.event_users.update(i as int, row),
                ..old(self)@
            }),
    {
        let Store { events, users, mut event_users, round_max_users } = self.take();
        let ghost before = event_users@;
        event_users.set(i, row);
        proof {
            let after = event_users@;
            assert forall|k: int| 0 <= k < after.len() implies has_user(
                users@,
                (#[trigger] after[k]).user_id,
            ) && has_event(events@, after[k].event_id) by {
                assert(after[k].user_id == before[k].user_id);
                assert(after[k].event_id == before[k].event_id);
            }
            assert forall|a: int, b: int| 0 <= a < b < after.len() implies !((
            #[trigger] after[a]).user_id == (#[trigger] after[b]).user_id && after[a].round
                == after[b].round) by {
                assert(after[a].user_id == before[a].user_id && after[a].round == before[a].round);
                assert(after[b].user_id == before[b].user_id && after[b].round == before[b].round);
            }
        }
        *self = Store { events, users, event_users, round_max_users };
    }

    /// The events, in the order of their identities.
    pub fn events(&self) -> (events: &Vec<event::Model>)
        ensures
            events@ == self@.events,
    {
        &self.events
    }

    /// The users, in the order of their identities.
    pub fn users(&self) -> (users: &Vec<user::Model>)
        ensures
            users@ == self@.users,
    {
        &self.users
    }

    /// The subscriptions, in the order in which the store keeps them.
    pub fn event_users(&self) -> (rows: &Vec<event_user::Model>)
        ensures
            rows@ == self@.event_users,
    {
        &self.event_users
    }

    /// The round capacities, in the order in which they were recorded.
    pub fn round_max_users(&self) -> (capacities: &Vec<round_max_users::Model>)
        ensures
            capacities@ == self@.round_max_users,
    {
        &self.round_max_users
    }
}

} // verus!
