//! The schedule service: the operations that clients call, each a change or
//! a question to the store followed by what the observers are told.

use vstd::prelude::*;
use crate::channel::Delivery;
use crate::entity::{event, event_user};
use crate::error::ServiceError;
use crate::mutation::{
    after_subscribe, is_subscribed, joined, left, of_others, of_user, requested_row,
    requested_rows, resubscribed, subscribe_outcome, Mutation,
};
use crate::query::{
    in_event_round, status_of, subscriber_count, EventCounterStatus, EventUserStatus, Query,
};
use crate::registry::{
    ids_ascending, is_attached, lemma_own_report, lemma_settled_member, lemma_settled_valid,
    outcome_for, reports_cover, settled, DeliveryReport, ObservationChannel, RegistryView,
    SubscriberRegistry, SubscriberStats,
};
use crate::seq_facts::{lemma_filter_same, lemma_filter_split_len, lemma_filter_witness};
use crate::store::{event_ids_ascending, Store, StoreView};
use crate::time::Timestamp;

verus! {

/// One broadcast: the update and what became of it for each observer.
pub struct Broadcast {
    pub update: EventCounterStatus,
    pub reports: Vec<DeliveryReport>,
}

/// The subscriptions of `user_id` that a request for `event_ids` gives up:
/// those whose event is not the one requested for their round.
pub open spec fn released_by(user_id: i32, event_ids: Seq<i32>) -> spec_fn(
    event_user::Model,
) -> bool {
    |row: event_user::Model|
        row.user_id == user_id && !(1 <= row.round <= event_ids.len() && event_ids[row.round - 1]
            == row.event_id)
}

/// The subscriptions whose event has a changed or confirmed count after a
/// request: first the ones given up, in the order of the store, then the ones
/// requested, in the order of the request.
pub open spec fn affected_rows(
    before: Seq<event_user::Model>,
    user_id: i32,
    event_ids: Seq<i32>,
) -> Seq<event_user::Model> {
    before.filter(released_by(user_id, event_ids)) + requested_rows(user_id, event_ids)
}

/// The count, among `rows`, of the event and round of a subscription.
pub open spec fn count_of(rows: Seq<event_user::Model>) -> spec_fn(
    event_user::Model,
) -> EventCounterStatus {
    |row: event_user::Model|
        EventCounterStatus {
            event_id: row.event_id,
            round: row.round,
            count: subscriber_count(rows, row.event_id, row.round) as u64,
        }
}

/// The updates that go out after `user_id` has subscribed to `event_ids`:
/// one for each affected event and round, with the count as it is after the
/// change.
pub open spec fn updates_after(
    before: Seq<event_user::Model>,
    user_id: i32,
    event_ids: Seq<i32>,
) -> Seq<EventCounterStatus> {
    affected_rows(before, user_id, event_ids).map_values(
        count_of(resubscribed(before, user_id, event_ids)),
    )
}

/// The observers after the broadcasts of `log`, one after the other.
pub open spec fn settled_all(subscribers: Seq<SubscriberStats>, log: Seq<Broadcast>) -> Seq<
    SubscriberStats,
>
    decreases log.len(),
{
    if log.len() == 0 {
        subscribers
    } else {
        settled(settled_all(subscribers, log.drop_last()), log.last().reports@)
    }
}

/// Whether `log` is a faithful record of broadcasting `updates` in order to
/// the observers `subscribers`: each update went out once, to every observer
/// that was attached when its turn came.
pub open spec fn log_records(
    log: Seq<Broadcast>,
    updates: Seq<EventCounterStatus>,
    subscribers: Seq<SubscriberStats>,
) -> bool {
    &&& log.len() == updates.len()
    &&& forall|k: int|
        0 <= k < log.len() ==> {
            &&& (#[trigger] log[k]).update == updates[k]
            &&& reports_cover(log[k].reports@, settled_all(subscribers, log.take(k)))
        }
}

/// Whether some row is for `event_id` in `round`.
pub open spec fn names(rows: Seq<event_user::Model>, event_id: i32, round: i32) -> bool {
    exists|i: int|
        0 <= i < rows.len() && (#[trigger] rows[i]).event_id == event_id && rows[i].round == round
}

/// The updates after a request leave no change untold: an event and round
/// whose count is not the same after the request as before is among the
/// affected ones, for which an update goes out.
pub proof fn lemma_updates_cover_changes(
    rows: Seq<event_user::Model>,
    user_id: i32,
    event_ids: Seq<i32>,
    event_id: i32,
    round: i32,
)
    requires
        event_ids.len() <= i32::MAX,
        subscriber_count(resubscribed(rows, user_id, event_ids), event_id, round)
            != subscriber_count(rows, event_id, round),
    ensures
        names(affected_rows(rows, user_id, event_ids), event_id, round),
{
    let pick = in_event_round(event_id, round);
    let kept = rows.filter(of_others(user_id));
    let own = rows.filter(of_user(user_id));
    let fresh = requested_rows(user_id, event_ids);
    let released = rows.filter(released_by(user_id, event_ids));
    let affected = affected_rows(rows, user_id, event_ids);

    Seq::filter_distributes_over_add(kept, fresh, pick);
    lemma_filter_split_len(rows, of_user(user_id), pick);
    lemma_filter_same(rows, |row: event_user::Model| !of_user(user_id)(row), of_others(user_id));

    if fresh.filter(pick).len() > 0 {
        lemma_filter_witness(fresh, pick);
        let k = choose|k: int| 0 <= k < fresh.len() && pick(#[trigger] fresh[k]);
        assert(affected[released.len() + k] == fresh[k]);
    } else {
        assert(own.filter(pick).len() > 0);
        lemma_filter_witness(own, pick);
        let j = choose|j: int| 0 <= j < own.len() && pick(#[trigger] own[j]);
        rows.lemma_filter_pred(of_user(user_id), j);
        let row = own[j];
        if released_by(user_id, event_ids)(row) {
            assert(own.contains(row));
            rows.lemma_filter_contains_rev(of_user(user_id), row);
            let a = choose|a: int| 0 <= a < rows.len() && rows[a] == row;
            rows.lemma_filter_contains(released_by(user_id, event_ids), a);
            let b = choose|b: int| 0 <= b < released.len() && released[b] == row;
            assert(affected[b] == row);
        } else {
            let k = row.round - 1;
            assert(fresh[k] == requested_row(user_id, event_ids, k));
            assert(affected[released.len() + k] == fresh[k]);
        }
    }
}

/// A run of broadcasts keeps the identities of the observers in order and
/// below the next one.
pub proof fn lemma_settled_all_valid(
    subscribers: Seq<SubscriberStats>,
    log: Seq<Broadcast>,
    next_id: u64,
)
    requires
        ids_ascending(subscribers, next_id),
    ensures
        ids_ascending(settled_all(subscribers, log), next_id),
    decreases log.len(),
{
    if log.len() > 0 {
        lemma_settled_all_valid(subscribers, log.drop_last(), next_id);
        lemma_settled_valid(
            settled_all(subscribers, log.drop_last()),
            log.last().reports@,
            next_id,
        );
    }
}

/// An observer that is attached after a run of broadcasts was offered every
/// update of the run, in the order of the run, and each offer either went
/// into its queue or found the queue full: no update passed it by, and no
/// other observer's failure kept one from it.
pub proof fn lemma_survivor_was_offered_all(
    subscribers: Seq<SubscriberStats>,
    log: Seq<Broadcast>,
    updates: Seq<EventCounterStatus>,
    next_id: u64,
    id: u64,
    k: int,
)
    requires
        ids_ascending(subscribers, next_id),
        log_records(log, updates, subscribers),
        is_attached(settled_all(subscribers, log), id),
        0 <= k < log.len(),
    ensures
        log[k].update == updates[k],
        is_attached(subscribers, id),
        outcome_for(log[k].reports@, id) == Some(Delivery::Delivered) || outcome_for(
            log[k].reports@,
            id,
        ) == Some(Delivery::Full),
    decreases log.len(),
{
    let earlier = log.drop_last();
    let before = settled_all(subscribers, earlier);
    let last = log.last().reports@;
    lemma_settled_all_valid(subscribers, earlier, next_id);
    lemma_settled_member(before, last, next_id, id);
    assert(log.take(log.len() - 1) == earlier);
    assert(log[log.len() - 1] == log.last());
    if k == log.len() - 1 {
        let j = choose|j: int| 0 <= j < before.len() && (#[trigger] before[j]).id == id;
        lemma_own_report(before, last, next_id, j);
    }
    if log.len() > 1 {
        assert(log_records(earlier, updates.drop_last(), subscribers)) by {
            assert forall|i: int| 0 <= i < earlier.len() implies {
                &&& (#[trigger] earlier[i]).update == updates.drop_last()[i]
                &&& reports_cover(earlier[i].reports@, settled_all(subscribers, earlier.take(i)))
            } by {
                assert(earlier[i] == log[i]);
                assert(earlier.take(i) == log.take(i));
            }
        }
        let other = if k < log.len() - 1 {
            k
        } else {
            0
        };
        lemma_survivor_was_offered_all(
            subscribers,
            earlier,
            updates.drop_last(),
            next_id,
            id,
            other,
        );
    }
}

/// The service that clients call. It owns the registry of observers; the
/// store is handed to each operation.
pub struct MyScheduleService {
    subscribers: SubscriberRegistry,
}

impl View for MyScheduleService {
    type V = RegistryView;

    closed spec fn view(&self) -> RegistryView {
        self.subscribers@
    }
}

impl MyScheduleService {
    /// A service with no observer attached.
    pub fn new() -> (service: MyScheduleService)
        ensures
            service@ == (RegistryView { subscribers: Seq::empty(), next_id: 0 }),
    {
        MyScheduleService { subscribers: SubscriberRegistry::new() }
    }

    /// The registry of observers.
    pub fn registry(&self) -> (registry: &SubscriberRegistry)
        ensures
            registry@ == self@,
    {
        &self.subscribers
    }

    /// Answers a ping.
    pub fn ping(&self) -> (message: String)
        ensures
            message@ == "Pong!"@,
    {
        "Pong!".to_owned()
    }

    /// Opens the stream of subscriber counts for a client: attaches a new
    /// observer and hands out its receiving side. `None` when the registry
    /// has no identity left.
    pub fn subscriber_count(&mut self) -> (channel: Option<ObservationChannel>)
        ensures
            match channel {
                Some(c) => {
                    &&& old(self)@.next_id < u64::MAX
                    &&& c.id() == old(self)@.next_id
                    &&& final(self)@ == (RegistryView {
                        subscribers: old(self)@.subscribers.push(
                            SubscriberStats { id: c.id(), delivered: 0, dropped: 0 },
                        ),
                        next_id: (old(self)@.next_id + 1) as u64,
                    })
                },
                None => old(self)@.next_id == u64::MAX && final(self)@ == old(self)@,
            },
    {
        self.subscribers.attach()
    }

    /// Detaches the observer with the identity `id`, as when its client has
    /// gone, and says whether it was attached.
    pub fn unsubscribe(&mut self, id: u64) -> (was_attached: bool)
        ensures
            was_attached == crate::registry::is_attached(old(self)@.subscribers, id),
            final(self)@ == (RegistryView {
                subscribers: old(self)@.subscribers.filter(crate::registry::all_but(id)),
                next_id: old(self)@.next_id,
            }),
    {
        self.subscribers.detach(id)
    }

    /// Sends one update to every attached observer. See
    /// [`SubscriberRegistry::notify_subscribers`].
    pub fn notify_subscribers(&mut self, update: EventCounterStatus) -> (reports: Vec<
        DeliveryReport,
    >)
        ensures
            reports_cover(reports@, old(self)@.subscribers),
            final(self)@ == (RegistryView {
                subscribers: settled(old(self)@.subscribers, reports@),
                next_id: old(self)@.next_id,
            }),
    {
        self.subscribers.notify_subscribers(update)
    }

    /// Sends the updates to every attached observer, one update after the
    /// other, and returns the record of it.
    pub fn publish(&mut self, updates: &Vec<EventCounterStatus>) -> (log: Vec<Broadcast>)
        ensures
            log_records(log@, updates@, old(self)@.subscribers),
            final(self)@ == (RegistryView {
                subscribers: settled_all(old(self)@.subscribers, log@),
                next_id: old(self)@.next_id,
            }),
    {
        let mut log: Vec<Broadcast> = Vec::with_capacity(updates.len());
        let mut k: usize = 0;
        while k < updates.len()
            invariant
                k <= updates.len(),
                log_records(log@, updates@.take(k as int), old(self)@.subscribers),
                self@ == (RegistryView {
                    subscribers: settled_all(old(self)@.subscribers, log@),
                    next_id: old(self)@.next_id,
                }),
            decreases updates.len() - k,
        {
            let update = updates[k];
            let reports = self.subscribers.notify_subscribers(update);
            let ghost earlier = log@;
            log.push(Broadcast { update, reports });
            proof {
                assert(log@.drop_last() == earlier);
                assert(log@.take(k as int) == earlier);
                assert forall|i: int| 0 <= i < log@.len() implies {
                    &&& (#[trigger] log@[i]).update == updates@.take(k + 1)[i]
                    &&& reports_cover(
                        log@[i].reports@,
                        settled_all(old(self)@.subscribers, log@.take(i)),
                    )
                } by {
                    if i < k {
                        assert(log@[i] == earlier[i]);
                        assert(log@.take(i) == earlier.take(i));
                    }
                }
            }
            k += 1;
        }
        proof {
            assert(updates@.take(updates@.len() as int) == updates@);
        }
        log
    }

    /// The subscriptions of a user that a request for `event_ids` gives up.
    pub fn released_subscriptions(db: &Store, user_id: i32, event_ids: &Vec<i32>) -> (released:
        Vec<event_user::Model>)
        ensures
            released@ == db@.event_users.filter(released_by(user_id, event_ids@)),
    {
        let rows = db.event_users();
        let mut released: Vec<event_user::Model> = Vec::new();
        let mut i: usize = 0;
        while i < rows.len()
            invariant
                i <= rows.len(),
                released@ == rows@.take(i as int).filter(released_by(user_id, event_ids@)),
            decreases rows.len() - i,
        {
            proof {
                reveal(Seq::filter);
                assert(rows@.take(i + 1).drop_last() == rows@.take(i as int));
            }
            let row = rows[i];
            if row.user_id == user_id {
                let kept = row.round >= 1 && (row.round as usize) <= event_ids.len() && event_ids[(
                row.round - 1) as usize] == row.event_id;
                if !kept {
                    released.push(row);
                }
            }
            i += 1;
        }
        proof {
            assert(rows@.take(rows@.len() as int) == rows@);
        }
        released
    }

    /// The count, in the store as it is, of the event and round of each of
    /// `rows`.
    pub fn counts_for(db: &Store, rows: &Vec<event_user::Model>) -> (counts: Vec<
        EventCounterStatus,
    >)
        ensures
            counts@ == rows@.map_values(count_of(db@.event_users)),
    {
        let mut counts: Vec<EventCounterStatus> = Vec::with_capacity(rows.len());
        let mut i: usize = 0;
        while i < rows.len()
            invariant
                i <= rows.len(),
                counts@ == rows@.take(i as int).map_values(count_of(db@.event_users)),
            decreases rows.len() - i,
        {
            let row = rows[i];
            let count = Query::get_event_user_count_by_id(db, row.event_id, row.round);
            proof {
                assert(rows@.take(i + 1) == rows@.take(i as int).push(row));
                assert(rows@.take(i as int).push(row).map_values(count_of(db@.event_users))
                    == rows@.take(i as int).map_values(count_of(db@.event_users)).push(
                    count_of(db@.event_users)(row),
                ));
            }
            counts.push(EventCounterStatus { event_id: row.event_id, round: row.round, count });
            i += 1;
        }
        proof {
            assert(rows@.take(rows@.len() as int) == rows@);
        }
        counts
    }

    /// Subscribes a user to the events of a request, as
    /// [`Mutation::subscribe_to_events`] does, and returns the updates that
    /// are owed to the observers: the new count of each affected event and
    /// round, first of those that the user gave up, then of those requested.
    /// A request that fails changes nothing and owes nothing.
    pub fn subscribe_and_count(db: &mut Store, user_id: i32, event_ids: &Vec<i32>) -> (outcome:
        Result<Vec<EventCounterStatus>, ServiceError>)
        ensures
            final(db)@ == after_subscribe(old(db)@, user_id, event_ids@),
            match outcome {
                Ok(updates) => {
                    &&& subscribe_outcome(old(db)@, user_id, event_ids@) is Ok
                    &&& updates@ == updates_after(old(db)@.event_users, user_id, event_ids@)
                },
                Err(e) => subscribe_outcome(old(db)@, user_id, event_ids@) == Err::<
                    (),
                    ServiceError,
                >(e),
            },
    {
        let mut affected = Self::released_subscriptions(db, user_id, event_ids);
        match Mutation::subscribe_to_events(db, user_id, event_ids) {
            Ok(()) => {},
            Err(e) => {
                return Err(e);
            },
        }
        let mut requested = Mutation::new_subscriptions(user_id, event_ids);
        affected.append(&mut requested);
        Ok(Self::counts_for(db, &affected))
    }

    /// Subscribes a user to the events of a request, as
    /// [`Mutation::subscribe_to_events`] does, and then tells every observer
    /// the new count of each affected event and round: first of those that
    /// the user gave up, then of those requested. A request that fails
    /// changes nothing and tells nobody. An update that does not reach an
    /// observer does not fail the request; the record that comes back shows
    /// it.
    pub fn subscribe_to_events(
        &mut self,
        db: &mut Store,
        user_id: i32,
        event_ids: &Vec<i32>,
    ) -> (outcome: Result<Vec<Broadcast>, ServiceError>)
        ensures
            final(db)@ == after_subscribe(old(db)@, user_id, event_ids@),
            match outcome {
                Ok(log) => {
                    &&& subscribe_outcome(old(db)@, user_id, event_ids@) is Ok
                    &&& log_records(
                        log@,
                        updates_after(old(db)@.event_users, user_id, event_ids@),
                        old(self)@.subscribers,
                    )
                    &&& final(self)@ == (RegistryView {
                        subscribers: settled_all(old(self)@.subscribers, log@),
                        next_id: old(self)@.next_id,
                    })
                },
                Err(e) => {
                    &&& subscribe_outcome(old(db)@, user_id, event_ids@) == Err::<
                        (),
                        ServiceError,
                    >(e)
                    &&& final(self)@ == old(self)@
                },
            },
    {
        match Self::subscribe_and_count(db, user_id, event_ids) {
            Ok(updates) => Ok(self.publish(&updates)),
            Err(e) => Err(e),
        }
    }

    /// Marks that a user has checked in at an event now. Attendance does not
    /// change a count, so no observer is told.
    pub fn join_event(&self, db: &mut Store, user_id: i32, event_id: i32) -> (outcome: Result<
        (),
        ServiceError,
    >)
        ensures
            match outcome {
                Ok(()) => is_subscribed(old(db)@.event_users, user_id, event_id),
                Err(e) => e == ServiceError::NotSubscribed && !is_subscribed(
                    old(db)@.event_users,
                    user_id,
                    event_id,
                ),
            },
            exists|now: Timestamp|
                final(db)@ == (StoreView {
                    event_users: #[trigger] joined(old(db)@.event_users, user_id, event_id, now),
                    ..old(db)@
                }),
    {
        Mutation::join_event(db, user_id, event_id)
    }

    /// Marks that a user has checked out of an event now. Attendance does
    /// not change a count, so no observer is told.
    pub fn leave_event(&self, db: &mut Store, user_id: i32, event_id: i32) -> (outcome: Result<
        (),
        ServiceError,
    >)
        ensures
            match outcome {
                Ok(()) => is_subscribed(old(db)@.event_users, user_id, event_id),
                Err(e) => e == ServiceError::NotSubscribed && !is_subscribed(
                    old(db)@.event_users,
                    user_id,
                    event_id,
                ),
            },
            exists|now: Timestamp|
                final(db)@ == (StoreView {
                    event_users: #[trigger] left(old(db)@.event_users, user_id, event_id, now),
                    ..old(db)@
                }),
    {
        Mutation::leave_event(db, user_id, event_id)
    }

    /// All events, in the order of their identities.
    pub fn events(&self, db: &Store) -> (events: Vec<event::Model>)
        ensures
            events@ == db@.events,
            event_ids_ascending(events@),
    {
        Query::get_all_events(db)
    }

    /// The users subscribed to an event in a round, with the marks of
    /// attendance.
    pub fn event_users_status(&self, db: &Store, event_id: i32, round: i32) -> (statuses: Vec<
        EventUserStatus,
    >)
        ensures
            statuses@ == db@.event_users.filter(in_event_round(event_id, round)).map_values(
                status_of(db@.users),
            ),
    {
        Query::event_users_status(db, event_id, round)
    }
}

} // verus!
