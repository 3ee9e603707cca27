//! The subscription ledger and the attendance tracker: the operations that
//! change the store.

use vstd::prelude::*;
use crate::entity::{event_user, user};
use crate::error::ServiceError;
use crate::seq_facts::{lemma_filter_all, lemma_filter_none, lemma_filter_same, lemma_filter_twice};
use crate::store::{exclusive, has_event, has_user, subscriptions_refer, Store, StoreView};
use crate::time::{current_time, Timestamp};

verus! {

/// The rows that belong to `user_id`.
pub open spec fn of_user(user_id: i32) -> spec_fn(event_user::Model) -> bool {
    |row: event_user::Model| row.user_id == user_id
}

/// The rows that belong to anyone but `user_id`.
pub open spec fn of_others(user_id: i32) -> spec_fn(event_user::Model) -> bool {
    |row: event_user::Model| row.user_id != user_id
}

/// The subscription that a request asks for at position `k`: the event named
/// there, taken for round `k + 1`, with no attendance marked yet.
pub open spec fn requested_row(user_id: i32, event_ids: Seq<i32>, k: int) -> event_user::Model {
    event_user::Model {
        user_id,
        event_id: event_ids[k],
        round: (k + 1) as i32,
        joined_at: None,
        left_at: None,
    }
}

/// The subscriptions that a request asks for, one per event named, in order.
pub open spec fn requested_rows(user_id: i32, event_ids: Seq<i32>) -> Seq<event_user::Model> {
    Seq::new(event_ids.len(), |k: int| requested_row(user_id, event_ids, k))
}

/// The subscriptions after `user_id` has subscribed to `event_ids`: those of
/// everyone else as they were, followed by the ones requested. Whatever the
/// user held before is gone, in every round.
pub open spec fn resubscribed(
    rows: Seq<event_user::Model>,
    user_id: i32,
    event_ids: Seq<i32>,
) -> Seq<event_user::Model> {
    rows.filter(of_others(user_id)) + requested_rows(user_id, event_ids)
}

/// Whether a request is usable at all: it names at least one event and no
/// more events than there are round numbers, and every identifier is one
/// that the store could have handed out.
pub open spec fn well_formed_request(user_id: i32, event_ids: Seq<i32>) -> bool {
    &&& user_id >= 1
    &&& 0 < event_ids.len() <= i32::MAX
    &&& forall|k: int| 0 <= k < event_ids.len() ==> #[trigger] event_ids[k] >= 1
}

/// Whether the store knows the user and every event that a request names.
pub open spec fn known_request(db: StoreView, user_id: i32, event_ids: Seq<i32>) -> bool {
    &&& has_user(db.users, user_id)
    &&& forall|k: int| 0 <= k < event_ids.len() ==> has_event(db.events, #[trigger] event_ids[k])
}

/// How the store answers a request to subscribe: a request that is not well
/// formed is invalid; one that names a user or an event that the store does
/// not hold is refused by the store.
pub open spec fn subscribe_outcome(db: StoreView, user_id: i32, event_ids: Seq<i32>) -> Result<
    (),
    ServiceError,
> {
    if !well_formed_request(user_id, event_ids) {
        Err(ServiceError::InvalidRequest)
    } else if !known_request(db, user_id, event_ids) {
        Err(ServiceError::StoreUnavailable)
    } else {
        Ok(())
    }
}

/// The store after a request to subscribe: the subscriptions are replaced
/// where the request succeeds, and nothing at all changes where it fails.
pub open spec fn after_subscribe(db: StoreView, user_id: i32, event_ids: Seq<i32>) -> StoreView {
    if subscribe_outcome(db, user_id, event_ids) is Ok {
        StoreView { event_users: resubscribed(db.event_users, user_id, event_ids), ..db }
    } else {
        db
    }
}

/// A request to subscribe.
pub struct Request {
    pub user_id: i32,
    pub event_ids: Seq<i32>,
}

/// The store after a sequence of requests to subscribe, each made of the
/// store that the one before has left.
pub open spec fn after_requests(db: StoreView, requests: Seq<Request>) -> StoreView
    decreases requests.len(),
{
    if requests.len() == 0 {
        db
    } else {
        after_subscribe(
            after_requests(db, requests.drop_last()),
            requests.last().user_id,
            requests.last().event_ids,
        )
    }
}

/// What is known of a user at the first login.
#[derive(Debug)]
pub struct UserToCreate {
    pub name: String,
    pub email: String,
    pub section: i32,
    pub class: String,
    pub admin: bool,
}

/// The operations that change the store.
pub struct Mutation;

impl Mutation {
    /// Adds a user to the store and returns the new record. The store refuses
    /// an email address that is taken.
    pub fn add_user(db: &mut Store, user: UserToCreate) -> (outcome: Result<
        user::Model,
        ServiceError,
    >)
        ensures
            match outcome {
                Ok(record) => {
                    &&& !crate::store::has_email(old(db)@.users, user.email@)
                    &&& crate::store::next_user_id(old(db)@.users) <= i32::MAX
                    &&& record == (user::Model {
                        id: crate::store::next_user_id(old(db)@.users) as i32,
                        name: Some(user.name),
                        email: user.email,
                        interactive_done: false,
                        section: user.section,
                        class: Some(user.class),
                        admin: user.admin,
                    })
                    &&& final(db)@ == (StoreView {
                        users: old(db)@.users.push(record),
                        ..old(db)@
                    })
                },
                Err(e) => {
                    &&& e == ServiceError::StoreUnavailable
                    &&& crate::store::has_email(old(db)@.users, user.email@)
                        || crate::store::next_user_id(old(db)@.users) > i32::MAX
                    &&& final(db)@ == old(db)@
                },
            },
    {
        db.insert_user(Some(user.name), user.email, user.section, Some(user.class), user.admin)
    }

    /// Whether a request is usable at all.
    pub fn request_is_well_formed(user_id: i32, event_ids: &Vec<i32>) -> (ok: bool)
        ensures
            ok == well_formed_request(user_id, event_ids@),
    {
        if user_id < 1 || event_ids.len() == 0 || event_ids.len() > 0x7fff_ffff {
            return false;
        }
        let mut k: usize = 0;
        while k < event_ids.len()
            invariant
                k <= event_ids.len(),
                forall|i: int| 0 <= i < k ==> #[trigger] event_ids@[i] >= 1,
            decreases event_ids.len() - k,
        {
            if event_ids[k] < 1 {
                return false;
            }
            k += 1;
        }
        true
    }

    /// Whether the store knows the user and every event that a request
    /// names.
    pub fn request_is_known(db: &Store, user_id: i32, event_ids: &Vec<i32>) -> (ok: bool)
        ensures
            ok == known_request(db@, user_id, event_ids@),
    {
        if db.find_user(user_id).is_none() {
            return false;
        }
        let mut k: usize = 0;
        while k < event_ids.len()
            invariant
                k <= event_ids.len(),
                forall|i: int| 0 <= i < k ==> has_event(db@.events, #[trigger] event_ids@[i]),
            decreases event_ids.len() - k,
        {
            if db.find_event(event_ids[k]).is_none() {
                return false;
            }
            k += 1;
        }
        true
    }

    /// The subscriptions that a request asks for: the event at position `k`
    /// for round `k + 1`, with no attendance marked.
    pub fn new_subscriptions(user_id: i32, event_ids: &Vec<i32>) -> (rows: Vec<event_user::Model>)
        requires
            event_ids.len() <= i32::MAX,
        ensures
            rows@ == requested_rows(user_id, event_ids@),
    {
        let mut rows: Vec<event_user::Model> = Vec::with_capacity(event_ids.len());
        let mut k: usize = 0;
        while k < event_ids.len()
            invariant
                k <= event_ids.len() <= i32::MAX,
                rows@.len() == k,
                forall|i: int| 0 <= i < k ==> rows@[i] == requested_row(user_id, event_ids@, i),
            decreases event_ids.len() - k,
        {
            rows.push(
                event_user::Model {
                    user_id,
                    event_id: event_ids[k],
                    round: (k + 1) as i32,
                    joined_at: None,
                    left_at: None,
                },
            );
            k += 1;
        }
        rows
    }

    /// Removes every subscription of a user, in all rounds.
    pub fn remove_old_subscriptions_for_user(db: &mut Store, user_id: i32)
        ensures
            final(db)@ == (StoreView {
                event_users: old(db)@.event_users.filter(of_others(user_id)),
                ..old(db)@
            }),
    {
        let ghost before = db@;
        proof {
            use_type_invariant(&*db);
            db.lemma_valid();
        }
        let rows = db.event_users();
        let mut kept: Vec<event_user::Model> = Vec::new();
        let mut i: usize = 0;
        while i < rows.len()
            invariant
                i <= rows.len(),
                kept@ == rows@.take(i as int).filter(of_others(user_id)),
            decreases rows.len() - i,
        {
            proof {
                reveal(Seq::filter);
                assert(rows@.take(i + 1).drop_last() == rows@.take(i as int));
            }
            if rows[i].user_id != user_id {
                kept.push(rows[i]);
            }
            i += 1;
        }
        proof {
            assert(rows@.take(rows@.len() as int) == rows@);
            lemma_filter_exclusive(before.event_users, of_others(user_id));
            lemma_filter_refers(before.event_users, of_others(user_id), before);
        }
        db.put_event_users(kept);
    }

    /// The position of the first subscription of `user_id` to `event_id`,
    /// if the user holds one.
    pub fn find_subscription(db: &Store, user_id: i32, event_id: i32) -> (found: Option<usize>)
        ensures
            match found {
                Some(i) => {
                    &&& is_subscribed(db@.event_users, user_id, event_id)
                    &&& is_first_link(db@.event_users, user_id, event_id, i as int)
                    &&& i == first_link(db@.event_users, user_id, event_id)
                },
                None => !is_subscribed(db@.event_users, user_id, event_id),
            },
    {
        let rows = db.event_users();
        let mut i: usize = 0;
        while i < rows.len()
            invariant
                i <= rows.len(),
                rows@ == db@.event_users,
                forall|k: int| 0 <= k < i ==> !links(#[trigger] rows@[k], user_id, event_id),
            decreases rows.len() - i,
        {
            if rows[i].user_id == user_id && rows[i].event_id == event_id {
                proof {
                    assert(is_first_link(rows@, user_id, event_id, i as int));
                    lemma_first_link(rows@, user_id, event_id);
                }
                return Some(i);
            }
            i += 1;
        }
        None
    }

    /// Marks that a user has checked in at an event at the time `now`. The
    /// time replaces an earlier one. No row is added or removed.
    pub fn join_event_at(db: &mut Store, user_id: i32, event_id: i32, now: Timestamp) -> (outcome:
        Result<(), ServiceError>)
        ensures
            match outcome {
                Ok(()) => is_subscribed(old(db)@.event_users, user_id, event_id),
                Err(e) => e == ServiceError::NotSubscribed && !is_subscribed(
                    old(db)@.event_users,
                    user_id,
                    event_id,
                ),
            },
            final(db)@ == (StoreView {
                event_users: joined(old(db)@.event_users, user_id, event_id, now),
                ..old(db)@
            }),
    {
        match Self::find_subscription(db, user_id, event_id) {
            Some(i) => {
                let row = db.event_users()[i];
                db.set_event_user(i, event_user::Model { joined_at: Some(now), ..row });
                Ok(())
            },
            None => Err(ServiceError::NotSubscribed),
        }
    }

    /// Marks that a user has checked out of an event at the time `now`. The
    /// time replaces an earlier one. No row is added or removed.
    pub fn leave_event_at(db: &mut Store, user_id: i32, event_id: i32, now: Timestamp) -> (outcome:
        Result<(), ServiceError>)
        ensures
            match outcome {
                Ok(()) => is_subscribed(old(db)@.event_users, user_id, event_id),
                Err(e) => e == ServiceError::NotSubscribed && !is_subscribed(
                    old(db)@.event_users,
                    user_id,
                    event_id,
                ),
            },
            final(db)@ == (StoreView {
                event_users: left(old(db)@.event_users, user_id, event_id, now),
                ..old(db)@
            }),
    {
        match Self::find_subscription(db, user_id, event_id) {
            Some(i) => {
                let row = db.event_users()[i];
                db.set_event_user(i, event_user::Model { left_at: Some(now), ..row });
                Ok(())
            },
            None => Err(ServiceError::NotSubscribed),
        }
    }

    /// Marks that a user has checked in at an event now. The time is read
    /// from the clock, so the contract holds for some time `now`.
    pub fn join_event(db: &mut Store, user_id: i32, event_id: i32) -> (outcome: Result<
        (),
        ServiceError,
    >)
        ensures
            match outcome {
                Ok(()) => is_subscribed(old(db)@.event_users, user_id, event_id),
                Err(e) => e == ServiceError::NotSubscribed && !is_subscribed(
                    old(db)@.event_users,
                    user_id,
                    event_id,
                ),
            },
            exists|now: Timestamp|
                final(db)@ == (StoreView {
                    event_users: #[trigger] joined(old(db)@.event_users, user_id, event_id, now),
                    ..old(db)@
                }),
    {
        let now = current_time();
        Self::join_event_at(db, user_id, event_id, now)
    }

    /// Marks that a user has checked out of an event now. The time is read
    /// from the clock, so the contract holds for some time `now`.
    pub fn leave_event(db: &mut Store, user_id: i32, event_id: i32) -> (outcome: Result<
        (),
        ServiceError,
    >)
        ensures
            match outcome {
                Ok(()) => is_subscribed(old(db)@.event_users, user_id, event_id),
                Err(e) => e == ServiceError::NotSubscribed && !is_subscribed(
                    old(db)@.event_users,
                    user_id,
                    event_id,
                ),
            },
            exists|now: Timestamp|
                final(db)@ == (StoreView {
                    event_users: #[trigger] left(old(db)@.event_users, user_id, event_id, now),
                    ..old(db)@
                }),
    {
        let now = current_time();
        Self::leave_event_at(db, user_id, event_id, now)
    }

    /// Replaces the subscriptions of a user by those for `event_ids`: the
    /// event at position `k` is taken for round `k + 1`, and whatever the
    /// user held before is dropped in every round, also in rounds beyond the
    /// request. The change is made as a whole or not at all.
    ///
    /// A request that is not well formed is answered with `InvalidRequest`;
    /// one that names a user or an event that the store does not hold is
    /// refused by the store.
    pub fn subscribe_to_events(db: &mut Store, user_id: i32, event_ids: &Vec<i32>) -> (outcome:
        Result<(), ServiceError>)
        ensures
            outcome == subscribe_outcome(old(db)@, user_id, event_ids@),
            final(db)@ == after_subscribe(old(db)@, user_id, event_ids@),
            exclusive(final(db)@.event_users),
    {
        proof {
            use_type_invariant(&*db);
            db.lemma_valid();
        }
        if !Self::request_is_well_formed(user_id, event_ids) {
            return Err(ServiceError::InvalidRequest);
        }
        if !Self::request_is_known(db, user_id, event_ids) {
            return Err(ServiceError::StoreUnavailable);
        }
        let ghost before = db@;
        Self::remove_old_subscriptions_for_user(db, user_id);
        let fresh = Self::new_subscriptions(user_id, event_ids);
        proof {
            lemma_resubscribed_exclusive(before.event_users, user_id, event_ids@);
            assert forall|k: int| 0 <= k < fresh@.len() implies has_user(
                before.users,
                (#[trigger] fresh@[k]).user_id,
            ) && has_event(before.events, fresh@[k].event_id) by {
                assert(has_event(before.events, event_ids@[k]));
            }
        }
        db.extend_event_users(fresh);
        Ok(())
    }
}

/// Whether `row` is a subscription of `user_id` to `event_id`, in any round.
pub open spec fn links(row: event_user::Model, user_id: i32, event_id: i32) -> bool {
    row.user_id == user_id && row.event_id == event_id
}

/// Whether two rows are the same claim: the same user, event and round.
pub open spec fn same_claim(a: event_user::Model, b: event_user::Model) -> bool {
    a.user_id == b.user_id && a.event_id == b.event_id && a.round == b.round
}

/// Whether `user_id` holds a subscription to `event_id`, in any round.
pub open spec fn is_subscribed(rows: Seq<event_user::Model>, user_id: i32, event_id: i32) -> bool {
    exists|i: int| 0 <= i < rows.len() && links(#[trigger] rows[i], user_id, event_id)
}

/// Whether position `i` holds the first subscription of `user_id` to
/// `event_id` in the order of the store. Where a user holds the event in
/// several rounds, this is the one that attendance is marked on.
pub open spec fn is_first_link(
    rows: Seq<event_user::Model>,
    user_id: i32,
    event_id: i32,
    i: int,
) -> bool {
    &&& 0 <= i < rows.len()
    &&& links(rows[i], user_id, event_id)
    &&& forall|k: int| 0 <= k < i ==> !links(#[trigger] rows[k], user_id, event_id)
}

/// The position that [`is_first_link`] describes.
pub open spec fn first_link(rows: Seq<event_user::Model>, user_id: i32, event_id: i32) -> int {
    choose|i: int| is_first_link(rows, user_id, event_id, i)
}

/// The subscriptions after `user_id` has checked in at `event_id` at the
/// time `at`: the time is written over whatever was there. Nothing changes
/// where the user is not subscribed.
pub open spec fn joined(
    rows: Seq<event_user::Model>,
    user_id: i32,
    event_id: i32,
    at: Timestamp,
) -> Seq<event_user::Model> {
    if is_subscribed(rows, user_id, event_id) {
        let i = first_link(rows, user_id, event_id);
        rows.update(i, event_user::Model { joined_at: Some(at), ..rows[i] })
    } else {
        rows
    }
}

/// The subscriptions after `user_id` has checked out of `event_id` at the
/// time `at`: the time is written over whatever was there. Nothing changes
/// where the user is not subscribed.
pub open spec fn left(
    rows: Seq<event_user::Model>,
    user_id: i32,
    event_id: i32,
    at: Timestamp,
) -> Seq<event_user::Model> {
    if is_subscribed(rows, user_id, event_id) {
        let i = first_link(rows, user_id, event_id);
        rows.update(i, event_user::Model { left_at: Some(at), ..rows[i] })
    } else {
        rows
    }
}

/// A subscribed user has exactly one first subscription to the event.
pub proof fn lemma_first_link(rows: Seq<event_user::Model>, user_id: i32, event_id: i32)
    requires
        is_subscribed(rows, user_id, event_id),
    ensures
        is_first_link(rows, user_id, event_id, first_link(rows, user_id, event_id)),
        forall|i: int| #[trigger]
            is_first_link(rows, user_id, event_id, i) ==> i == first_link(rows, user_id, event_id),
{
    let some = choose|i: int| 0 <= i < rows.len() && links(#[trigger] rows[i], user_id, event_id);
    lemma_first_link_upto(rows, user_id, event_id, some);
    let first = first_link(rows, user_id, event_id);
    assert forall|i: int| #[trigger] is_first_link(rows, user_id, event_id, i) implies i
        == first by {
        if i < first {
            assert(!links(rows[i], user_id, event_id));
        } else if first < i {
            assert(!links(rows[first], user_id, event_id));
        }
    }
}

/// Below any subscription of the user to the event lies a first one.
proof fn lemma_first_link_upto(
    rows: Seq<event_user::Model>,
    user_id: i32,
    event_id: i32,
    upto: int,
)
    requires
        0 <= upto < rows.len(),
        links(rows[upto], user_id, event_id),
    ensures
        exists|i: int| is_first_link(rows, user_id, event_id, i),
    decreases upto,
{
    if exists|k: int| 0 <= k < upto && links(#[trigger] rows[k], user_id, event_id) {
        let k = choose|k: int| 0 <= k < upto && links(#[trigger] rows[k], user_id, event_id);
        lemma_first_link_upto(rows, user_id, event_id, k);
    } else {
        assert(is_first_link(rows, user_id, event_id, upto));
    }
}

/// A request that succeeds leaves the user with exactly the subscriptions
/// requested, whatever the user held before, and everyone else with what
/// they held.
pub proof fn lemma_subscribe_replaces(
    rows: Seq<event_user::Model>,
    user_id: i32,
    event_ids: Seq<i32>,
    other: i32,
)
    requires
        other != user_id,
    ensures
        resubscribed(rows, user_id, event_ids).filter(of_user(user_id)) == requested_rows(
            user_id,
            event_ids,
        ),
        resubscribed(rows, user_id, event_ids).filter(of_user(other)) == rows.filter(
            of_user(other),
        ),
{
    let kept = rows.filter(of_others(user_id));
    let fresh = requested_rows(user_id, event_ids);
    assert forall|i: int| 0 <= i < kept.len() implies !of_user(user_id)(#[trigger] kept[i]) by {
        rows.lemma_filter_pred(of_others(user_id), i);
    }
    lemma_filter_none(kept, of_user(user_id));
    lemma_filter_all(fresh, of_user(user_id));
    Seq::filter_distributes_over_add(kept, fresh, of_user(user_id));
    assert(Seq::<event_user::Model>::empty() + fresh =~= fresh);

    lemma_filter_none(fresh, of_user(other));
    Seq::filter_distributes_over_add(kept, fresh, of_user(other));
    lemma_filter_twice(rows, of_others(user_id), of_user(other));
    lemma_filter_same(
        rows,
        |row: event_user::Model| of_others(user_id)(row) && of_user(other)(row),
        of_user(other),
    );
    assert(rows.filter(of_user(other)) + Seq::<event_user::Model>::empty() =~= rows.filter(
        of_user(other),
    ));
}

/// Of two requests by one user, the second alone decides what the user
/// holds: the subscriptions of the first are removed, not added to.
pub proof fn lemma_subscribe_twice(
    rows: Seq<event_user::Model>,
    user_id: i32,
    first: Seq<i32>,
    second: Seq<i32>,
)
    ensures
        resubscribed(resubscribed(rows, user_id, first), user_id, second) == resubscribed(
            rows,
            user_id,
            second,
        ),
{
    let kept = rows.filter(of_others(user_id));
    let fresh = requested_rows(user_id, first);
    Seq::filter_distributes_over_add(kept, fresh, of_others(user_id));
    lemma_filter_none(fresh, of_others(user_id));
    assert forall|i: int| 0 <= i < kept.len() implies of_others(user_id)(#[trigger] kept[i]) by {
        rows.lemma_filter_pred(of_others(user_id), i);
    }
    lemma_filter_all(kept, of_others(user_id));
    assert(kept + Seq::<event_user::Model>::empty() =~= kept);
}

/// Every request, whether it succeeds or fails, leaves a store that keeps
/// its constraints. In particular no user ever holds two subscriptions in
/// one round.
pub proof fn lemma_subscribe_keeps_valid(db: StoreView, user_id: i32, event_ids: Seq<i32>)
    requires
        db.valid(),
    ensures
        after_subscribe(db, user_id, event_ids).valid(),
        exclusive(after_subscribe(db, user_id, event_ids).event_users),
{
    if subscribe_outcome(db, user_id, event_ids) is Ok {
        lemma_resubscribed_exclusive(db.event_users, user_id, event_ids);
        lemma_filter_refers(db.event_users, of_others(user_id), db);
        let kept = db.event_users.filter(of_others(user_id));
        let all = resubscribed(db.event_users, user_id, event_ids);
        assert forall|i: int| 0 <= i < all.len() implies has_user(
            db.users,
            (#[trigger] all[i]).user_id,
        ) && has_event(db.events, all[i].event_id) by {
            if i >= kept.len() {
                assert(all[i] == requested_row(user_id, event_ids, i - kept.len()));
                assert(has_event(db.events, event_ids[i - kept.len()]));
            } else {
                assert(all[i] == kept[i]);
            }
        }
    }
}

/// After any sequence of requests no user holds two subscriptions in one
/// round, and the store keeps its other constraints.
pub proof fn lemma_requests_keep_valid(db: StoreView, requests: Seq<Request>)
    requires
        db.valid(),
    ensures
        after_requests(db, requests).valid(),
        exclusive(after_requests(db, requests).event_users),
    decreases requests.len(),
{
    if requests.len() > 0 {
        lemma_requests_keep_valid(db, requests.drop_last());
        lemma_subscribe_keeps_valid(
            after_requests(db, requests.drop_last()),
            requests.last().user_id,
            requests.last().event_ids,
        );
    }
}

/// After a request that succeeds the user is subscribed to exactly the
/// events that the request names.
pub proof fn lemma_subscribed_iff_requested(
    db: StoreView,
    user_id: i32,
    event_ids: Seq<i32>,
    event_id: i32,
)
    requires
        subscribe_outcome(db, user_id, event_ids) is Ok,
    ensures
        is_subscribed(after_subscribe(db, user_id, event_ids).event_users, user_id, event_id)
            <==> event_ids.contains(event_id),
{
    let kept = db.event_users.filter(of_others(user_id));
    let fresh = requested_rows(user_id, event_ids);
    let all = resubscribed(db.event_users, user_id, event_ids);
    if event_ids.contains(event_id) {
        let k = choose|k: int| 0 <= k < event_ids.len() && event_ids[k] == event_id;
        assert(all[kept.len() + k] == fresh[k]);
        assert(links(all[kept.len() + k], user_id, event_id));
    }
    if is_subscribed(all, user_id, event_id) {
        let i = choose|i: int| 0 <= i < all.len() && links(#[trigger] all[i], user_id, event_id);
        if i < kept.len() {
            db.event_users.lemma_filter_pred(of_others(user_id), i);
            assert(all[i] == kept[i]);
        } else {
            assert(all[i] == fresh[i - kept.len()]);
            assert(event_ids[i - kept.len()] == event_id);
        }
    }
}

/// A request changes whether a user is subscribed to an event only where
/// it is that user's request: it then names the event, or the user gave the
/// event up.
pub proof fn lemma_subscribed_needs_request(
    db: StoreView,
    request: Request,
    user_id: i32,
    event_id: i32,
)
    requires
        is_subscribed(
            after_subscribe(db, request.user_id, request.event_ids).event_users,
            user_id,
            event_id,
        ),
    ensures
        is_subscribed(db.event_users, user_id, event_id) || (request.user_id == user_id
            && request.event_ids.contains(event_id)),
{
    if subscribe_outcome(db, request.user_id, request.event_ids) is Ok {
        let kept = db.event_users.filter(of_others(request.user_id));
        let fresh = requested_rows(request.user_id, request.event_ids);
        let all = resubscribed(db.event_users, request.user_id, request.event_ids);
        let i = choose|i: int| 0 <= i < all.len() && links(#[trigger] all[i], user_id, event_id);
        if i < kept.len() {
            assert(all[i] == kept[i]);
            assert(kept.contains(kept[i]));
            db.event_users.lemma_filter_contains_rev(of_others(request.user_id), kept[i]);
            let a = choose|a: int| 0 <= a < db.event_users.len() && db.event_users[a] == kept[i];
            assert(links(db.event_users[a], user_id, event_id));
        } else {
            assert(all[i] == fresh[i - kept.len()]);
            assert(request.event_ids[i - kept.len()] == event_id);
        }
    }
}

/// A user is not subscribed to an event as long as no request of that user
/// has named it: starting from a store in which the user does not hold the
/// event, no sequence of other requests makes a check-in possible.
pub proof fn lemma_not_subscribed_without_request(
    db: StoreView,
    requests: Seq<Request>,
    user_id: i32,
    event_id: i32,
)
    requires
        !is_subscribed(db.event_users, user_id, event_id),
        forall|k: int|
            0 <= k < requests.len() ==> !((#[trigger] requests[k]).user_id == user_id
                && requests[k].event_ids.contains(event_id)),
    ensures
        !is_subscribed(after_requests(db, requests).event_users, user_id, event_id),
    decreases requests.len(),
{
    if requests.len() > 0 {
        let earlier = requests.drop_last();
        assert forall|k: int| 0 <= k < earlier.len() implies !((#[trigger] earlier[k]).user_id
            == user_id && earlier[k].event_ids.contains(event_id)) by {
            assert(earlier[k] == requests[k]);
        }
        lemma_not_subscribed_without_request(db, earlier, user_id, event_id);
        if is_subscribed(after_requests(db, requests).event_users, user_id, event_id) {
            lemma_subscribed_needs_request(
                after_requests(db, earlier),
                requests.last(),
                user_id,
                event_id,
            );
            assert(requests.last() == requests[requests.len() - 1]);
        }
    }
}

/// Checking in twice is checking in once at the later time: the second
/// call succeeds as the first did, writes over its time, and neither adds
/// nor removes a row.
pub proof fn lemma_join_twice(
    rows: Seq<event_user::Model>,
    user_id: i32,
    event_id: i32,
    first: Timestamp,
    second: Timestamp,
)
    ensures
        joined(rows, user_id, event_id, first).len() == rows.len(),
        is_subscribed(joined(rows, user_id, event_id, first), user_id, event_id) == is_subscribed(
            rows,
            user_id,
            event_id,
        ),
        joined(joined(rows, user_id, event_id, first), user_id, event_id, second) == joined(
            rows,
            user_id,
            event_id,
            second,
        ),
{
    if is_subscribed(rows, user_id, event_id) {
        lemma_first_link(rows, user_id, event_id);
        let i = first_link(rows, user_id, event_id);
        let once = joined(rows, user_id, event_id, first);
        assert(links(once[i], user_id, event_id));
        assert(is_first_link(once, user_id, event_id, i)) by {
            assert forall|k: int| 0 <= k < i implies !links(#[trigger] once[k], user_id, event_id) by {
                assert(once[k] == rows[k]);
            }
        }
        lemma_first_link(once, user_id, event_id);
        assert(joined(once, user_id, event_id, second) =~= joined(
            rows,
            user_id,
            event_id,
            second,
        ));
    } else {
        assert(joined(rows, user_id, event_id, first) == rows);
    }
}

/// Checking out twice is checking out once at the later time.
pub proof fn lemma_leave_twice(
    rows: Seq<event_user::Model>,
    user_id: i32,
    event_id: i32,
    first: Timestamp,
    second: Timestamp,
)
    ensures
        left(rows, user_id, event_id, first).len() == rows.len(),
        is_subscribed(left(rows, user_id, event_id, first), user_id, event_id) == is_subscribed(
            rows,
            user_id,
            event_id,
        ),
        left(left(rows, user_id, event_id, first), user_id, event_id, second) == left(
            rows,
            user_id,
            event_id,
            second,
        ),
{
    if is_subscribed(rows, user_id, event_id) {
        lemma_first_link(rows, user_id, event_id);
        let i = first_link(rows, user_id, event_id);
        let once = left(rows, user_id, event_id, first);
        assert(links(once[i], user_id, event_id));
        assert(is_first_link(once, user_id, event_id, i)) by {
            assert forall|k: int| 0 <= k < i implies !links(#[trigger] once[k], user_id, event_id) by {
                assert(once[k] == rows[k]);
            }
        }
        lemma_first_link(once, user_id, event_id);
        assert(left(once, user_id, event_id, second) =~= left(rows, user_id, event_id, second));
    } else {
        assert(left(rows, user_id, event_id, first) == rows);
    }
}

/// Attendance changes no count: a check-in or a check-out leaves every row
/// with its user, its event and its round.
pub proof fn lemma_attendance_keeps_rows(
    rows: Seq<event_user::Model>,
    user_id: i32,
    event_id: i32,
    at: Timestamp,
)
    ensures
        forall|k: int|
            0 <= k < rows.len() ==> same_claim(
                #[trigger] joined(rows, user_id, event_id, at)[k],
                rows[k],
            ),
        forall|k: int|
            0 <= k < rows.len() ==> same_claim(
                #[trigger] left(rows, user_id, event_id, at)[k],
                rows[k],
            ),
{
    if is_subscribed(rows, user_id, event_id) {
        lemma_first_link(rows, user_id, event_id);
    }
}

/// Rows picked out of a table that refers to known users and events refer
/// to known users and events.
pub proof fn lemma_filter_refers(
    rows: Seq<event_user::Model>,
    pick: spec_fn(event_user::Model) -> bool,
    db: StoreView,
)
    requires
        subscriptions_refer(rows, db.users, db.events),
    ensures
        subscriptions_refer(rows.filter(pick), db.users, db.events),
{
    let kept = rows.filter(pick);
    assert forall|i: int| 0 <= i < kept.len() implies has_user(
        db.users,
        (#[trigger] kept[i]).user_id,
    ) && has_event(db.events, kept[i].event_id) by {
        assert(kept.contains(kept[i]));
        rows.lemma_filter_contains_rev(pick, kept[i]);
        let a = choose|a: int| 0 <= a < rows.len() && rows[a] == kept[i];
        assert(has_user(db.users, rows[a].user_id));
    }
}

/// Rows picked out of an exclusive table are exclusive.
pub proof fn lemma_filter_exclusive(
    rows: Seq<event_user::Model>,
    pick: spec_fn(event_user::Model) -> bool,
)
    requires
        exclusive(rows),
    ensures
        exclusive(rows.filter(pick)),
    decreases rows.len(),
{
    reveal(Seq::filter);
    if rows.len() > 0 {
        let init = rows.drop_last();
        lemma_filter_exclusive(init, pick);
        let kept = init.filter(pick);
        if pick(rows.last()) {
            let all = kept.push(rows.last());
            assert forall|i: int, j: int| 0 <= i < j < all.len() implies !((#[trigger] all[i]).user_id
                == (#[trigger] all[j]).user_id && all[i].round == all[j].round) by {
                if j == kept.len() {
                    assert(kept.contains(kept[i]));
                    init.lemma_filter_contains_rev(pick, kept[i]);
                    let a = choose|a: int| 0 <= a < init.len() && init[a] == kept[i];
                    assert(rows[a] == kept[i]);
                    assert(rows[rows.len() - 1] == all[j]);
                }
            }
        }
    }
}

/// The subscriptions after a request are exclusive when they were before.
pub proof fn lemma_resubscribed_exclusive(
    rows: Seq<event_user::Model>,
    user_id: i32,
    event_ids: Seq<i32>,
)
    requires
        exclusive(rows),
        event_ids.len() <= i32::MAX,
    ensures
        exclusive(resubscribed(rows, user_id, event_ids)),
{
    let kept = rows.filter(of_others(user_id));
    let fresh = requested_rows(user_id, event_ids);
    let all = resubscribed(rows, user_id, event_ids);
    lemma_filter_exclusive(rows, of_others(user_id));
    assert forall|i: int, j: int| 0 <= i < j < all.len() implies !((#[trigger] all[i]).user_id == (
    #[trigger] all[j]).user_id && all[i].round == all[j].round) by {
        if i < kept.len() && j >= kept.len() {
            rows.lemma_filter_pred(of_others(user_id), i);
            assert(all[j] == fresh[j - kept.len()]);
        } else if i >= kept.len() {
            assert(all[i] == fresh[i - kept.len()]);
            assert(all[j] == fresh[j - kept.len()]);
        }
    }
}

} // verus!
