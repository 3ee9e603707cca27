//! The subscriber registry and the count notifier: the observers that are
//! attached, and the broadcast of an update to each of them.
//!
//! Delivery is best effort. Each observer has its own bounded queue, and a
//! broadcast offers the update to each queue without waiting: an observer
//! whose queue is full loses that update, which is counted against it, and
//! an observer whose receiving side is closed or gone is detached. A slow or
//! dead observer therefore never delays the others, at the price that a
//! slow one may miss updates. Within one queue the updates keep the order in
//! which they were broadcast.

use vstd::prelude::*;
use crate::channel::{offer, open_queue, poll, shut, Delivery};
use crate::error::ServiceError;
use crate::query::EventCounterStatus;

verus! {

/// The number of updates that wait in the queue of one observer at most.
pub const CHANNEL_CAPACITY: usize = 4;

/// What the registry knows of one attached observer.
#[derive(Clone, Copy, Debug, PartialEq, Eq, Structural)]
pub struct SubscriberStats {
    /// The identity under which the observer was attached.
    pub id: u64,
    /// How many updates went into the observer's queue.
    pub delivered: u64,
    /// How many updates were dropped because the queue was full.
    pub dropped: u64,
}

/// The contents of a registry, as the contracts see them.
pub struct RegistryView {
    /// The attached observers, in the order in which they were attached.
    pub subscribers: Seq<SubscriberStats>,
    /// The identity that the next observer gets.
    pub next_id: u64,
}

/// What became of one update offered to one observer.
#[derive(Clone, Copy, Debug, PartialEq, Eq, Structural)]
pub struct DeliveryReport {
    pub subscriber: u64,
    pub outcome: Delivery,
}

impl DeliveryReport {
    /// The failure that this report stands for, if the update did not go
    /// into the observer's queue. Such a failure is counted and shown; it
    /// never fails the change that caused the update.
    pub fn failure(&self) -> (failure: Option<ServiceError>)
        ensures
            failure == if self.outcome == Delivery::Delivered {
                None
            } else {
                Some(ServiceError::ChannelDeliveryFailure)
            },
    {
        match self.outcome {
            Delivery::Delivered => None,
            Delivery::Full => Some(ServiceError::ChannelDeliveryFailure),
            Delivery::Closed => Some(ServiceError::ChannelDeliveryFailure),
        }
    }
}

/// Identities grow along the sequence and stay below `next_id`.
pub open spec fn ids_ascending(subscribers: Seq<SubscriberStats>, next_id: u64) -> bool {
    &&& forall|i: int| 0 <= i < subscribers.len() ==> (#[trigger] subscribers[i]).id < next_id
    &&& forall|i: int, j: int|
        0 <= i < j < subscribers.len() ==> (#[trigger] subscribers[i]).id < (
        #[trigger] subscribers[j]).id
}

impl RegistryView {
    /// The constraints that every registry keeps.
    pub open spec fn valid(self) -> bool {
        ids_ascending(self.subscribers, self.next_id)
    }
}

/// Whether an observer with the identity `id` is attached.
pub open spec fn is_attached(subscribers: Seq<SubscriberStats>, id: u64) -> bool {
    exists|i: int| 0 <= i < subscribers.len() && (#[trigger] subscribers[i]).id == id
}

/// All observers but the one with the identity `id`.
pub open spec fn all_but(id: u64) -> spec_fn(SubscriberStats) -> bool {
    |s: SubscriberStats| s.id != id
}

/// Whether there is one report for each observer, in the same order.
pub open spec fn reports_cover(
    reports: Seq<DeliveryReport>,
    subscribers: Seq<SubscriberStats>,
) -> bool {
    &&& reports.len() == subscribers.len()
    &&& forall|k: int|
        0 <= k < reports.len() ==> (#[trigger] reports[k]).subscriber == subscribers[k].id
}

/// What the first report on observer `id` says, if there is a report on it.
pub open spec fn outcome_for(reports: Seq<DeliveryReport>, id: u64) -> Option<Delivery>
    decreases reports.len(),
{
    if reports.len() == 0 {
        None
    } else if reports.first().subscriber == id {
        Some(reports.first().outcome)
    } else {
        outcome_for(reports.drop_first(), id)
    }
}

/// One more, unless the counter is at its limit.
pub open spec fn one_more(n: u64) -> u64 {
    if n < u64::MAX {
        (n + 1) as u64
    } else {
        n
    }
}

/// The observers that stay attached after a broadcast: all but those whose
/// queue was found closed.
pub open spec fn stays(reports: Seq<DeliveryReport>) -> spec_fn(SubscriberStats) -> bool {
    |s: SubscriberStats| outcome_for(reports, s.id) != Some(Delivery::Closed)
}

/// An observer with the outcome of a broadcast counted.
pub open spec fn counted(reports: Seq<DeliveryReport>) -> spec_fn(SubscriberStats) -> SubscriberStats {
    |s: SubscriberStats|
        match outcome_for(reports, s.id) {
            Some(Delivery::Delivered) => SubscriberStats { delivered: one_more(s.delivered), ..s },
            Some(Delivery::Full) => SubscriberStats { dropped: one_more(s.dropped), ..s },
            _ => s,
        }
}

/// The observers after a broadcast with the outcomes `reports`: those found
/// closed are detached, the others keep their order and have the outcome
/// counted.
pub open spec fn settled(
    subscribers: Seq<SubscriberStats>,
    reports: Seq<DeliveryReport>,
) -> Seq<SubscriberStats> {
    subscribers.filter(stays(reports)).map_values(counted(reports))
}

/// One attached observer: the sending half of its queue and the counters.
pub struct Subscriber {
    id: u64,
    sender: tokio::sync::mpsc::Sender<EventCounterStatus>,
    delivered: u64,
    dropped: u64,
}

impl View for Subscriber {
    type V = SubscriberStats;

    closed spec fn view(&self) -> SubscriberStats {
        SubscriberStats { id: self.id, delivered: self.delivered, dropped: self.dropped }
    }
}

/// The views of the observers in a vector.
pub open spec fn views(subscribers: Seq<Subscriber>) -> Seq<SubscriberStats> {
    subscribers.map_values(|s: Subscriber| s@)
}

/// The set of attached observers. It is owned by whoever serves the
/// clients; nothing in it is shared behind the owner's back.
pub struct SubscriberRegistry {
    subscribers: Vec<Subscriber>,
    next_id: u64,
}

impl View for SubscriberRegistry {
    type V = RegistryView;

    closed spec fn view(&self) -> RegistryView {
        RegistryView { subscribers: views(self.subscribers@), next_id: self.next_id }
    }
}

impl SubscriberRegistry {
    /// The constraints, as a property of the registry itself.
    #[verifier::type_invariant]
    pub closed spec fn consistent(&self) -> bool {
        self@.valid()
    }

    /// A registry with no observer.
    pub fn new() -> (registry: SubscriberRegistry)
        ensures
            registry@ == (RegistryView { subscribers: Seq::empty(), next_id: 0 }),
    {
        let registry = SubscriberRegistry { subscribers: Vec::new(), next_id: 0 };
        assert(registry@.subscribers =~= Seq::empty());
        registry
    }

    /// Moves the contents out and leaves an empty registry behind.
    fn take(&mut self) -> (taken: SubscriberRegistry)
        ensures
            taken@ == old(self)@,
            taken@.valid(),
    {
        proof {
            use_type_invariant(&*self);
        }
        let mut taken = SubscriberRegistry::new();
        core::mem::swap(self, &mut taken);
        taken
    }

    /// Attaches a new observer: makes a queue of [`CHANNEL_CAPACITY`]
    /// updates, keeps the sending half under a fresh identity and hands out
    /// the receiving half. `None` when the identities are used up.
    pub fn attach(&mut self) -> (channel: Option<ObservationChannel>)
        ensures
            match channel {
                Some(c) => {
                    &&& old(self)@.next_id < u64::MAX
                    &&& c.id() == old(self)@.next_id
                    &&& final(self)@ == (RegistryView {
                        subscribers: old(self)@.subscribers.push(
                            SubscriberStats { id: c.id(), delivered: 0, dropped: 0 },
                        ),
                        next_id: (old(self)@.next_id + 1) as u64,
                    })
                },
                None => old(self)@.next_id == u64::MAX && final(self)@ == old(self)@,
            },
    {
        if self.next_id == u64::MAX {
            return None;
        }
        let SubscriberRegistry { mut subscribers, next_id } = self.take();
        let (sender, receiver) = open_queue(CHANNEL_CAPACITY);
        let subscriber = Subscriber { id: next_id, sender, delivered: 0, dropped: 0 };
        proof {
            assert(views(subscribers@.push(subscriber)) =~= views(subscribers@).push(subscriber@));
        }
        subscribers.push(subscriber);
        *self = SubscriberRegistry { subscribers, next_id: next_id + 1 };
        Some(ObservationChannel { id: next_id, receiver })
    }

    /// Detaches the observer with the identity `id` and says whether it was
    /// attached. The others keep their order and their counters.
    pub fn detach(&mut self, id: u64) -> (was_attached: bool)
        ensures
            was_attached == is_attached(old(self)@.subscribers, id),
            final(self)@ == (RegistryView {
                subscribers: old(self)@.subscribers.filter(all_but(id)),
                next_id: old(self)@.next_id,
            }),
    {
        let SubscriberRegistry { subscribers, next_id } = self.take();
        let ghost before = subscribers@;
        let mut kept: Vec<Subscriber> = Vec::new();
        let mut was_attached = false;
        proof {
            assert(views(before.take(0)) =~= Seq::empty());
            assert(views(kept@) =~= Seq::empty());
            assert(views(before.take(0)).filter(all_but(id)) =~= Seq::empty()) by {
                reveal(Seq::filter);
            }
        }
        for s in it: subscribers.into_iter()
            invariant
                it.seq() == before,
                views(kept@) == views(before.take(it.index() as int)).filter(all_but(id)),
                was_attached == is_attached(views(before.take(it.index() as int)), id),
        {
            let ghost i = it.index() as int;
            proof {
                reveal(Seq::filter);
                let seen = views(before.take(i));
                assert(views(before.take(i + 1)) =~= seen.push(s@));
                assert(seen.push(s@).drop_last() == seen);
                assert(views(kept@.push(s)) =~= views(kept@).push(s@));
                if s.id == id {
                    assert(seen.push(s@)[i].id == id);
                } else if is_attached(seen.push(s@), id) {
                    let a = choose|a: int|
                        0 <= a < seen.push(s@).len() && (#[trigger] seen.push(s@)[a]).id == id;
                    assert(seen[a].id == id);
                } else if is_attached(seen, id) {
                    let a = choose|a: int| 0 <= a < seen.len() && (#[trigger] seen[a]).id == id;
                    assert(seen.push(s@)[a].id == id);
                }
            }
            if s.id == id {
                was_attached = true;
            } else {
                kept.push(s);
            }
        }
        proof {
            assert(before.take(before.len() as int) == before);
            lemma_filter_valid(views(before), all_but(id), next_id);
        }
        *self = SubscriberRegistry { subscribers: kept, next_id };
        was_attached
    }

    /// The attached observers with their counters, in the order in which
    /// they were attached.
    pub fn subscribers(&self) -> (stats: Vec<SubscriberStats>)
        ensures
            stats@ == self@.subscribers,
    {
        let mut stats: Vec<SubscriberStats> = Vec::with_capacity(self.subscribers.len());
        let mut i: usize = 0;
        while i < self.subscribers.len()
            invariant
                i <= self.subscribers.len(),
                stats@ == views(self.subscribers@.take(i as int)),
            decreases self.subscribers.len() - i,
        {
            let s = &self.subscribers[i];
            proof {
                assert(views(self.subscribers@.take(i + 1)) =~= views(
                    self.subscribers@.take(i as int),
                ).push(s@));
            }
            stats.push(SubscriberStats { id: s.id, delivered: s.delivered, dropped: s.dropped });
            i += 1;
        }
        proof {
            assert(self.subscribers@.take(self.subscribers@.len() as int) == self.subscribers@);
        }
        stats
    }

    /// The number of attached observers.
    pub fn len(&self) -> (n: usize)
        ensures
            n == self@.subscribers.len(),
    {
        self.subscribers.len()
    }

    /// Offers `update` to every attached observer, in the order in which
    /// they were attached, and settles the outcomes: an observer whose queue
    /// is full loses this update and stays; one whose queue is closed is
    /// detached. No offer waits, so no observer holds up another. The
    /// reports say what became of the update for each observer.
    pub fn notify_subscribers(&mut self, update: EventCounterStatus) -> (reports: Vec<
        DeliveryReport,
    >)
        ensures
            reports_cover(reports@, old(self)@.subscribers),
            final(self)@ == (RegistryView {
                subscribers: settled(old(self)@.subscribers, reports@),
                next_id: old(self)@.next_id,
            }),
    {
        let mut reports: Vec<DeliveryReport> = Vec::with_capacity(self.subscribers.len());
        let mut i: usize = 0;
        while i < self.subscribers.len()
            invariant
                i <= self.subscribers.len(),
                reports@.len() == i,
                forall|k: int|
                    0 <= k < i ==> (#[trigger] reports@[k]).subscriber == self.subscribers@[k].id,
            decreases self.subscribers.len() - i,
        {
            let s = &self.subscribers[i];
            let outcome = offer(&s.sender, update);
            reports.push(DeliveryReport { subscriber: s.id, outcome });
            i += 1;
        }
        self.settle(&reports);
        reports
    }

    /// Settles a broadcast: observers that the reports show closed are
    /// detached, and the outcome is counted for each of the others. An
    /// observer without a report is left as it is.
    pub fn settle(&mut self, reports: &Vec<DeliveryReport>)
        ensures
            final(self)@ == (RegistryView {
                subscribers: settled(old(self)@.subscribers, reports@),
                next_id: old(self)@.next_id,
            }),
    {
        let SubscriberRegistry { subscribers, next_id } = self.take();
        let ghost before = subscribers@;
        let mut kept: Vec<Subscriber> = Vec::new();
        proof {
            assert(views(before.take(0)) =~= Seq::empty());
            assert(views(kept@) =~= Seq::empty());
        }
        for s in it: subscribers.into_iter()
            invariant
                it.seq() == before,
                views(kept@) == settled(views(before.take(it.index() as int)), reports@),
        {
            let ghost i = it.index() as int;
            proof {
                assert(views(before.take(i + 1)) =~= views(before.take(i)).push(s@));
                lemma_settled_push(views(before.take(i)), s@, reports@);
                assert(views(kept@.push(s)) =~= views(kept@).push(s@));
            }
            match report_for(reports, s.id) {
                Some(Delivery::Closed) => {},
                Some(Delivery::Delivered) => {
                    let delivered = if s.delivered < u64::MAX {
                        s.delivered + 1
                    } else {
                        s.delivered
                    };
                    let counted = Subscriber { delivered, ..s };
                    proof {
                        assert(views(kept@.push(counted)) =~= views(kept@).push(counted@));
                    }
                    kept.push(counted);
                },
                Some(Delivery::Full) => {
                    let dropped = if s.dropped < u64::MAX {
                        s.dropped + 1
                    } else {
                        s.dropped
                    };
                    let counted = Subscriber { dropped, ..s };
                    proof {
                        assert(views(kept@.push(counted)) =~= views(kept@).push(counted@));
                    }
                    kept.push(counted);
                },
                None => {
                    kept.push(s);
                },
            }
        }
        proof {
            assert(before.take(before.len() as int) == before);
            lemma_settled_valid(views(before), reports@, next_id);
        }
        *self = SubscriberRegistry { subscribers: kept, next_id };
    }
}

/// The receiving side of one observer: the long-lived source of the
/// updates that a client is sent.
pub struct ObservationChannel {
    id: u64,
    receiver: tokio::sync::mpsc::Receiver<EventCounterStatus>,
}

impl ObservationChannel {
    /// The identity under which the registry keeps the other side.
    pub closed spec fn spec_id(&self) -> u64 {
        self.id
    }

    /// The identity under which the registry keeps the other side.
    #[verifier::when_used_as_spec(spec_id)]
    pub fn id(&self) -> (id: u64)
        ensures
            id == self.id(),
    {
        self.id
    }

    /// Takes the oldest waiting update, if one waits. This never blocks.
    pub fn try_next(&mut self) -> (update: Option<EventCounterStatus>)
        ensures
            final(self).id() == old(self).id(),
    {
        poll(&mut self.receiver)
    }

    /// Closes this side, as when the client has gone: the next broadcast
    /// finds the queue closed and detaches the observer.
    pub fn close(&mut self)
        ensures
            final(self).id() == old(self).id(),
    {
        shut(&mut self.receiver)
    }

    /// The receiving half of the observer's queue, as this side holds it.
    pub closed spec fn receiving_half(&self) -> tokio::sync::mpsc::Receiver<EventCounterStatus> {
        self.receiver
    }

    /// Gives up the identity and hands out the receiving half itself, for
    /// whoever drives it as a stream: the half that this side held, and no
    /// other.
    pub fn into_receiver(self) -> (receiver: tokio::sync::mpsc::Receiver<EventCounterStatus>)
        ensures
            receiver == self.receiving_half(),
    {
        self.receiver
    }
}

/// The first report on observer `id`, if there is one.
pub fn report_for(reports: &Vec<DeliveryReport>, id: u64) -> (found: Option<Delivery>)
    ensures
        found == outcome_for(reports@, id),
{
    let mut k: usize = 0;
    assert(reports@.skip(0) =~= reports@);
    while k < reports.len()
        invariant
            k <= reports.len(),
            outcome_for(reports@, id) == outcome_for(reports@.skip(k as int), id),
        decreases reports.len() - k,
    {
        proof {
            assert(reports@.skip(k as int).first() == reports@[k as int]);
            assert(reports@.skip(k as int).drop_first() == reports@.skip(k + 1));
        }
        if reports[k].subscriber == id {
            return Some(reports[k].outcome);
        }
        k += 1;
    }
    None
}

/// Settling one observer more: it is dropped where its queue was found
/// closed, and counted behind the others where not.
pub proof fn lemma_settled_push(
    subscribers: Seq<SubscriberStats>,
    last: SubscriberStats,
    reports: Seq<DeliveryReport>,
)
    ensures
        settled(subscribers.push(last), reports) == if stays(reports)(last) {
            settled(subscribers, reports).push(counted(reports)(last))
        } else {
            settled(subscribers, reports)
        },
{
    reveal(Seq::filter);
    assert(subscribers.push(last).drop_last() == subscribers);
    let kept = subscribers.filter(stays(reports));
    if stays(reports)(last) {
        assert(kept.push(last).map_values(counted(reports)) =~= kept.map_values(
            counted(reports),
        ).push(counted(reports)(last)));
    }
}

/// Observers picked out of a registry keep their identities in order and
/// below the next one.
pub proof fn lemma_filter_valid(
    subscribers: Seq<SubscriberStats>,
    pick: spec_fn(SubscriberStats) -> bool,
    next_id: u64,
)
    requires
        ids_ascending(subscribers, next_id),
    ensures
        ids_ascending(subscribers.filter(pick), next_id),
    decreases subscribers.len(),
{
    reveal(Seq::filter);
    if subscribers.len() > 0 {
        let init = subscribers.drop_last();
        let last = subscribers.last();
        lemma_filter_valid(init, pick, next_id);
        let kept = init.filter(pick);
        assert forall|i: int| 0 <= i < kept.len() implies (#[trigger] kept[i]).id < last.id by {
            assert(kept.contains(kept[i]));
            init.lemma_filter_contains_rev(pick, kept[i]);
            let a = choose|a: int| 0 <= a < init.len() && init[a] == kept[i];
            assert(subscribers[a].id < subscribers[subscribers.len() - 1].id);
        }
    }
}

/// Settling keeps the identities in order and below the next one.
pub proof fn lemma_settled_valid(
    subscribers: Seq<SubscriberStats>,
    reports: Seq<DeliveryReport>,
    next_id: u64,
)
    requires
        ids_ascending(subscribers, next_id),
    ensures
        ids_ascending(settled(subscribers, reports), next_id),
    decreases subscribers.len(),
{
    if subscribers.len() > 0 {
        let init = subscribers.drop_last();
        let last = subscribers.last();
        lemma_settled_valid(init, reports, next_id);
        assert(init.push(last) == subscribers);
        lemma_settled_push(init, last, reports);
        lemma_settled_ids(init, reports);
        let done = settled(init, reports);
        assert forall|i: int| 0 <= i < done.len() implies (#[trigger] done[i]).id < last.id by {
            let a = choose|a: int| 0 <= a < init.len() && (#[trigger] init[a]).id == done[i].id;
            assert(subscribers[a].id < subscribers[subscribers.len() - 1].id);
        }
    } else {
        assert(settled(subscribers, reports) =~= Seq::empty()) by {
            reveal(Seq::filter);
        }
    }
}

/// Where there is one report for each observer, the outcome that counts for
/// an observer is the one reported at its own position.
pub proof fn lemma_own_report(
    subscribers: Seq<SubscriberStats>,
    reports: Seq<DeliveryReport>,
    next_id: u64,
    k: int,
)
    requires
        ids_ascending(subscribers, next_id),
        reports_cover(reports, subscribers),
        0 <= k < subscribers.len(),
    ensures
        outcome_for(reports, subscribers[k].id) == Some(reports[k].outcome),
    decreases k,
{
    if k > 0 {
        assert(subscribers[0].id < subscribers[k].id);
        let later = subscribers.drop_first();
        assert(ids_ascending(later, next_id)) by {
            assert forall|i: int, j: int| 0 <= i < j < later.len() implies (#[trigger] later[i]).id
                < (#[trigger] later[j]).id by {
                assert(later[i] == subscribers[i + 1]);
                assert(later[j] == subscribers[j + 1]);
            }
            assert forall|i: int| 0 <= i < later.len() implies (#[trigger] later[i]).id
                < next_id by {
                assert(later[i] == subscribers[i + 1]);
            }
        }
        assert(reports_cover(reports.drop_first(), later)) by {
            assert forall|i: int| 0 <= i < reports.drop_first().len() implies (
            #[trigger] reports.drop_first()[i]).subscriber == later[i].id by {
                assert(reports.drop_first()[i] == reports[i + 1]);
                assert(later[i] == subscribers[i + 1]);
            }
        }
        lemma_own_report(later, reports.drop_first(), next_id, k - 1);
    }
}

/// An observer stays attached through a broadcast exactly if its queue was
/// not found closed, and the outcome is then counted for it.
pub proof fn lemma_settled_member(
    subscribers: Seq<SubscriberStats>,
    reports: Seq<DeliveryReport>,
    next_id: u64,
    id: u64,
)
    requires
        ids_ascending(subscribers, next_id),
    ensures
        is_attached(settled(subscribers, reports), id) <==> is_attached(subscribers, id)
            && outcome_for(reports, id) != Some(Delivery::Closed),
        forall|k: int|
            0 <= k < subscribers.len() && (#[trigger] subscribers[k]).id == id && outcome_for(
                reports,
                id,
            ) != Some(Delivery::Closed) ==> settled(subscribers, reports).contains(
                counted(reports)(subscribers[k]),
            ),
{
    let kept = subscribers.filter(stays(reports));
    let done = settled(subscribers, reports);
    if is_attached(done, id) {
        let i = choose|i: int| 0 <= i < done.len() && (#[trigger] done[i]).id == id;
        subscribers.lemma_filter_pred(stays(reports), i);
        lemma_settled_ids(subscribers, reports);
    }
    assert forall|k: int|
        0 <= k < subscribers.len() && (#[trigger] subscribers[k]).id == id && outcome_for(
            reports,
            id,
        ) != Some(Delivery::Closed) implies done.contains(counted(reports)(subscribers[k])) by {
        subscribers.lemma_filter_contains(stays(reports), k);
        let i = choose|i: int| 0 <= i < kept.len() && kept[i] == subscribers[k];
        assert(done[i] == counted(reports)(subscribers[k]));
    }
    if is_attached(subscribers, id) && outcome_for(reports, id) != Some(Delivery::Closed) {
        let k = choose|k: int| 0 <= k < subscribers.len() && (#[trigger] subscribers[k]).id == id;
        assert(done.contains(counted(reports)(subscribers[k])));
        let i = choose|i: int| 0 <= i < done.len() && done[i] == counted(reports)(subscribers[k]);
        assert(done[i].id == id);
    }
}

/// A broadcast reaches every observer: each attached observer is offered the
/// update once, whatever becomes of the offers to the others. Those whose
/// queue took it or was full stay attached, in their order, with the outcome
/// counted; only those found closed are detached.
pub proof fn lemma_broadcast_fan_out(
    subscribers: Seq<SubscriberStats>,
    reports: Seq<DeliveryReport>,
    next_id: u64,
)
    requires
        ids_ascending(subscribers, next_id),
        reports_cover(reports, subscribers),
    ensures
        ids_ascending(settled(subscribers, reports), next_id),
        forall|k: int|
            0 <= k < subscribers.len() ==> outcome_for(reports, (#[trigger] subscribers[k]).id)
                == Some(reports[k].outcome),
        forall|k: int|
            0 <= k < subscribers.len() ==> (is_attached(
                settled(subscribers, reports),
                (#[trigger] subscribers[k]).id,
            ) <==> reports[k].outcome != Delivery::Closed),
        forall|k: int|
            0 <= k < subscribers.len() && reports[k].outcome != Delivery::Closed ==> settled(
                subscribers,
                reports,
            ).contains(counted(reports)(#[trigger] subscribers[k])),
{
    lemma_settled_valid(subscribers, reports, next_id);
    assert forall|k: int| 0 <= k < subscribers.len() implies {
        &&& outcome_for(reports, (#[trigger] subscribers[k]).id) == Some(reports[k].outcome)
        &&& (is_attached(settled(subscribers, reports), subscribers[k].id) <==> reports[k].outcome
            != Delivery::Closed)
        &&& (reports[k].outcome != Delivery::Closed ==> settled(subscribers, reports).contains(
            counted(reports)(subscribers[k]),
        ))
    } by {
        lemma_own_report(subscribers, reports, next_id, k);
        lemma_settled_member(subscribers, reports, next_id, subscribers[k].id);
    }
}

/// Every observer that is there after settling was there before, under the
/// same identity.
pub proof fn lemma_settled_ids(subscribers: Seq<SubscriberStats>, reports: Seq<DeliveryReport>)
    ensures
        forall|i: int|
            0 <= i < settled(subscribers, reports).len() ==> is_attached(
                subscribers,
                (#[trigger] settled(subscribers, reports)[i]).id,
            ),
{
    let kept = subscribers.filter(stays(reports));
    let done = settled(subscribers, reports);
    assert forall|i: int| 0 <= i < done.len() implies is_attached(
        subscribers,
        (#[trigger] done[i]).id,
    ) by {
        assert(kept.contains(kept[i]));
        subscribers.lemma_filter_contains_rev(stays(reports), kept[i]);
        let a = choose|a: int| 0 <= a < subscribers.len() && subscribers[a] == kept[i];
        assert(subscribers[a].id == done[i].id);
    }
}

} // verus!
