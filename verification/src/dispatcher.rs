//! Broadcast of events to any number of subscribers.
//!
//! Every subscriber has a backlog of its own and takes events from it at its
//! own pace. A backlog has no bound: publishing never waits for a subscriber
//! and never drops an event, for a slow subscriber no more than for the
//! others. A subscriber sees only what was published after it subscribed.

use crate::event::{events_view, CentralEvent, EventView};
use std::collections::VecDeque;
use vstd::prelude::*;

verus! {

/// One subscriber: its handle and the events it has not taken yet.
struct Subscription {
    id: u64,
    backlog: VecDeque<CentralEvent>,
}

/// The subscribers of a central's events.
pub struct EventDispatcher {
    subscriptions: Vec<Subscription>,
    issued: u64,
}

/// The mathematical content of an [`EventDispatcher`]: the events that wait
/// for each subscriber, oldest first, and the number of handles given out.
pub struct DispatcherView {
    pub backlogs: Map<u64, Seq<EventView>>,
    pub issued: nat,
}

/// The dispatcher after a new subscriber joined, and the new handle. The
/// new backlog is empty: nothing published earlier waits in it.
pub open spec fn subscribe_spec(d: DispatcherView) -> (DispatcherView, u64) {
    (
        DispatcherView {
            backlogs: d.backlogs.insert(d.issued as u64, Seq::empty()),
            issued: d.issued + 1,
        },
        d.issued as u64,
    )
}

/// The dispatcher after an event was published: it waits at the end of
/// every subscriber's backlog.
pub open spec fn publish_spec(d: DispatcherView, event: EventView) -> DispatcherView {
    DispatcherView {
        backlogs: Map::new(
            |id: u64| d.backlogs.contains_key(id),
            |id: u64| d.backlogs[id].push(event),
        ),
        issued: d.issued,
    }
}

/// The dispatcher after a row of events was published, first event first.
pub open spec fn publish_all_spec(d: DispatcherView, events: Seq<EventView>) -> DispatcherView
    decreases events.len(),
{
    if events.len() == 0 {
        d
    } else {
        publish_spec(publish_all_spec(d, events.drop_last()), events.last())
    }
}

/// The dispatcher after a subscriber left. The other backlogs stay.
pub open spec fn unsubscribe_spec(d: DispatcherView, id: u64) -> DispatcherView {
    DispatcherView { backlogs: d.backlogs.remove(id), issued: d.issued }
}

/// The dispatcher after a subscriber took its oldest waiting event, and
/// that event. Nothing is taken where nothing waits or the handle is unknown.
pub open spec fn take_spec(d: DispatcherView, id: u64) -> (DispatcherView, Option<EventView>) {
    if d.backlogs.contains_key(id) && d.backlogs[id].len() > 0 {
        (
            DispatcherView {
                backlogs: d.backlogs.insert(id, d.backlogs[id].drop_first()),
                issued: d.issued,
            },
            Some(d.backlogs[id][0]),
        )
    } else {
        (d, None)
    }
}

/// The content of an optional event.
pub open spec fn event_option_view(event: Option<CentralEvent>) -> Option<EventView> {
    match event {
        Some(e) => Some(e@),
        None => None,
    }
}

/// Whether some subscription of a row has the handle `id`.
spec fn has_id(subs: Seq<Subscription>, id: u64) -> bool {
    exists|i: int| 0 <= i < subs.len() && (#[trigger] subs[i]).id == id
}

/// The place in a row of a subscription with the handle `id`.
spec fn slot(subs: Seq<Subscription>, id: u64) -> int {
    choose|i: int| 0 <= i < subs.len() && (#[trigger] subs[i]).id == id
}

/// Whether the handles of a row rise strictly and were all given out.
spec fn rising(subs: Seq<Subscription>, issued: u64) -> bool {
    &&& forall|i: int, j: int|
        #![trigger subs[i], subs[j]]
        0 <= i < j < subs.len() ==> subs[i].id < subs[j].id
    &&& forall|i: int| 0 <= i < subs.len() ==> (#[trigger] subs[i]).id < issued
}

/// The backlogs of a row of subscriptions, by handle.
spec fn backlogs_of(subs: Seq<Subscription>) -> Map<u64, Seq<EventView>> {
    Map::new(|id: u64| has_id(subs, id), |id: u64| events_view(subs[slot(subs, id)].backlog@))
}

/// In a row with rising handles a handle is at one place only.
proof fn lemma_slot(subs: Seq<Subscription>, issued: u64, i: int)
    requires
        rising(subs, issued),
        0 <= i < subs.len(),
    ensures
        has_id(subs, subs[i].id),
        slot(subs, subs[i].id) == i,
        backlogs_of(subs).contains_key(subs[i].id),
        backlogs_of(subs)[subs[i].id] == events_view(subs[i].backlog@),
{
    let id = subs[i].id;
    let k = slot(subs, id);
    assert(0 <= k < subs.len() && subs[k].id == id);
    if k < i {
        assert(subs[k].id < subs[i].id);
    } else if i < k {
        assert(subs[i].id < subs[k].id);
    }
}

/// Two rows of equal length with the same handles at the same places hold
/// the same handles, each at its place in both.
proof fn lemma_same_handles(before: Seq<Subscription>, after: Seq<Subscription>, issued: u64)
    requires
        rising(before, issued),
        before.len() == after.len(),
        forall|k: int| 0 <= k < after.len() ==> (#[trigger] after[k]).id == before[k].id,
    ensures
        rising(after, issued),
        forall|x: u64| has_id(after, x) == has_id(before, x),
        forall|x: u64| has_id(after, x) ==> slot(after, x) == slot(before, x),
        backlogs_of(after).dom() =~= backlogs_of(before).dom(),
{
    assert forall|i: int, j: int|
        #![trigger after[i], after[j]]
        0 <= i < j < after.len() implies after[i].id < after[j].id by {
        assert(before[i].id < before[j].id);
    }
    assert forall|i: int| 0 <= i < after.len() implies (#[trigger] after[i]).id < issued by {
        assert(before[i].id < issued);
    }
    assert forall|x: u64| has_id(after, x) == has_id(before, x) by {
        if has_id(after, x) {
            let k = slot(after, x);
            assert(before[k].id == x);
        }
        if has_id(before, x) {
            let k = slot(before, x);
            assert(after[k].id == x);
        }
    }
    assert forall|x: u64| has_id(after, x) implies slot(after, x) == slot(before, x) by {
        let k = slot(after, x);
        lemma_slot(after, issued, k);
        lemma_slot(before, issued, k);
    }
}

impl View for EventDispatcher {
    type V = DispatcherView;

    closed spec fn view(&self) -> DispatcherView {
        DispatcherView { backlogs: backlogs_of(self.subscriptions@), issued: self.issued as nat }
    }
}

impl EventDispatcher {
    /// Whether the dispatcher is in order inside: each handle was given out
    /// once and belongs to at most one subscriber.
    pub closed spec fn wf(&self) -> bool {
        rising(self.subscriptions@, self.issued)
    }

    /// A dispatcher without subscribers.
    pub fn new() -> (r: EventDispatcher)
        ensures
            r.wf(),
            r@.backlogs == Map::<u64, Seq<EventView>>::empty(),
            r@.issued == 0,
    {
        let r = EventDispatcher { subscriptions: Vec::new(), issued: 0 };
        assert(r@.backlogs =~= Map::<u64, Seq<EventView>>::empty());
        r
    }

    /// Every backlog belongs to a handle that was given out.
    pub proof fn lemma_handles_issued(&self, id: u64)
        requires
            self.wf(),
            self@.backlogs.contains_key(id),
        ensures
            id < self@.issued,
    {
        let k = slot(self.subscriptions@, id);
        assert(self.subscriptions@[k].id == id);
    }

    /// Where the subscription with the handle `id` stands, if there is one.
    fn position(&self, id: u64) -> (r: Option<usize>)
        requires
            self.wf(),
        ensures
            match r {
                Some(i) => i < self.subscriptions@.len() && self.subscriptions@[i as int].id == id,
                None => !self@.backlogs.contains_key(id),
            },
    {
        let mut i: usize = 0;
        while i < self.subscriptions.len()
            invariant
                i <= self.subscriptions@.len(),
                forall|k: int| 0 <= k < i ==> (#[trigger] self.subscriptions@[k]).id != id,
            decreases self.subscriptions.len() - i,
        {
            if self.subscriptions[i].id == id {
                return Some(i);
            }
            i += 1;
        }
        None
    }

    /// Whether `id` is the handle of a subscriber.
    pub fn is_subscribed(&self, id: u64) -> (r: bool)
        requires
            self.wf(),
        ensures
            r == self@.backlogs.contains_key(id),
    {
        match self.position(id) {
            Some(i) => {
                proof {
                    lemma_slot(self.subscriptions@, self.issued, i as int);
                }
                true
            },
            None => false,
        }
    }

    /// How many events wait for the subscriber `id`; nothing for an unknown
    /// handle.
    pub fn pending(&self, id: u64) -> (r: Option<usize>)
        requires
            self.wf(),
        ensures
            match r {
                Some(n) => self@.backlogs.contains_key(id) && n == self@.backlogs[id].len(),
                None => !self@.backlogs.contains_key(id),
            },
    {
        match self.position(id) {
            Some(i) => {
                proof {
                    lemma_slot(self.subscriptions@, self.issued, i as int);
                }
                Some(self.subscriptions[i].backlog.len())
            },
            None => None,
        }
    }

    /// Whether another handle can still be given out.
    pub fn can_subscribe(&self) -> (r: bool)
        ensures
            r == (self@.issued < u64::MAX),
    {
        self.issued < u64::MAX
    }

    /// Adds a subscriber with an empty backlog and returns its handle.
    pub fn subscribe(&mut self) -> (id: u64)
        requires
            old(self).wf(),
            old(self)@.issued < u64::MAX,
        ensures
            final(self).wf(),
            (final(self)@, id) == subscribe_spec(old(self)@),
    {
        let id: u64 = self.issued;
        let ghost before = self.subscriptions@;
        self.subscriptions.push(Subscription { id, backlog: VecDeque::new() });
        self.issued = id + 1;
        proof {
            let after = self.subscriptions@;
            assert(rising(after, self.issued));
            assert forall|x: u64| #[trigger]
                self@.backlogs.dom().contains(x) == subscribe_spec(
                    old(self)@,
                ).0.backlogs.dom().contains(x) by {
                if has_id(after, x) {
                    let k = slot(after, x);
                    if k < before.len() {
                        assert(before[k].id == x);
                    }
                }
                if has_id(before, x) {
                    let k = slot(before, x);
                    assert(after[k].id == x);
                }
                if x == id {
                    assert(after[before.len() as int].id == x);
                }
            }
            assert forall|x: u64| self@.backlogs.dom().contains(x) implies #[trigger]
                self@.backlogs[x] == subscribe_spec(old(self)@).0.backlogs[x] by {
                let k = slot(after, x);
                lemma_slot(after, self.issued, k);
                if k < before.len() {
                    assert(before[k] == after[k]);
                    lemma_slot(before, id, k);
                } else {
                    assert(events_view(after[k].backlog@) =~= Seq::empty());
                }
            }
            assert(self@.backlogs =~= subscribe_spec(old(self)@).0.backlogs);
        }
        id
    }

    /// Hands an event to every subscriber: it is put at the end of each
    /// backlog. Without subscribers nothing happens.
    pub fn publish(&mut self, event: &CentralEvent)
        requires
            old(self).wf(),
        ensures
            final(self).wf(),
            final(self)@ == publish_spec(old(self)@, event@),
    {
        let ghost before = self.subscriptions@;
        let n: usize = self.subscriptions.len();
        let mut i: usize = 0;
        while i < n
            invariant
                i <= n,
                n == before.len(),
                self.subscriptions@.len() == n,
                self.issued == old(self).issued,
                forall|k: int| 0 <= k < n ==> (#[trigger] self.subscriptions@[k]).id == before[k].id,
                forall|k: int|
                    0 <= k < i ==> events_view((#[trigger] self.subscriptions@[k]).backlog@)
                        == events_view(before[k].backlog@).push(event@),
                forall|k: int| i <= k < n ==> (#[trigger] self.subscriptions@[k]) == before[k],
            decreases n - i,
        {
            let copy = event.clone();
            self.subscriptions[i].backlog.push_back(copy);
            assert(events_view(self.subscriptions@[i as int].backlog@) =~= events_view(
                before[i as int].backlog@,
            ).push(event@));
            i += 1;
        }
        proof {
            let after = self.subscriptions@;
            lemma_same_handles(before, after, self.issued);
            assert forall|x: u64| self@.backlogs.dom().contains(x) implies #[trigger]
                self@.backlogs[x] == publish_spec(old(self)@, event@).backlogs[x] by {
                let k = slot(after, x);
                lemma_slot(after, self.issued, k);
                lemma_slot(before, self.issued, k);
            }
            assert(self@.backlogs =~= publish_spec(old(self)@, event@).backlogs);
        }
    }

    /// Hands a row of events to every subscriber, first event first.
    pub fn publish_all(&mut self, events: &Vec<CentralEvent>)
        requires
            old(self).wf(),
        ensures
            final(self).wf(),
            final(self)@ == publish_all_spec(old(self)@, events_view(events@)),
    {
        let ghost all = events_view(events@);
        let mut i: usize = 0;
        assert(all.take(0) =~= Seq::empty());
        while i < events.len()
            invariant
                i <= events.len(),
                all == events_view(events@),
                self.wf(),
                self@ == publish_all_spec(old(self)@, all.take(i as int)),
            decreases events.len() - i,
        {
            proof {
                assert(all.take(i + 1).drop_last() =~= all.take(i as int));
                assert(all.take(i + 1).last() == events@[i as int]@);
            }
            self.publish(&events[i]);
            i += 1;
        }
        assert(all.take(events.len() as int) =~= all);
    }

    /// Removes the subscriber `id` together with its backlog, and says
    /// whether there was one. The other subscribers keep theirs.
    pub fn unsubscribe(&mut self, id: u64) -> (r: bool)
        requires
            old(self).wf(),
        ensures
            final(self).wf(),
            r == old(self)@.backlogs.contains_key(id),
            final(self)@ == unsubscribe_spec(old(self)@, id),
    {
        let ghost before = self.subscriptions@;
        match self.position(id) {
            Some(i) => {
                proof {
                    lemma_slot(before, self.issued, i as int);
                }
                let _ = self.subscriptions.remove(i);
                proof {
                    let after = self.subscriptions@;
                    assert forall|a: int, b: int|
                        #![trigger after[a], after[b]]
                        0 <= a < b < after.len() implies after[a].id < after[b].id by {
                        let x = if a < i { a } else { a + 1 };
                        let y = if b < i { b } else { b + 1 };
                        assert(before[x].id < before[y].id);
                    }
                    assert forall|a: int| 0 <= a < after.len() implies (#[trigger] after[a]).id
                        < self.issued by {
                        let x = if a < i { a } else { a + 1 };
                        assert(before[x].id < self.issued);
                    }
                    assert(rising(after, self.issued));
                    assert forall|x: u64| #[trigger]
                        self@.backlogs.dom().contains(x) == unsubscribe_spec(
                            old(self)@,
                            id,
                        ).backlogs.dom().contains(x) by {
                        if has_id(after, x) {
                            let k = slot(after, x);
                            let k0 = if k < i { k } else { k + 1 };
                            assert(before[k0].id == x);
                            if x == id {
                                lemma_slot(before, self.issued, k0);
                            }
                        }
                        if has_id(before, x) && x != id {
                            let k0 = slot(before, x);
                            let k = if k0 < i { k0 } else { k0 - 1 };
                            assert(after[k].id == x);
                        }
                    }
                    assert forall|x: u64| self@.backlogs.dom().contains(x) implies #[trigger]
                        self@.backlogs[x] == unsubscribe_spec(old(self)@, id).backlogs[x] by {
                        let k = slot(after, x);
                        let k0 = if k < i { k } else { k + 1 };
                        lemma_slot(after, self.issued, k);
                        assert(before[k0] == after[k]);
                        lemma_slot(before, self.issued, k0);
                    }
                    assert(self@.backlogs =~= unsubscribe_spec(old(self)@, id).backlogs);
                }
                true
            },
            None => {
                assert(self@.backlogs =~= unsubscribe_spec(old(self)@, id).backlogs);
                false
            },
        }
    }

    /// Takes the oldest waiting event of the subscriber `id` out of its
    /// backlog. Nothing is taken where nothing waits or the handle is unknown.
    pub fn next_event(&mut self, id: u64) -> (r: Option<CentralEvent>)
        requires
            old(self).wf(),
        ensures
            final(self).wf(),
            (final(self)@, event_option_view(r)) == take_spec(old(self)@, id),
    {
        let ghost before = self.subscriptions@;
        match self.position(id) {
            Some(i) => {
                proof {
                    lemma_slot(before, self.issued, i as int);
                }
                let taken: Option<CentralEvent> = self.subscriptions[i].backlog.pop_front();
                proof {
                    let after = self.subscriptions@;
                    assert forall|k: int| 0 <= k < after.len() implies (#[trigger] after[k]).id
                        == before[k].id by {}
                    lemma_same_handles(before, after, self.issued);
                    lemma_slot(after, self.issued, i as int);
                    if taken is Some {
                        assert(events_view(after[i as int].backlog@) =~= events_view(
                            before[i as int].backlog@,
                        ).drop_first());
                    }
                    assert forall|x: u64| self@.backlogs.dom().contains(x) implies #[trigger]
                        self@.backlogs[x] == take_spec(old(self)@, id).0.backlogs[x] by {
                        let k = slot(after, x);
                        lemma_slot(after, self.issued, k);
                        lemma_slot(before, self.issued, k);
                    }
                    assert(self@.backlogs =~= take_spec(old(self)@, id).0.backlogs);
                }
                taken
            },
            None => None,
        }
    }
}


/// Publishing a row of one event is publishing that event.
pub proof fn lemma_publish_all_one(d: DispatcherView, event: EventView)
    ensures
        publish_all_spec(d, seq![event]) == publish_spec(d, event),
{
    assert(seq![event].drop_last() =~= Seq::<EventView>::empty());
    reveal_with_fuel(publish_all_spec, 2);
}

/// After a row of events was published, each subscriber's backlog is what
/// it was, followed by the row in publishing order; nobody joins or leaves.
pub proof fn lemma_publish_all_appends(d: DispatcherView, events: Seq<EventView>, id: u64)
    ensures
        publish_all_spec(d, events).issued == d.issued,
        publish_all_spec(d, events).backlogs.contains_key(id) == d.backlogs.contains_key(id),
        d.backlogs.contains_key(id) ==> publish_all_spec(d, events).backlogs[id] == d.backlogs[id]
            + events,
    decreases events.len(),
{
    if events.len() > 0 {
        lemma_publish_all_appends(d, events.drop_last(), id);
        if d.backlogs.contains_key(id) {
            assert(d.backlogs[id] + events =~= (d.backlogs[id] + events.drop_last()).push(
                events.last(),
            ));
        }
    } else {
        if d.backlogs.contains_key(id) {
            assert(d.backlogs[id] + events =~= d.backlogs[id]);
        }
    }
}

/// Of two events published one after the other, every subscriber finds the
/// first before the second, directly behind what waited for it already.
pub proof fn lemma_publish_order(d: DispatcherView, first: EventView, second: EventView, id: u64)
    requires
        d.backlogs.contains_key(id),
    ensures
        ({
            let after = publish_spec(publish_spec(d, first), second);
            let n = d.backlogs[id].len() as int;
            &&& after.backlogs.contains_key(id)
            &&& after.backlogs[id] == d.backlogs[id] + seq![first, second]
            &&& after.backlogs[id][n] == first
            &&& after.backlogs[id][n + 1] == second
        }),
{
    let after = publish_spec(publish_spec(d, first), second);
    assert(after.backlogs[id] =~= d.backlogs[id] + seq![first, second]);
}

/// A subscriber takes its events in the order in which they were published:
/// from an empty backlog, after two publishes, it takes the first event, then
/// the second, and then nothing.
pub proof fn lemma_taken_in_publish_order(
    d: DispatcherView,
    first: EventView,
    second: EventView,
    id: u64,
)
    requires
        d.backlogs.contains_key(id),
        d.backlogs[id].len() == 0,
    ensures
        ({
            let published = publish_spec(publish_spec(d, first), second);
            let one = take_spec(published, id);
            let two = take_spec(one.0, id);
            let three = take_spec(two.0, id);
            &&& one.1 == Some(first)
            &&& two.1 == Some(second)
            &&& three.1 is None
        }),
{
    lemma_publish_order(d, first, second, id);
    let published = publish_spec(publish_spec(d, first), second);
    let one = take_spec(published, id);
    assert(one.0.backlogs[id] =~= seq![second]);
    let two = take_spec(one.0, id);
    assert(two.0.backlogs[id] =~= Seq::<EventView>::empty());
}

/// A new subscriber finds nothing of what was published before it joined,
/// and everything that is published afterwards.
pub proof fn lemma_no_replay(d: DispatcherView, earlier: Seq<EventView>, later: Seq<EventView>)
    ensures
        ({
            let joined = subscribe_spec(publish_all_spec(d, earlier));
            &&& joined.0.backlogs.contains_key(joined.1)
            &&& joined.0.backlogs[joined.1] == Seq::<EventView>::empty()
            &&& publish_all_spec(joined.0, later).backlogs[joined.1] == later
        }),
{
    let joined = subscribe_spec(publish_all_spec(d, earlier));
    lemma_publish_all_appends(joined.0, later, joined.1);
    assert(Seq::<EventView>::empty() + later =~= later);
}

/// A subscriber that leaves takes nothing from the others: their backlogs
/// stay, and what is published afterwards still reaches them.
pub proof fn lemma_unsubscribe_leaves_others(
    d: DispatcherView,
    leaving: u64,
    other: u64,
    event: EventView,
)
    requires
        d.backlogs.contains_key(other),
        other != leaving,
    ensures
        unsubscribe_spec(d, leaving).backlogs.contains_key(other),
        unsubscribe_spec(d, leaving).backlogs[other] == d.backlogs[other],
        !unsubscribe_spec(d, leaving).backlogs.contains_key(leaving),
        publish_spec(unsubscribe_spec(d, leaving), event).backlogs[other] == d.backlogs[other].push(
            event,
        ),
{
}

} // verus!
