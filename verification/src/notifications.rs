//! Delivery of value notifications to those who asked for them.
//!
//! A listener asks for the notifications of one characteristic of one
//! peripheral and gets a backlog of its own, without bound, from which it
//! takes them at its own pace. A listener gets only what arrives after it
//! asked.

use crate::address::BDAddr;
use crate::characteristic::{NotificationView, ValueNotification};
use std::collections::VecDeque;
use vstd::prelude::*;

verus! {

/// One listener: its handle, what it listens to, and the notifications it
/// has not taken yet.
struct Listener {
    id: u64,
    address: BDAddr,
    uuid: u128,
    backlog: VecDeque<ValueNotification>,
}

/// The listeners for value notifications.
pub struct NotificationRouter {
    listeners: Vec<Listener>,
    issued: u64,
}

/// The mathematical content of one listener.
pub struct ListenerView {
    /// The peripheral that it listens to.
    pub address: BDAddr,
    /// The UUID of the characteristic that it listens to.
    pub uuid: u128,
    /// The notifications that wait for it, oldest first.
    pub backlog: Seq<NotificationView>,
}

/// The mathematical content of a [`NotificationRouter`]: the listeners by
/// handle, and the number of handles given out.
pub struct RouterView {
    pub listeners: Map<u64, ListenerView>,
    pub issued: nat,
}

/// The content of a row of notifications.
pub open spec fn notifications_view(row: Seq<ValueNotification>) -> Seq<NotificationView> {
    Seq::new(row.len(), |i: int| row[i]@)
}

/// The content of an optional notification.
pub open spec fn notification_option_view(n: Option<ValueNotification>) -> Option<
    NotificationView,
> {
    match n {
        Some(n) => Some(n@),
        None => None,
    }
}

/// The router after a listener for the characteristic `uuid` of `address`
/// joined, and the new handle. Its backlog is empty.
pub open spec fn listen_spec(d: RouterView, address: BDAddr, uuid: u128) -> (RouterView, u64) {
    (
        RouterView {
            listeners: d.listeners.insert(
                d.issued as u64,
                ListenerView { address, uuid, backlog: Seq::empty() },
            ),
            issued: d.issued + 1,
        },
        d.issued as u64,
    )
}

/// One listener after a notification from `address` arrived: it waits at
/// the end of the backlog where the listener listens to that peripheral and
/// that characteristic, and nowhere else.
pub open spec fn delivered(l: ListenerView, address: BDAddr, n: NotificationView) -> ListenerView {
    if l.address == address && l.uuid == n.uuid {
        ListenerView { backlog: l.backlog.push(n), ..l }
    } else {
        l
    }
}

/// The router after a notification from `address` arrived.
pub open spec fn route_spec(d: RouterView, address: BDAddr, n: NotificationView) -> RouterView {
    RouterView {
        listeners: Map::new(
            |id: u64| d.listeners.contains_key(id),
            |id: u64| delivered(d.listeners[id], address, n),
        ),
        issued: d.issued,
    }
}

/// The router after a listener left. The others stay as they are.
pub open spec fn stop_spec(d: RouterView, id: u64) -> RouterView {
    RouterView { listeners: d.listeners.remove(id), issued: d.issued }
}

/// The router after a listener took its oldest waiting notification, and
/// that notification. Nothing is taken where nothing waits or the handle is
/// unknown.
pub open spec fn take_notification_spec(d: RouterView, id: u64) -> (
    RouterView,
    Option<NotificationView>,
) {
    if d.listeners.contains_key(id) && d.listeners[id].backlog.len() > 0 {
        (
            RouterView {
                listeners: d.listeners.insert(
                    id,
                    ListenerView {
                        backlog: d.listeners[id].backlog.drop_first(),
                        ..d.listeners[id]
                    },
                ),
                issued: d.issued,
            },
            Some(d.listeners[id].backlog[0]),
        )
    } else {
        (d, None)
    }
}

impl View for Listener {
    type V = ListenerView;

    closed spec fn view(&self) -> ListenerView {
        ListenerView {
            address: self.address,
            uuid: self.uuid,
            backlog: notifications_view(self.backlog@),
        }
    }
}

/// Whether some listener of a row has the handle `id`.
spec fn has_id(row: Seq<Listener>, id: u64) -> bool {
    exists|i: int| 0 <= i < row.len() && (#[trigger] row[i]).id == id
}

/// The place in a row of the listener with the handle `id`.
spec fn slot(row: Seq<Listener>, id: u64) -> int {
    choose|i: int| 0 <= i < row.len() && (#[trigger] row[i]).id == id
}

/// Whether the handles of a row rise strictly and were all given out.
spec fn rising(row: Seq<Listener>, issued: u64) -> bool {
    &&& forall|i: int, j: int|
        #![trigger row[i], row[j]]
        0 <= i < j < row.len() ==> row[i].id < row[j].id
    &&& forall|i: int| 0 <= i < row.len() ==> (#[trigger] row[i]).id < issued
}

/// The listeners of a row, by handle.
spec fn listeners_of(row: Seq<Listener>) -> Map<u64, ListenerView> {
    Map::new(|id: u64| has_id(row, id), |id: u64| row[slot(row, id)]@)
}

/// In a row with rising handles a handle is at one place only.
proof fn lemma_slot(row: Seq<Listener>, issued: u64, i: int)
    requires
        rising(row, issued),
        0 <= i < row.len(),
    ensures
        has_id(row, row[i].id),
        slot(row, row[i].id) == i,
        listeners_of(row).contains_key(row[i].id),
        listeners_of(row)[row[i].id] == row[i]@,
{
    let id = row[i].id;
    let k = slot(row, id);
    assert(0 <= k < row.len() && row[k].id == id);
    if k < i {
        assert(row[k].id < row[i].id);
    } else if i < k {
        assert(row[i].id < row[k].id);
    }
}

/// Two rows of equal length with the same handles at the same places hold
/// the same handles, each at its place in both.
proof fn lemma_same_handles(before: Seq<Listener>, after: Seq<Listener>, issued: u64)
    requires
        rising(before, issued),
        before.len() == after.len(),
        forall|k: int| 0 <= k < after.len() ==> (#[trigger] after[k]).id == before[k].id,
    ensures
        rising(after, issued),
        forall|x: u64| has_id(after, x) == has_id(before, x),
        forall|x: u64| has_id(after, x) ==> slot(after, x) == slot(before, x),
        listeners_of(after).dom() =~= listeners_of(before).dom(),
{
    assert forall|i: int, j: int|
        #![trigger after[i], after[j]]
        0 <= i < j < after.len() implies after[i].id < after[j].id by {
        assert(before[i].id < before[j].id);
    }
    assert forall|i: int| 0 <= i < after.len() implies (#[trigger] after[i]).id < issued by {
        assert(before[i].id < issued);
    }
    assert forall|x: u64| has_id(after, x) == has_id(before, x) by {
        if has_id(after, x) {
            let k = slot(after, x);
            assert(before[k].id == x);
        }
        if has_id(before, x) {
            let k = slot(before, x);
            assert(after[k].id == x);
        }
    }
    assert forall|x: u64| has_id(after, x) implies slot(after, x) == slot(before, x) by {
        let k = slot(after, x);
        lemma_slot(after, issued, k);
        lemma_slot(before, issued, k);
    }
}

impl View for NotificationRouter {
    type V = RouterView;

    closed spec fn view(&self) -> RouterView {
        RouterView { listeners: listeners_of(self.listeners@), issued: self.issued as nat }
    }
}

impl NotificationRouter {
    /// Whether the router is in order inside: each handle was given out once
    /// and belongs to at most one listener.
    pub closed spec fn wf(&self) -> bool {
        rising(self.listeners@, self.issued)
    }

    /// A router without listeners.
    pub fn new() -> (r: NotificationRouter)
        ensures
            r.wf(),
            r@.listeners == Map::<u64, ListenerView>::empty(),
            r@.issued == 0,
    {
        let r = NotificationRouter { listeners: Vec::new(), issued: 0 };
        assert(r@.listeners =~= Map::<u64, ListenerView>::empty());
        r
    }

    /// Where the listener with the handle `id` stands, if there is one.
    fn position(&self, id: u64) -> (r: Option<usize>)
        requires
            self.wf(),
        ensures
            match r {
                Some(i) => i < self.listeners@.len() && self.listeners@[i as int].id == id,
                None => !self@.listeners.contains_key(id),
            },
    {
        let mut i: usize = 0;
        while i < self.listeners.len()
            invariant
                i <= self.listeners@.len(),
                forall|k: int| 0 <= k < i ==> (#[trigger] self.listeners@[k]).id != id,
            decreases self.listeners.len() - i,
        {
            if self.listeners[i].id == id {
                return Some(i);
            }
            i += 1;
        }
        None
    }

    /// How many notifications wait for the listener `id`; nothing for an
    /// unknown handle.
    pub fn pending(&self, id: u64) -> (r: Option<usize>)
        requires
            self.wf(),
        ensures
            match r {
                Some(n) => self@.listeners.contains_key(id) && n
                    == self@.listeners[id].backlog.len(),
                None => !self@.listeners.contains_key(id),
            },
    {
        match self.position(id) {
            Some(i) => {
                proof {
                    lemma_slot(self.listeners@, self.issued, i as int);
                }
                Some(self.listeners[i].backlog.len())
            },
            None => None,
        }
    }

    /// Whether another handle can still be given out.
    pub fn can_listen(&self) -> (r: bool)
        ensures
            r == (self@.issued < u64::MAX),
    {
        self.issued < u64::MAX
    }

    /// Adds a listener for the characteristic `uuid` of `address`, with an
    /// empty backlog, and returns its handle.
    pub fn listen(&mut self, address: BDAddr, uuid: u128) -> (id: u64)
        requires
            old(self).wf(),
            old(self)@.issued < u64::MAX,
        ensures
            final(self).wf(),
            (final(self)@, id) == listen_spec(old(self)@, address, uuid),
    {
        let id: u64 = self.issued;
        let ghost before = self.listeners@;
        self.listeners.push(Listener { id, address, uuid, backlog: VecDeque::new() });
        self.issued = id + 1;
        proof {
            let after = self.listeners@;
            let expected = listen_spec(old(self)@, address, uuid).0.listeners;
            assert(rising(after, self.issued));
            assert forall|x: u64| #[trigger]
                self@.listeners.dom().contains(x) == expected.dom().contains(x) by {
                if has_id(after, x) {
                    let k = slot(after, x);
                    if k < before.len() {
                        assert(before[k].id == x);
                    }
                }
                if has_id(before, x) {
                    let k = slot(before, x);
                    assert(after[k].id == x);
                }
                if x == id {
                    assert(after[before.len() as int].id == x);
                }
            }
            assert forall|x: u64| self@.listeners.dom().contains(x) implies #[trigger]
                self@.listeners[x] == expected[x] by {
                let k = slot(after, x);
                lemma_slot(after, self.issued, k);
                if k < before.len() {
                    assert(before[k] == after[k]);
                    lemma_slot(before, id, k);
                } else {
                    assert(notifications_view(after[k].backlog@) =~= Seq::empty());
                }
            }
            assert(self@.listeners =~= expected);
        }
        id
    }

    /// Hands a notification from `address` to every listener for that
    /// peripheral and the notification's characteristic.
    pub fn route(&mut self, address: BDAddr, notification: &ValueNotification)
        requires
            old(self).wf(),
        ensures
            final(self).wf(),
            final(self)@ == route_spec(old(self)@, address, notification@),
    {
        let ghost before = self.listeners@;
        let key: u64 = address.key();
        let n: usize = self.listeners.len();
        let mut i: usize = 0;
        while i < n
            invariant
                i <= n,
                n == before.len(),
                key == address.spec_key(),
                self.listeners@.len() == n,
                self.issued == old(self).issued,
                forall|k: int| 0 <= k < n ==> (#[trigger] self.listeners@[k]).id == before[k].id,
                forall|k: int|
                    0 <= k < i ==> (#[trigger] self.listeners@[k])@ == delivered(
                        before[k]@,
                        address,
                        notification@,
                    ),
                forall|k: int| i <= k < n ==> (#[trigger] self.listeners@[k]) == before[k],
            decreases n - i,
        {
            proof {
                if self.listeners@[i as int].address.spec_key() == key {
                    crate::address::lemma_key_determines_address(
                        self.listeners@[i as int].address,
                        address,
                    );
                }
            }
            if self.listeners[i].address.key() == key && self.listeners[i].uuid
                == notification.uuid {
                let copy = notification.clone();
                self.listeners[i].backlog.push_back(copy);
                assert(notifications_view(self.listeners@[i as int].backlog@)
                    =~= notifications_view(before[i as int].backlog@).push(notification@));
            }
            i += 1;
        }
        proof {
            let after = self.listeners@;
            let expected = route_spec(old(self)@, address, notification@).listeners;
            lemma_same_handles(before, after, self.issued);
            assert forall|x: u64| self@.listeners.dom().contains(x) implies #[trigger]
                self@.listeners[x] == expected[x] by {
                let k = slot(after, x);
                lemma_slot(after, self.issued, k);
                lemma_slot(before, self.issued, k);
            }
            assert(self@.listeners =~= expected);
        }
    }

    /// Removes the listener `id` together with its backlog, and says whether
    /// there was one. The other listeners keep theirs.
    pub fn stop(&mut self, id: u64) -> (r: bool)
        requires
            old(self).wf(),
        ensures
            final(self).wf(),
            r == old(self)@.listeners.contains_key(id),
            final(self)@ == stop_spec(old(self)@, id),
    {
        let ghost before = self.listeners@;
        match self.position(id) {
            Some(i) => {
                proof {
                    lemma_slot(before, self.issued, i as int);
                }
                let _ = self.listeners.remove(i);
                proof {
                    let after = self.listeners@;
                    let expected = stop_spec(old(self)@, id).listeners;
                    assert forall|a: int, b: int|
                        #![trigger after[a], after[b]]
                        0 <= a < b < after.len() implies after[a].id < after[b].id by {
                        let x = if a < i { a } else { a + 1 };
                        let y = if b < i { b } else { b + 1 };
                        assert(before[x].id < before[y].id);
                    }
                    assert forall|a: int| 0 <= a < after.len() implies (#[trigger] after[a]).id
                        < self.issued by {
                        let x = if a < i { a } else { a + 1 };
                        assert(before[x].id < self.issued);
                    }
                    assert(rising(after, self.issued));
                    assert forall|x: u64| #[trigger]
                        self@.listeners.dom().contains(x) == expected.dom().contains(x) by {
                        if has_id(after, x) {
                            let k = slot(after, x);
                            let k0 = if k < i { k } else { k + 1 };
                            assert(before[k0].id == x);
                            if x == id {
                                lemma_slot(before, self.issued, k0);
                            }
                        }
                        if has_id(before, x) && x != id {
                            let k0 = slot(before, x);
                            let k = if k0 < i { k0 } else { k0 - 1 };
                            assert(after[k].id == x);
                        }
                    }
                    assert forall|x: u64| self@.listeners.dom().contains(x) implies #[trigger]
                        self@.listeners[x] == expected[x] by {
                        let k = slot(after, x);
                        let k0 = if k < i { k } else { k + 1 };
                        lemma_slot(after, self.issued, k);
                        assert(before[k0] == after[k]);
                        lemma_slot(before, self.issued, k0);
                    }
                    assert(self@.listeners =~= expected);
                }
                true
            },
            None => {
                assert(self@.listeners =~= stop_spec(old(self)@, id).listeners);
                false
            },
        }
    }

    /// Takes the oldest waiting notification of the listener `id` out of its
    /// backlog. Nothing is taken where nothing waits or the handle is unknown.
    pub fn next_notification(&mut self, id: u64) -> (r: Option<ValueNotification>)
        requires
            old(self).wf(),
        ensures
            final(self).wf(),
            (final(self)@, notification_option_view(r)) == take_notification_spec(old(self)@, id),
    {
        let ghost before = self.listeners@;
        match self.position(id) {
            Some(i) => {
                proof {
                    lemma_slot(before, self.issued, i as int);
                }
                let taken: Option<ValueNotification> = self.listeners[i].backlog.pop_front();
                proof {
                    let after = self.listeners@;
                    let expected = take_notification_spec(old(self)@, id).0.listeners;
                    assert forall|k: int| 0 <= k < after.len() implies (#[trigger] after[k]).id
                        == before[k].id by {}
                    lemma_same_handles(before, after, self.issued);
                    lemma_slot(after, self.issued, i as int);
                    if taken is Some {
                        assert(notifications_view(after[i as int].backlog@)
                            =~= notifications_view(before[i as int].backlog@).drop_first());
                    }
                    assert forall|x: u64| self@.listeners.dom().contains(x) implies #[trigger]
                        self@.listeners[x] == expected[x] by {
                        let k = slot(after, x);
                        lemma_slot(after, self.issued, k);
                        lemma_slot(before, self.issued, k);
                    }
                    assert(self@.listeners =~= expected);
                }
                taken
            },
            None => None,
        }
    }
}

/// A notification reaches exactly the listeners for its peripheral and its
/// characteristic, behind what waited for them already; every other
/// listener keeps its backlog, and nobody joins or leaves.
pub proof fn lemma_route_reaches_its_listeners(
    d: RouterView,
    address: BDAddr,
    n: NotificationView,
    id: u64,
)
    requires
        d.listeners.contains_key(id),
    ensures
        ({
            let after = route_spec(d, address, n);
            let l = d.listeners[id];
            &&& after.listeners.dom() == d.listeners.dom()
            &&& after.listeners[id].address == l.address
            &&& after.listeners[id].uuid == l.uuid
            &&& l.address == address && l.uuid == n.uuid ==> after.listeners[id].backlog
                == l.backlog.push(n)
            &&& !(l.address == address && l.uuid == n.uuid) ==> after.listeners[id].backlog
                == l.backlog
        }),
{
    assert(route_spec(d, address, n).listeners.dom() =~= d.listeners.dom());
}

/// Of two notifications that arrive one after the other for the same
/// characteristic of the same peripheral, every listener finds the first
/// before the second.
pub proof fn lemma_route_order(
    d: RouterView,
    address: BDAddr,
    first: NotificationView,
    second: NotificationView,
    id: u64,
)
    requires
        d.listeners.contains_key(id),
        d.listeners[id].address == address,
        d.listeners[id].uuid == first.uuid,
        first.uuid == second.uuid,
    ensures
        route_spec(route_spec(d, address, first), address, second).listeners[id].backlog
            == d.listeners[id].backlog + seq![first, second],
{
    let after = route_spec(route_spec(d, address, first), address, second);
    assert(after.listeners[id].backlog =~= d.listeners[id].backlog + seq![first, second]);
}

} // verus!
