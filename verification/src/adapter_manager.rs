//! The adapter manager: what a platform driver reports to, and what an
//! application asks.
//!
//! The driver reports advertisements, connection changes and discovered
//! characteristics. The manager keeps the registry of peripherals up to
//! date and tells the subscribers what changed. It performs no radio I/O.

use crate::address::{AddressType, BDAddr};
use crate::characteristic::{
    is_characteristic_set, Characteristic, NotificationView, ValueNotification,
};
use crate::dispatcher::{
    event_option_view, publish_all_spec, publish_spec, subscribe_spec, take_spec, unsubscribe_spec,
    DispatcherView, EventDispatcher,
};
use crate::error::Error;
use crate::event::{events_view, CentralEvent, EventView};
use crate::laws::{lemma_merge_all_counts, merge_all};
use crate::merge::{changes_spec, merge_base, merge_spec, ChangesView, MergeChanges};
use crate::notifications::{
    listen_spec, notification_option_view, route_spec, stop_spec, take_notification_spec,
    ListenerView, NotificationRouter, RouterView,
};
use crate::properties::{copy_bytes, copy_uuids, entries, AdvertisementReport, ReportView};
use crate::registry::{
    connected_spec, ensure_record_spec, lookup, mark_connected_spec, record_properties,
    upsert_spec, DeviceRecord, DeviceRegistry, RecordView,
};
use vstd::prelude::*;

verus! {

/// One manufacturer-data event for each entry of a row, in the row's order.
pub open spec fn manufacturer_data_events(address: BDAddr, changed: Seq<(u16, Seq<u8>)>) -> Seq<
    EventView,
> {
    Seq::new(
        changed.len(),
        |i: int|
            EventView::ManufacturerDataAdvertisement {
                address,
                manufacturer_id: changed[i].0,
                data: changed[i].1,
            },
    )
}

/// One service-data event for each entry of a row, in the row's order.
pub open spec fn service_data_events(address: BDAddr, changed: Seq<(u128, Seq<u8>)>) -> Seq<
    EventView,
> {
    Seq::new(
        changed.len(),
        |i: int|
            EventView::ServiceDataAdvertisement {
                address,
                service: changed[i].0,
                data: changed[i].1,
            },
    )
}

/// The event or no event that a condition calls for.
pub open spec fn event_if(condition: bool, event: EventView) -> Seq<EventView> {
    if condition {
        seq![event]
    } else {
        Seq::empty()
    }
}

/// The events that a merged report calls for, in the order in which they
/// are published: the discovery of a new device; the new service list, if
/// the list changed; one event for each changed manufacturer-data entry;
/// one for each changed service-data entry; and the update of a device
/// that was known before.
pub open spec fn advertisement_events_spec(
    address: BDAddr,
    services: Seq<u128>,
    changes: ChangesView,
) -> Seq<EventView> {
    event_if(changes.first_discovery, EventView::DeviceDiscovered(address)) + event_if(
        changes.services_changed,
        EventView::ServicesAdvertisement { address, services },
    ) + manufacturer_data_events(address, changes.manufacturer_data) + service_data_events(
        address,
        changes.service_data,
    ) + event_if(!changes.first_discovery, EventView::DeviceUpdated(address))
}

/// The event that a reported connection state calls for: one where the
/// state differs from the recorded one, none where it is the same or the
/// address is unknown.
pub open spec fn connection_event_spec(
    previous: Option<bool>,
    address: BDAddr,
    connected: bool,
) -> Option<EventView> {
    match previous {
        Some(before) => if before == connected {
            None
        } else if connected {
            Some(EventView::DeviceConnected(address))
        } else {
            Some(EventView::DeviceDisconnected(address))
        },
        None => None,
    }
}

/// The events that a merged report calls for, in publishing order.
pub fn advertisement_events(
    address: BDAddr,
    report: &AdvertisementReport,
    changes: MergeChanges,
) -> (r: Vec<CentralEvent>)
    ensures
        events_view(r@) == advertisement_events_spec(address, report@.services, changes@),
{
    let ghost all = changes@;
    let MergeChanges { first_discovery, name_changed: _, services_changed, manufacturer_data, service_data } =
        changes;
    let mut out: Vec<CentralEvent> = Vec::new();
    if first_discovery {
        out.push(CentralEvent::DeviceDiscovered(address));
    }
    if services_changed {
        out.push(
            CentralEvent::ServicesAdvertisement { address, services: copy_uuids(&report.services) },
        );
    }
    let ghost head = events_view(out@);
    assert(head =~= event_if(first_discovery, EventView::DeviceDiscovered(address)) + event_if(
        services_changed,
        EventView::ServicesAdvertisement { address, services: report@.services },
    ));
    let mut manufacturer_data = manufacturer_data;
    let mut i: usize = 0;
    let n: usize = manufacturer_data.len();
    while i < n
        invariant
            i <= n,
            n == manufacturer_data@.len(),
            entries(manufacturer_data@) == all.manufacturer_data,
            events_view(out@) == head + manufacturer_data_events(
                address,
                all.manufacturer_data.take(i as int),
            ),
        decreases n - i,
    {
        let id: u16 = manufacturer_data[i].0;
        let data: Vec<u8> = copy_bytes(&manufacturer_data[i].1);
        let ghost earlier = events_view(out@);
        let ghost event = EventView::ManufacturerDataAdvertisement {
            address,
            manufacturer_id: id,
            data: data@,
        };
        out.push(CentralEvent::ManufacturerDataAdvertisement { address, manufacturer_id: id, data });
        assert(events_view(out@) =~= earlier.push(event));
        assert(all.manufacturer_data[i as int] == (id, data@));
        assert(manufacturer_data_events(address, all.manufacturer_data.take(i + 1))
            =~= manufacturer_data_events(address, all.manufacturer_data.take(i as int)).push(
            event,
        ));
        assert(events_view(out@) =~= head + manufacturer_data_events(
            address,
            all.manufacturer_data.take(i + 1),
        ));
        i += 1;
    }
    assert(all.manufacturer_data.take(n as int) =~= all.manufacturer_data);
    let ghost middle = events_view(out@);
    let mut j: usize = 0;
    let m: usize = service_data.len();
    while j < m
        invariant
            j <= m,
            m == service_data@.len(),
            entries(service_data@) == all.service_data,
            events_view(out@) == middle + service_data_events(
                address,
                all.service_data.take(j as int),
            ),
        decreases m - j,
    {
        let service: u128 = service_data[j].0;
        let data: Vec<u8> = copy_bytes(&service_data[j].1);
        let ghost earlier = events_view(out@);
        let ghost event = EventView::ServiceDataAdvertisement { address, service, data: data@ };
        out.push(CentralEvent::ServiceDataAdvertisement { address, service, data });
        assert(events_view(out@) =~= earlier.push(event));
        assert(all.service_data[j as int] == (service, data@));
        assert(service_data_events(address, all.service_data.take(j + 1)) =~= service_data_events(
            address,
            all.service_data.take(j as int),
        ).push(event));
        assert(events_view(out@) =~= middle + service_data_events(
            address,
            all.service_data.take(j + 1),
        ));
        j += 1;
    }
    assert(all.service_data.take(m as int) =~= all.service_data);
    let ghost body = events_view(out@);
    if !first_discovery {
        out.push(CentralEvent::DeviceUpdated(address));
    }
    assert(events_view(out@) =~= body + event_if(
        !first_discovery,
        EventView::DeviceUpdated(address),
    ));
    out
}

/// The event that a reported connection state calls for, if it calls for
/// one: the state must differ from the recorded one.
pub fn connection_event(previous: Option<bool>, address: BDAddr, connected: bool) -> (r: Option<
    CentralEvent,
>)
    ensures
        event_option_view(r) == connection_event_spec(previous, address, connected),
{
    match previous {
        Some(before) => {
            if before == connected {
                None
            } else if connected {
                Some(CentralEvent::DeviceConnected(address))
            } else {
                Some(CentralEvent::DeviceDisconnected(address))
            }
        },
        None => None,
    }
}

/// The registry of peripherals together with the subscribers of events and
/// the listeners for value notifications.
pub struct AdapterManager {
    registry: DeviceRegistry,
    dispatcher: EventDispatcher,
    router: NotificationRouter,
}

/// The mathematical content of an [`AdapterManager`].
pub struct ManagerView {
    /// The record of each known peripheral.
    pub peripherals: Map<BDAddr, RecordView>,
    /// The subscribers of events and what waits for each.
    pub subscribers: DispatcherView,
    /// The listeners for value notifications and what waits for each.
    pub listeners: RouterView,
}

/// The manager after a report for `address` came in: the report is merged
/// into the registry, and the events that the merge calls for are published.
pub open spec fn report_spec(m: ManagerView, address: BDAddr, report: ReportView) -> ManagerView {
    let changes = changes_spec(
        record_properties(lookup(m.peripherals, address)),
        address,
        report,
    );
    ManagerView {
        peripherals: upsert_spec(m.peripherals, address, report),
        subscribers: publish_all_spec(
            m.subscribers,
            advertisement_events_spec(address, report.services, changes),
        ),
        listeners: m.listeners,
    }
}

/// The manager after a connection state for `address` came in: the state is
/// recorded, and an event is published only where the state changed.
pub open spec fn connection_spec(m: ManagerView, address: BDAddr, connected: bool) -> ManagerView {
    ManagerView {
        peripherals: mark_connected_spec(m.peripherals, address, connected),
        subscribers: match connection_event_spec(
            connected_spec(m.peripherals, address),
            address,
            connected,
        ) {
            Some(event) => publish_spec(m.subscribers, event),
            None => m.subscribers,
        },
        listeners: m.listeners,
    }
}

/// The manager after the driver reported that `address` no longer
/// advertises: the loss of a known device is published, and its record stays
/// as it is.
pub open spec fn lost_spec(m: ManagerView, address: BDAddr) -> ManagerView {
    if m.peripherals.contains_key(address) {
        ManagerView {
            subscribers: publish_spec(m.subscribers, EventView::DeviceLost(address)),
            ..m
        }
    } else {
        m
    }
}

/// The manager after a value notification from `address` came in: it is
/// handed to the listeners for its characteristic while a connection to the
/// peripheral stands, and dropped otherwise.
pub open spec fn value_notification_spec(
    m: ManagerView,
    address: BDAddr,
    notification: NotificationView,
) -> ManagerView {
    if connected_spec(m.peripherals, address) == Some(true) {
        ManagerView { listeners: route_spec(m.listeners, address, notification), ..m }
    } else {
        m
    }
}

impl View for AdapterManager {
    type V = ManagerView;

    closed spec fn view(&self) -> ManagerView {
        ManagerView {
            peripherals: self.registry@,
            subscribers: self.dispatcher@,
            listeners: self.router@,
        }
    }
}

impl AdapterManager {
    /// Whether the manager is in order inside.
    pub closed spec fn wf(&self) -> bool {
        self.registry.wf() && self.dispatcher.wf() && self.router.wf()
    }

    /// A manager that knows no peripheral and has no subscriber or listener.
    pub fn new() -> (r: AdapterManager)
        ensures
            r.wf(),
            r@.peripherals == Map::<BDAddr, RecordView>::empty(),
            r@.subscribers.backlogs == Map::<u64, Seq<EventView>>::empty(),
            r@.subscribers.issued == 0,
            r@.listeners.listeners == Map::<u64, ListenerView>::empty(),
            r@.listeners.issued == 0,
    {
        AdapterManager {
            registry: DeviceRegistry::new(),
            dispatcher: EventDispatcher::new(),
            router: NotificationRouter::new(),
        }
    }

    /// Whether one more report for `address` can be counted.
    pub fn can_accept_report(&self, address: BDAddr) -> (r: bool)
        requires
            self.wf(),
        ensures
            r == (self@.peripherals.contains_key(address)
                ==> self@.peripherals[address].properties.discovery_count < u32::MAX),
    {
        match self.registry.discovery_count(address) {
            Some(n) => n < u32::MAX,
            None => true,
        }
    }

    /// Takes an advertisement report for `address`: merges it into the
    /// registry and publishes, in this order, the discovery of a new device,
    /// a changed service list, each changed manufacturer-data entry, each
    /// changed service-data entry, and the update of a device known before.
    pub fn on_advertisement_report(&mut self, address: BDAddr, report: &AdvertisementReport)
        requires
            old(self).wf(),
            old(self)@.peripherals.contains_key(address) ==> old(
                self,
            )@.peripherals[address].properties.discovery_count < u32::MAX,
        ensures
            final(self).wf(),
            final(self)@ == report_spec(old(self)@, address, report@),
    {
        let (changes, _created) = self.registry.upsert(address, report);
        let events = advertisement_events(address, report, changes);
        self.dispatcher.publish_all(&events);
    }

    /// Takes a connection state for `address`: records it, and publishes
    /// that the device connected or disconnected only where the state is
    /// another one than the recorded one. An unknown address changes nothing.
    pub fn on_connection_state_changed(&mut self, address: BDAddr, connected: bool)
        requires
            old(self).wf(),
        ensures
            final(self).wf(),
            final(self)@ == connection_spec(old(self)@, address, connected),
    {
        let previous = self.registry.mark_connected(address, connected);
        match connection_event(previous, address, connected) {
            Some(event) => {
                self.dispatcher.publish(&event);
            },
            None => {},
        }
    }

    /// Takes the characteristics that a discovery found for `address` and
    /// records their set. Publishes nothing. Fails for an unknown address.
    pub fn on_characteristics_discovered(
        &mut self,
        address: BDAddr,
        found: &Vec<Characteristic>,
    ) -> (r: Result<(), Error>)
        requires
            old(self).wf(),
        ensures
            final(self).wf(),
            r is Ok <==> old(self)@.peripherals.contains_key(address),
            r is Err ==> r == Err::<(), Error>(Error::NotFound) && final(self)@ == old(self)@,
            r is Ok ==> {
                let set = final(self)@.peripherals[address].characteristics;
                &&& is_characteristic_set(set)
                &&& set.to_set() == found@.to_set()
                &&& final(self)@ == ManagerView {
                    peripherals: old(self)@.peripherals.insert(
                        address,
                        RecordView { characteristics: set, ..old(self)@.peripherals[address] },
                    ),
                    ..old(self)@
                }
            },
    {
        self.registry.set_characteristics(address, found)
    }

    /// Takes the driver's word that `address` no longer advertises. The
    /// library has no clock: when a device counts as lost is for the driver
    /// to say. The loss of a known device is published; its record is kept,
    /// with all that was merged into it, so that it can still be looked up.
    /// For an unknown address nothing happens.
    pub fn on_device_lost(&mut self, address: BDAddr)
        requires
            old(self).wf(),
        ensures
            final(self).wf(),
            final(self)@ == lost_spec(old(self)@, address),
    {
        if self.registry.contains(address) {
            self.dispatcher.publish(&CentralEvent::DeviceLost(address));
        }
    }

    /// Takes a value notification from `address`: hands it to the listeners
    /// for its characteristic while a connection to the peripheral stands.
    /// Without a connection, or for an unknown address, it is dropped.
    pub fn on_value_notification(&mut self, address: BDAddr, notification: &ValueNotification)
        requires
            old(self).wf(),
        ensures
            final(self).wf(),
            final(self)@ == value_notification_spec(old(self)@, address, notification@),
    {
        match self.registry.is_connected(address) {
            Some(true) => {
                self.router.route(address, notification);
            },
            _ => {},
        }
    }

    /// Makes sure that `address` has a record before a connection to it is
    /// made: an address that never advertised gets a minimal record. Says
    /// whether a record was made. Publishes nothing.
    pub fn add_peripheral(&mut self, address: BDAddr, address_type: AddressType) -> (created: bool)
        requires
            old(self).wf(),
        ensures
            final(self).wf(),
            final(self)@ == (ManagerView {
                peripherals: ensure_record_spec(old(self)@.peripherals, address, address_type),
                ..old(self)@
            }),
            created == !old(self)@.peripherals.contains_key(address),
    {
        self.registry.ensure_record(address, address_type)
    }

    /// Copies of the records of all peripherals seen so far, by rising
    /// address.
    pub fn peripherals(&self) -> (r: Vec<DeviceRecord>)
        requires
            self.wf(),
        ensures
            forall|i: int, j: int|
                #![trigger r@[i], r@[j]]
                0 <= i < j < r@.len() ==> r@[i].properties.address.spec_key()
                    < r@[j].properties.address.spec_key(),
            forall|i: int|
                0 <= i < r@.len() ==> lookup(
                    self@.peripherals,
                    (#[trigger] r@[i]).properties.address,
                ) == Some(r@[i]@),
            forall|a: BDAddr|
                self@.peripherals.contains_key(a) ==> exists|i: int|
                    0 <= i < r@.len() && (#[trigger] r@[i]).properties.address == a,
    {
        self.registry.list()
    }

    /// A copy of the record of `address`, if the peripheral was seen.
    pub fn peripheral(&self, address: BDAddr) -> (r: Option<DeviceRecord>)
        requires
            self.wf(),
        ensures
            match r {
                Some(record) => lookup(self@.peripherals, address) == Some(record@),
                None => lookup(self@.peripherals, address) is None,
            },
    {
        self.registry.get(address)
    }

    /// Whether another subscriber can still be given a handle.
    pub fn can_subscribe(&self) -> (r: bool)
        ensures
            r == (self@.subscribers.issued < u64::MAX),
    {
        self.dispatcher.can_subscribe()
    }

    /// Adds a subscriber and returns its handle. The subscriber gets the
    /// events that are published from now on.
    pub fn events(&mut self) -> (id: u64)
        requires
            old(self).wf(),
            old(self)@.subscribers.issued < u64::MAX,
        ensures
            final(self).wf(),
            final(self)@ == (ManagerView {
                subscribers: subscribe_spec(old(self)@.subscribers).0,
                ..old(self)@
            }),
            id == subscribe_spec(old(self)@.subscribers).1,
    {
        self.dispatcher.subscribe()
    }

    /// Takes the oldest event that waits for the subscriber `id`.
    pub fn next_event(&mut self, id: u64) -> (r: Option<CentralEvent>)
        requires
            old(self).wf(),
        ensures
            final(self).wf(),
            final(self)@ == (ManagerView {
                subscribers: take_spec(old(self)@.subscribers, id).0,
                ..old(self)@
            }),
            event_option_view(r) == take_spec(old(self)@.subscribers, id).1,
    {
        self.dispatcher.next_event(id)
    }

    /// Removes the subscriber `id`, and says whether there was one.
    pub fn unsubscribe(&mut self, id: u64) -> (r: bool)
        requires
            old(self).wf(),
        ensures
            final(self).wf(),
            final(self)@ == (ManagerView {
                subscribers: unsubscribe_spec(old(self)@.subscribers, id),
                ..old(self)@
            }),
            r == old(self)@.subscribers.backlogs.contains_key(id),
    {
        self.dispatcher.unsubscribe(id)
    }

    /// Whether another listener can still be given a handle.
    pub fn can_listen(&self) -> (r: bool)
        ensures
            r == (self@.listeners.issued < u64::MAX),
    {
        self.router.can_listen()
    }

    /// Adds a listener for the value notifications of the characteristic
    /// `uuid` of `address` and returns its handle.
    pub fn notifications(&mut self, address: BDAddr, uuid: u128) -> (id: u64)
        requires
            old(self).wf(),
            old(self)@.listeners.issued < u64::MAX,
        ensures
            final(self).wf(),
            final(self)@ == (ManagerView {
                listeners: listen_spec(old(self)@.listeners, address, uuid).0,
                ..old(self)@
            }),
            id == listen_spec(old(self)@.listeners, address, uuid).1,
    {
        self.router.listen(address, uuid)
    }

    /// Takes the oldest notification that waits for the listener `id`.
    pub fn next_notification(&mut self, id: u64) -> (r: Option<ValueNotification>)
        requires
            old(self).wf(),
        ensures
            final(self).wf(),
            final(self)@ == (ManagerView {
                listeners: take_notification_spec(old(self)@.listeners, id).0,
                ..old(self)@
            }),
            notification_option_view(r) == take_notification_spec(old(self)@.listeners, id).1,
    {
        self.router.next_notification(id)
    }

    /// Removes the listener `id`, and says whether there was one.
    pub fn stop_notifications(&mut self, id: u64) -> (r: bool)
        requires
            old(self).wf(),
        ensures
            final(self).wf(),
            final(self)@ == (ManagerView {
                listeners: stop_spec(old(self)@.listeners, id),
                ..old(self)@
            }),
            r == old(self)@.listeners.listeners.contains_key(id),
    {
        self.router.stop(id)
    }
}

/// A connection state that is reported twice in a row is published at most
/// once: the second report changes nothing and publishes nothing.
pub proof fn lemma_repeated_state_is_silent(m: ManagerView, address: BDAddr, connected: bool)
    ensures
        ({
            let once = connection_spec(m, address, connected);
            &&& connection_event_spec(connected_spec(once.peripherals, address), address, connected)
                is None
            &&& connection_spec(once, address, connected) == once
        }),
{
    let once = connection_spec(m, address, connected);
    assert(mark_connected_spec(once.peripherals, address, connected) =~= once.peripherals);
}

/// Two reports in a row that a known, unconnected device connected publish
/// exactly one event, that the device connected.
pub proof fn lemma_connected_twice_publishes_once(m: ManagerView, address: BDAddr)
    requires
        m.peripherals.contains_key(address),
        !m.peripherals[address].connected,
    ensures
        ({
            let once = connection_spec(m, address, true);
            let twice = connection_spec(once, address, true);
            &&& once.subscribers == publish_spec(m.subscribers, EventView::DeviceConnected(address))
            &&& twice.subscribers == once.subscribers
            &&& twice.peripherals[address].connected
        }),
{
    lemma_repeated_state_is_silent(m, address, true);
}

/// A connection event is published exactly where the recorded state
/// changes, and it names the new state: so of two events in a row for one
/// device, the second is never of the same kind as the first.
pub proof fn lemma_connection_event_marks_a_change(
    m: ManagerView,
    address: BDAddr,
    connected: bool,
)
    ensures
        ({
            let event = connection_event_spec(
                connected_spec(m.peripherals, address),
                address,
                connected,
            );
            let changes = m.peripherals.contains_key(address) && m.peripherals[address].connected
                != connected;
            &&& changes ==> event == Some(
                if connected {
                    EventView::DeviceConnected(address)
                } else {
                    EventView::DeviceDisconnected(address)
                },
            )
            &&& !changes ==> event is None
            &&& m.peripherals.contains_key(address) ==> mark_connected_spec(
                m.peripherals,
                address,
                connected,
            )[address].connected == connected
        }),
{
}

/// The manager after a row of connection states for `address` came in, first
/// state first.
pub open spec fn connection_run_spec(
    m: ManagerView,
    address: BDAddr,
    states: Seq<bool>,
) -> ManagerView
    decreases states.len(),
{
    if states.len() == 0 {
        m
    } else {
        connection_spec(connection_run_spec(m, address, states.drop_last()), address, states.last())
    }
}

/// The events that a row of connection states for a known device publishes,
/// if the device was recorded as `connected` before.
pub open spec fn connection_run_events(
    connected: bool,
    address: BDAddr,
    states: Seq<bool>,
) -> Seq<EventView>
    decreases states.len(),
{
    if states.len() == 0 {
        Seq::empty()
    } else {
        let earlier = states.drop_last();
        let recorded = if earlier.len() == 0 {
            connected
        } else {
            earlier.last()
        };
        match connection_event_spec(Some(recorded), address, states.last()) {
            Some(event) => connection_run_events(connected, address, earlier).push(event),
            None => connection_run_events(connected, address, earlier),
        }
    }
}

/// Whatever connection states are reported for a known device, and however
/// often each is repeated, the published events take turns: the first tells
/// the opposite of what was recorded, and each later one the opposite of the
/// one before it. The state recorded in the end is the last one reported.
pub proof fn lemma_connection_events_take_turns(
    m: ManagerView,
    address: BDAddr,
    states: Seq<bool>,
)
    requires
        m.peripherals.contains_key(address),
    ensures
        ({
            let before = m.peripherals[address].connected;
            let events = connection_run_events(before, address, states);
            let after = connection_run_spec(m, address, states);
            &&& after.subscribers == publish_all_spec(m.subscribers, events)
            &&& after.listeners == m.listeners
            &&& after.peripherals.contains_key(address)
            &&& after.peripherals[address].connected == (if states.len() == 0 {
                before
            } else {
                states.last()
            })
            &&& after.peripherals[address].connected == (before != (events.len() % 2 == 1))
            &&& forall|i: int|
                0 <= i < events.len() ==> #[trigger] events[i] == (if (i % 2 == 0) != before {
                    EventView::DeviceConnected(address)
                } else {
                    EventView::DeviceDisconnected(address)
                })
        }),
    decreases states.len(),
{
    if states.len() > 0 {
        let earlier = states.drop_last();
        lemma_connection_events_take_turns(m, address, earlier);
        let before = m.peripherals[address].connected;
        let head = connection_run_events(before, address, earlier);
        let middle = connection_run_spec(m, address, earlier);
        match connection_event_spec(Some(middle.peripherals[address].connected), address, states.last()) {
            Some(event) => {
                assert(head.push(event).drop_last() =~= head);
            },
            None => {},
        }
    }
}

/// The manager after a row of reports for `address` came in, first report
/// first.
pub open spec fn report_run_spec(
    m: ManagerView,
    address: BDAddr,
    reports: Seq<ReportView>,
) -> ManagerView
    decreases reports.len(),
{
    if reports.len() == 0 {
        m
    } else {
        report_spec(report_run_spec(m, address, reports.drop_last()), address, reports.last())
    }
}

/// After any row of reports for one address, the record of that address
/// holds all of them merged in order into what was recorded before, or into
/// fresh properties where nothing was; its characteristics and connection
/// flag are untouched, and so are the records of all other addresses.
pub proof fn lemma_reports_accumulate(m: ManagerView, address: BDAddr, reports: Seq<ReportView>)
    requires
        reports.len() > 0,
    ensures
        ({
            let after = report_run_spec(m, address, reports).peripherals;
            let existing = lookup(m.peripherals, address);
            let base = merge_base(record_properties(existing), address, reports[0]);
            &&& after.contains_key(address)
            &&& after[address].properties == merge_all(base, reports)
            &&& after[address].properties.discovery_count == base.discovery_count + reports.len()
            &&& after[address].connected == (existing matches Some(r) && r.connected)
            &&& after[address].characteristics == (match existing {
                Some(r) => r.characteristics,
                None => Seq::empty(),
            })
            &&& forall|other: BDAddr|
                other != address ==> #[trigger] after.contains_key(other)
                    == m.peripherals.contains_key(other)
            &&& forall|other: BDAddr|
                other != address && m.peripherals.contains_key(other) ==> #[trigger] after[other]
                    == m.peripherals[other]
        }),
    decreases reports.len(),
{
    let existing = lookup(m.peripherals, address);
    let base = merge_base(record_properties(existing), address, reports[0]);
    let earlier = reports.drop_last();
    let middle = report_run_spec(m, address, earlier);
    let after = report_run_spec(m, address, reports);
    assert(after == report_spec(middle, address, reports.last()));
    assert(merge_all(base, reports) == merge_spec(merge_all(base, earlier), reports.last()));
    lemma_merge_all_counts(base, reports);
    if earlier.len() == 0 {
        assert(middle == m);
        assert(merge_all(base, earlier) == base);
        assert(reports.last() == reports[0]);
    } else {
        assert(earlier[0] == reports[0]);
        lemma_reports_accumulate(m, address, earlier);
        assert(lookup(middle.peripherals, address) == Some(middle.peripherals[address]));
    }
}

/// A report leaves the records of all other addresses as they are, and a
/// record, once made, stays: no report and no connection change removes one.
pub proof fn lemma_records_persist(
    m: ManagerView,
    address: BDAddr,
    report: ReportView,
    connected: bool,
    other: BDAddr,
)
    requires
        m.peripherals.contains_key(other),
    ensures
        report_spec(m, address, report).peripherals.contains_key(other),
        connection_spec(m, address, connected).peripherals.contains_key(other),
        other != address ==> report_spec(m, address, report).peripherals[other]
            == m.peripherals[other],
        other != address ==> connection_spec(m, address, connected).peripherals[other]
            == m.peripherals[other],
        report_spec(m, address, report).peripherals[address].properties.discovery_count == (
        if m.peripherals.contains_key(address) {
            m.peripherals[address].properties.discovery_count + 1
        } else {
            1
        }),
{
}

} // verus!
