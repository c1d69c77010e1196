//! The events that a central tells its subscribers.

use crate::address::BDAddr;
use crate::properties::{copy_bytes, copy_uuids};
use vstd::prelude::*;

verus! {

/// Something that happened to a peripheral. An event is a fact about a
/// change, not the state after it.
#[derive(Debug)]
pub enum CentralEvent {
    DeviceDiscovered(BDAddr),
    DeviceLost(BDAddr),
    DeviceUpdated(BDAddr),
    DeviceConnected(BDAddr),
    DeviceDisconnected(BDAddr),
    /// The device advertised manufacturer data that it had not advertised before.
    ManufacturerDataAdvertisement { address: BDAddr, manufacturer_id: u16, data: Vec<u8> },
    /// The device advertised service data that it had not advertised before.
    ServiceDataAdvertisement { address: BDAddr, service: u128, data: Vec<u8> },
    /// The device advertised another list of services than before.
    ServicesAdvertisement { address: BDAddr, services: Vec<u128> },
}

/// The mathematical content of a [`CentralEvent`].
pub enum EventView {
    DeviceDiscovered(BDAddr),
    DeviceLost(BDAddr),
    DeviceUpdated(BDAddr),
    DeviceConnected(BDAddr),
    DeviceDisconnected(BDAddr),
    ManufacturerDataAdvertisement { address: BDAddr, manufacturer_id: u16, data: Seq<u8> },
    ServiceDataAdvertisement { address: BDAddr, service: u128, data: Seq<u8> },
    ServicesAdvertisement { address: BDAddr, services: Seq<u128> },
}

impl View for CentralEvent {
    type V = EventView;

    open spec fn view(&self) -> EventView {
        match *self {
            CentralEvent::DeviceDiscovered(a) => EventView::DeviceDiscovered(a),
            CentralEvent::DeviceLost(a) => EventView::DeviceLost(a),
            CentralEvent::DeviceUpdated(a) => EventView::DeviceUpdated(a),
            CentralEvent::DeviceConnected(a) => EventView::DeviceConnected(a),
            CentralEvent::DeviceDisconnected(a) => EventView::DeviceDisconnected(a),
            CentralEvent::ManufacturerDataAdvertisement { address, manufacturer_id, data } => {
                EventView::ManufacturerDataAdvertisement { address, manufacturer_id, data: data@ }
            },
            CentralEvent::ServiceDataAdvertisement { address, service, data } => {
                EventView::ServiceDataAdvertisement { address, service, data: data@ }
            },
            CentralEvent::ServicesAdvertisement { address, services } => {
                EventView::ServicesAdvertisement { address, services: services@ }
            },
        }
    }
}

impl EventView {
    /// The address of the peripheral that the event is about.
    pub open spec fn address(self) -> BDAddr {
        match self {
            EventView::DeviceDiscovered(a) => a,
            EventView::DeviceLost(a) => a,
            EventView::DeviceUpdated(a) => a,
            EventView::DeviceConnected(a) => a,
            EventView::DeviceDisconnected(a) => a,
            EventView::ManufacturerDataAdvertisement { address, .. } => address,
            EventView::ServiceDataAdvertisement { address, .. } => address,
            EventView::ServicesAdvertisement { address, .. } => address,
        }
    }
}

impl CentralEvent {
    /// The address of the peripheral that the event is about.
    pub fn address(&self) -> (r: BDAddr)
        ensures
            r == self@.address(),
    {
        match self {
            CentralEvent::DeviceDiscovered(a) => *a,
            CentralEvent::DeviceLost(a) => *a,
            CentralEvent::DeviceUpdated(a) => *a,
            CentralEvent::DeviceConnected(a) => *a,
            CentralEvent::DeviceDisconnected(a) => *a,
            CentralEvent::ManufacturerDataAdvertisement { address, .. } => *address,
            CentralEvent::ServiceDataAdvertisement { address, .. } => *address,
            CentralEvent::ServicesAdvertisement { address, .. } => *address,
        }
    }
}

impl Clone for CentralEvent {
    fn clone(&self) -> (r: CentralEvent)
        ensures
            r@ == self@,
    {
        match self {
            CentralEvent::DeviceDiscovered(a) => CentralEvent::DeviceDiscovered(*a),
            CentralEvent::DeviceLost(a) => CentralEvent::DeviceLost(*a),
            CentralEvent::DeviceUpdated(a) => CentralEvent::DeviceUpdated(*a),
            CentralEvent::DeviceConnected(a) => CentralEvent::DeviceConnected(*a),
            CentralEvent::DeviceDisconnected(a) => CentralEvent::DeviceDisconnected(*a),
            CentralEvent::ManufacturerDataAdvertisement { address, manufacturer_id, data } => {
                CentralEvent::ManufacturerDataAdvertisement {
                    address: *address,
                    manufacturer_id: *manufacturer_id,
                    data: copy_bytes(data),
                }
            },
            CentralEvent::ServiceDataAdvertisement { address, service, data } => {
                CentralEvent::ServiceDataAdvertisement {
                    address: *address,
                    service: *service,
                    data: copy_bytes(data),
                }
            },
            CentralEvent::ServicesAdvertisement { address, services } => {
                CentralEvent::ServicesAdvertisement {
                    address: *address,
                    services: copy_uuids(services),
                }
            },
        }
    }
}

/// The content of a row of events.
pub open spec fn events_view(events: Seq<CentralEvent>) -> Seq<EventView> {
    Seq::new(events.len(), |i: int| events[i]@)
}

} // verus!
