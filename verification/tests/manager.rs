use btleplug::{
    AdapterManager, AddressType, AdvertisementReport, BDAddr, CentralEvent, CharPropFlags,
    Characteristic, DeviceRegistry, Error,
};

fn addr(last: u8) -> BDAddr {
    BDAddr { address: [last, 0, 0, 0, 0, 0] }
}

fn empty_report() -> AdvertisementReport {
    AdvertisementReport {
        address_type: AddressType::Public,
        local_name: None,
        tx_power_level: None,
        manufacturer_data: Vec::new(),
        service_data: Vec::new(),
        services: Vec::new(),
        is_scan_response: false,
    }
}

fn drain(m: &mut AdapterManager, id: u64) -> Vec<CentralEvent> {
    let mut out = Vec::new();
    while let Some(e) = m.next_event(id) {
        out.push(e);
    }
    out
}

#[test]
fn two_reports_scenario() {
    let a = addr(0xA0);
    let mut m = AdapterManager::new();
    let sub = m.events();
    let mut report1 = empty_report();
    report1.local_name = Some("Foo".to_string());
    report1.manufacturer_data = vec![(1, vec![0x01])];
    let mut report2 = empty_report();
    report2.manufacturer_data = vec![(1, vec![0x02]), (2, vec![0x03])];
    assert!(m.can_accept_report(a));
    m.on_advertisement_report(a, &report1);
    let first = drain(&mut m, sub);
    assert_eq!(first.len(), 2);
    assert!(matches!(&first[0], CentralEvent::DeviceDiscovered(x) if *x == a));
    assert!(matches!(&first[1], CentralEvent::ManufacturerDataAdvertisement { address, manufacturer_id: 1, data } if *address == a && *data == vec![0x01]));
    m.on_advertisement_report(a, &report2);
    let second = drain(&mut m, sub);
    assert_eq!(second.len(), 3);
    assert!(matches!(&second[0], CentralEvent::ManufacturerDataAdvertisement { address, manufacturer_id: 1, data } if *address == a && *data == vec![0x02]));
    assert!(matches!(&second[1], CentralEvent::ManufacturerDataAdvertisement { address, manufacturer_id: 2, data } if *address == a && *data == vec![0x03]));
    assert!(matches!(&second[2], CentralEvent::DeviceUpdated(x) if *x == a));
    let record = m.peripheral(a).unwrap();
    assert_eq!(record.properties.local_name, Some("Foo".to_string()));
    assert_eq!(record.properties.manufacturer_data.len(), 2);
    assert_eq!(record.properties.manufacturer_data.get(&1), Some(&vec![0x02]));
    assert_eq!(record.properties.manufacturer_data.get(&2), Some(&vec![0x03]));
    assert_eq!(record.properties.discovery_count, 2);
    assert_eq!(record.properties.address, a);
    assert!(!record.connected);
    assert!(record.characteristics.is_empty());
}

#[test]
fn events_come_in_the_fixed_order() {
    let a = addr(1);
    let mut m = AdapterManager::new();
    let sub = m.events();
    let mut r = empty_report();
    r.services = vec![0x1800, 0x1801];
    r.manufacturer_data = vec![(9, vec![9]), (3, vec![3])];
    r.service_data = vec![(0x1800, vec![1])];
    m.on_advertisement_report(a, &r);
    let events = drain(&mut m, sub);
    assert_eq!(events.len(), 5);
    assert!(matches!(&events[0], CentralEvent::DeviceDiscovered(x) if *x == a));
    assert!(matches!(&events[1], CentralEvent::ServicesAdvertisement { address, services } if *address == a && *services == vec![0x1800, 0x1801]));
    assert!(matches!(&events[2], CentralEvent::ManufacturerDataAdvertisement { manufacturer_id: 9, .. }));
    assert!(matches!(&events[3], CentralEvent::ManufacturerDataAdvertisement { manufacturer_id: 3, .. }));
    assert!(matches!(&events[4], CentralEvent::ServiceDataAdvertisement { address, service: 0x1800, data } if *address == a && *data == vec![1]));
    m.on_advertisement_report(a, &r);
    let events = drain(&mut m, sub);
    assert_eq!(events.len(), 1);
    assert!(matches!(&events[0], CentralEvent::DeviceUpdated(x) if *x == a));
}

#[test]
fn connection_events_are_deduplicated() {
    let a = addr(1);
    let mut m = AdapterManager::new();
    let sub = m.events();
    m.on_advertisement_report(a, &empty_report());
    drain(&mut m, sub);
    m.on_connection_state_changed(a, true);
    m.on_connection_state_changed(a, true);
    let events = drain(&mut m, sub);
    assert_eq!(events.len(), 1);
    assert!(matches!(&events[0], CentralEvent::DeviceConnected(x) if *x == a));
    assert!(m.peripheral(a).unwrap().connected);
    m.on_connection_state_changed(a, false);
    m.on_connection_state_changed(a, false);
    m.on_connection_state_changed(a, true);
    let events = drain(&mut m, sub);
    assert_eq!(events.len(), 2);
    assert!(matches!(&events[0], CentralEvent::DeviceDisconnected(x) if *x == a));
    assert!(matches!(&events[1], CentralEvent::DeviceConnected(x) if *x == a));
}

#[test]
fn disconnect_of_an_unconnected_device_is_silent() {
    let a = addr(1);
    let mut m = AdapterManager::new();
    let sub = m.events();
    m.on_advertisement_report(a, &empty_report());
    drain(&mut m, sub);
    m.on_connection_state_changed(a, false);
    assert!(drain(&mut m, sub).is_empty());
}

#[test]
fn connection_state_of_an_unknown_address_is_ignored() {
    let mut m = AdapterManager::new();
    let sub = m.events();
    m.on_connection_state_changed(addr(7), true);
    assert!(drain(&mut m, sub).is_empty());
    assert!(m.peripheral(addr(7)).is_none());
    assert!(m.peripherals().is_empty());
    assert!(m.add_peripheral(addr(7), AddressType::Random));
    assert!(!m.add_peripheral(addr(7), AddressType::Public));
    let record = m.peripheral(addr(7)).unwrap();
    assert_eq!(record.properties.address, addr(7));
    assert_eq!(record.properties.address_type, AddressType::Random);
    assert_eq!(record.properties.discovery_count, 0);
    m.on_connection_state_changed(addr(7), true);
    let events = drain(&mut m, sub);
    assert_eq!(events.len(), 1);
    assert!(matches!(&events[0], CentralEvent::DeviceConnected(x) if *x == addr(7)));
}

#[test]
fn characteristics_need_a_known_device() {
    let a = addr(1);
    let c1 = Characteristic { start_handle: 3, end_handle: 4, value_handle: 4, uuid: 2, properties: CharPropFlags::read() };
    let c2 = Characteristic { start_handle: 1, end_handle: 2, value_handle: 2, uuid: 1, properties: CharPropFlags::notify() };
    let mut m = AdapterManager::new();
    let sub = m.events();
    assert_eq!(m.on_characteristics_discovered(a, &vec![c1, c2]), Err(Error::NotFound));
    m.on_advertisement_report(a, &empty_report());
    drain(&mut m, sub);
    assert_eq!(m.on_characteristics_discovered(a, &vec![c1, c2, c1]), Ok(()));
    assert!(drain(&mut m, sub).is_empty());
    assert_eq!(m.peripheral(a).unwrap().characteristics, vec![c2, c1]);
    assert_eq!(m.on_characteristics_discovered(a, &vec![c1]), Ok(()));
    assert_eq!(m.peripheral(a).unwrap().characteristics, vec![c1]);
}

#[test]
fn peripherals_are_listed_by_address() {
    let mut m = AdapterManager::new();
    let high = BDAddr { address: [0, 0, 0, 0, 0, 1] };
    let low = BDAddr { address: [0xFF, 0xFF, 0xFF, 0xFF, 0xFF, 0] };
    for a in [addr(5), high, addr(1), low, addr(3)] {
        m.on_advertisement_report(a, &empty_report());
    }
    m.on_advertisement_report(addr(3), &empty_report());
    let listed: Vec<BDAddr> = m.peripherals().iter().map(|r| r.properties.address).collect();
    assert_eq!(listed, vec![addr(1), addr(3), addr(5), low, high]);
    assert_eq!(m.peripheral(addr(3)).unwrap().properties.discovery_count, 2);
    assert!(m.peripheral(addr(4)).is_none());
}

#[test]
fn registry_keeps_records_apart() {
    let mut r = DeviceRegistry::new();
    let mut named = empty_report();
    named.local_name = Some("One".to_string());
    let (changes, created) = r.upsert(addr(1), &named);
    assert!(created && changes.first_discovery && changes.name_changed);
    let (changes, created) = r.upsert(addr(2), &empty_report());
    assert!(created && changes.first_discovery && !changes.name_changed);
    let (changes, created) = r.upsert(addr(1), &named);
    assert!(!created && !changes.first_discovery && !changes.name_changed);
    assert_eq!(r.mark_connected(addr(2), true), Some(false));
    assert_eq!(r.mark_connected(addr(2), true), Some(true));
    assert_eq!(r.mark_connected(addr(3), true), None);
    assert_eq!(r.is_connected(addr(1)), Some(false));
    assert_eq!(r.is_connected(addr(2)), Some(true));
    assert_eq!(r.is_connected(addr(3)), None);
    assert!(r.contains(addr(1)) && !r.contains(addr(3)));
    assert_eq!(r.get(addr(1)).unwrap().properties.local_name, Some("One".to_string()));
    assert_eq!(r.get(addr(2)).unwrap().properties.local_name, None);
    assert_eq!(r.discovery_count(addr(1)), Some(2));
    assert_eq!(r.set_characteristics(addr(3), &Vec::new()), Err(Error::NotFound));
    assert_eq!(r.list().len(), 2);
}

#[test]
fn a_lost_device_keeps_its_record() {
    let a = addr(1);
    let mut m = AdapterManager::new();
    let sub = m.events();
    m.on_device_lost(a);
    assert!(drain(&mut m, sub).is_empty());
    let mut named = empty_report();
    named.local_name = Some("Foo".to_string());
    m.on_advertisement_report(a, &named);
    drain(&mut m, sub);
    m.on_device_lost(a);
    let events = drain(&mut m, sub);
    assert_eq!(events.len(), 1);
    assert!(matches!(&events[0], CentralEvent::DeviceLost(x) if *x == a));
    let record = m.peripheral(a).unwrap();
    assert_eq!(record.properties.local_name, Some("Foo".to_string()));
    assert_eq!(record.properties.discovery_count, 1);
    m.on_advertisement_report(a, &empty_report());
    let events = drain(&mut m, sub);
    assert_eq!(events.len(), 1);
    assert!(matches!(&events[0], CentralEvent::DeviceUpdated(x) if *x == a));
}
