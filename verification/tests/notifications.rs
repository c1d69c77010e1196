use btleplug::{
    AdapterManager, AddressType, AdvertisementReport, BDAddr, NotificationRouter,
    ValueNotification,
};

fn addr(last: u8) -> BDAddr {
    BDAddr { address: [last, 0, 0, 0, 0, 0] }
}

fn note(uuid: u128, value: Vec<u8>) -> ValueNotification {
    ValueNotification { uuid, handle: Some(3), value }
}

#[test]
fn router_delivers_by_peripheral_and_characteristic() {
    let mut r = NotificationRouter::new();
    let a1 = r.listen(addr(1), 10);
    let a2 = r.listen(addr(1), 10);
    let b = r.listen(addr(1), 11);
    let c = r.listen(addr(2), 10);
    r.route(addr(1), &note(10, vec![1]));
    r.route(addr(1), &note(10, vec![2]));
    assert_eq!(r.pending(a1), Some(2));
    assert_eq!(r.pending(a2), Some(2));
    assert_eq!(r.pending(b), Some(0));
    assert_eq!(r.pending(c), Some(0));
    for id in [a1, a2] {
        assert_eq!(r.next_notification(id), Some(note(10, vec![1])));
        assert_eq!(r.next_notification(id), Some(note(10, vec![2])));
        assert_eq!(r.next_notification(id), None);
    }
    assert!(r.stop(a1));
    assert!(!r.stop(a1));
    assert_eq!(r.pending(a1), None);
    r.route(addr(2), &note(10, vec![7]));
    assert_eq!(r.next_notification(c), Some(note(10, vec![7])));
    assert_eq!(r.next_notification(a2), None);
    assert!(r.can_listen());
}

#[test]
fn notifications_flow_only_while_connected() {
    let a = addr(1);
    let mut m = AdapterManager::new();
    let report = AdvertisementReport {
        address_type: AddressType::Public,
        local_name: None,
        tx_power_level: None,
        manufacturer_data: Vec::new(),
        service_data: Vec::new(),
        services: Vec::new(),
        is_scan_response: false,
    };
    assert!(m.can_listen());
    let id = m.notifications(a, 10);
    m.on_value_notification(a, &note(10, vec![0]));
    assert_eq!(m.next_notification(id), None);
    m.on_advertisement_report(a, &report);
    m.on_value_notification(a, &note(10, vec![1]));
    assert_eq!(m.next_notification(id), None);
    m.on_connection_state_changed(a, true);
    m.on_value_notification(a, &note(10, vec![2]));
    m.on_value_notification(a, &note(11, vec![3]));
    m.on_value_notification(addr(2), &note(10, vec![4]));
    assert_eq!(m.next_notification(id), Some(note(10, vec![2])));
    assert_eq!(m.next_notification(id), None);
    m.on_connection_state_changed(a, false);
    m.on_value_notification(a, &note(10, vec![5]));
    assert_eq!(m.next_notification(id), None);
    assert!(m.stop_notifications(id));
    assert!(!m.stop_notifications(id));
}
