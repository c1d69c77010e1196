use btleplug::{BDAddr, CentralEvent, EventDispatcher};

fn addr(last: u8) -> BDAddr {
    BDAddr { address: [last, 0, 0, 0, 0, 0] }
}

fn is_discovered(e: &Option<CentralEvent>, a: BDAddr) -> bool {
    matches!(e, Some(CentralEvent::DeviceDiscovered(x)) if *x == a)
}

fn is_updated(e: &Option<CentralEvent>, a: BDAddr) -> bool {
    matches!(e, Some(CentralEvent::DeviceUpdated(x)) if *x == a)
}

#[test]
fn every_subscriber_sees_events_in_publish_order() {
    let mut d = EventDispatcher::new();
    let s1 = d.subscribe();
    let s2 = d.subscribe();
    assert_ne!(s1, s2);
    d.publish(&CentralEvent::DeviceDiscovered(addr(1)));
    d.publish(&CentralEvent::DeviceUpdated(addr(1)));
    assert_eq!(d.pending(s1), Some(2));
    assert_eq!(d.pending(s2), Some(2));
    for s in [s1, s2] {
        assert!(is_discovered(&d.next_event(s), addr(1)));
        assert!(is_updated(&d.next_event(s), addr(1)));
        assert!(d.next_event(s).is_none());
    }
}

#[test]
fn subscribers_take_events_at_their_own_pace() {
    let mut d = EventDispatcher::new();
    let fast = d.subscribe();
    let slow = d.subscribe();
    d.publish(&CentralEvent::DeviceDiscovered(addr(1)));
    assert!(is_discovered(&d.next_event(fast), addr(1)));
    d.publish(&CentralEvent::DeviceUpdated(addr(1)));
    assert!(is_updated(&d.next_event(fast), addr(1)));
    assert_eq!(d.pending(fast), Some(0));
    assert_eq!(d.pending(slow), Some(2));
    assert!(is_discovered(&d.next_event(slow), addr(1)));
    assert!(is_updated(&d.next_event(slow), addr(1)));
}

#[test]
fn nothing_is_replayed_to_a_late_subscriber() {
    let mut d = EventDispatcher::new();
    d.publish(&CentralEvent::DeviceDiscovered(addr(1)));
    let early = d.subscribe();
    d.publish(&CentralEvent::DeviceDiscovered(addr(2)));
    let late = d.subscribe();
    d.publish(&CentralEvent::DeviceDiscovered(addr(3)));
    assert!(is_discovered(&d.next_event(early), addr(2)));
    assert!(is_discovered(&d.next_event(early), addr(3)));
    assert!(d.next_event(early).is_none());
    assert!(is_discovered(&d.next_event(late), addr(3)));
    assert!(d.next_event(late).is_none());
}

#[test]
fn unsubscribing_leaves_the_others_alone() {
    let mut d = EventDispatcher::new();
    let a = d.subscribe();
    let b = d.subscribe();
    let c = d.subscribe();
    d.publish(&CentralEvent::DeviceDiscovered(addr(1)));
    assert!(d.unsubscribe(b));
    assert!(!d.unsubscribe(b));
    assert!(!d.is_subscribed(b));
    assert!(d.is_subscribed(a));
    assert_eq!(d.pending(b), None);
    assert!(d.next_event(b).is_none());
    d.publish(&CentralEvent::DeviceUpdated(addr(1)));
    for s in [a, c] {
        assert_eq!(d.pending(s), Some(2));
        assert!(is_discovered(&d.next_event(s), addr(1)));
        assert!(is_updated(&d.next_event(s), addr(1)));
    }
    let e = d.subscribe();
    assert!(e != a && e != b && e != c);
}

#[test]
fn publish_all_keeps_the_row_order() {
    let mut d = EventDispatcher::new();
    let s = d.subscribe();
    let events = vec![
        CentralEvent::ManufacturerDataAdvertisement { address: addr(1), manufacturer_id: 7, data: vec![1, 2] },
        CentralEvent::ServicesAdvertisement { address: addr(1), services: vec![5, 6] },
    ];
    d.publish_all(&events);
    match d.next_event(s) {
        Some(CentralEvent::ManufacturerDataAdvertisement { address, manufacturer_id, data }) => {
            assert_eq!(address, addr(1));
            assert_eq!(manufacturer_id, 7);
            assert_eq!(data, vec![1, 2]);
        }
        other => panic!("unexpected event {:?}", other),
    }
    match d.next_event(s) {
        Some(CentralEvent::ServicesAdvertisement { address, services }) => {
            assert_eq!(address, addr(1));
            assert_eq!(services, vec![5, 6]);
        }
        other => panic!("unexpected event {:?}", other),
    }
    assert!(d.can_subscribe());
}
