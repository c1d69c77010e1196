use btleplug::characteristic::characteristic_set;
use btleplug::{CharPropFlags, Characteristic, WriteType};

fn ch(start: u16, uuid: u128) -> Characteristic {
    Characteristic {
        start_handle: start,
        end_handle: start + 1,
        value_handle: start + 1,
        uuid,
        properties: CharPropFlags::read(),
    }
}

#[test]
fn flags_have_their_bits() {
    assert_eq!(CharPropFlags::new().bits(), 0);
    assert_eq!(CharPropFlags::empty(), CharPropFlags::new());
    assert_eq!(CharPropFlags::broadcast().bits(), 0x01);
    assert_eq!(CharPropFlags::read().bits(), 0x02);
    assert_eq!(CharPropFlags::write_without_response().bits(), 0x04);
    assert_eq!(CharPropFlags::write().bits(), 0x08);
    assert_eq!(CharPropFlags::notify().bits(), 0x10);
    assert_eq!(CharPropFlags::indicate().bits(), 0x20);
    assert_eq!(CharPropFlags::authenticated_signed_writes().bits(), 0x40);
    assert_eq!(CharPropFlags::extended_properties().bits(), 0x80);
    assert_eq!(CharPropFlags::all().bits(), 0xff);
    assert_eq!(CharPropFlags::from_bits(0x12), Some(CharPropFlags { bits: 0x12 }));
    assert_eq!(CharPropFlags::from_bits_truncate(0x12).bits(), 0x12);
}

#[test]
fn flags_set_operations() {
    let mut f = CharPropFlags::new();
    assert!(f.is_empty());
    f.insert(CharPropFlags::read());
    f.insert(CharPropFlags::notify());
    assert_eq!(f.bits(), 0x12);
    assert!(f.contains(CharPropFlags::read()));
    assert!(f.contains(CharPropFlags::read().union(CharPropFlags::notify())));
    assert!(!f.contains(CharPropFlags::write()));
    assert!(!f.contains(CharPropFlags::read().union(CharPropFlags::write())));
    assert!(f.intersects(CharPropFlags::read().union(CharPropFlags::write())));
    assert!(!f.intersects(CharPropFlags::write()));
    assert_eq!(f.intersection(CharPropFlags::read()).bits(), 0x02);
    f.remove(CharPropFlags::read());
    assert_eq!(f.bits(), 0x10);
    assert!(!f.is_empty());
}

#[test]
fn characteristics_are_ordered_by_handles_then_uuid() {
    let a = ch(1, 9);
    let b = ch(2, 1);
    assert!(a.precedes(&b));
    assert!(!b.precedes(&a));
    assert!(!a.precedes(&a));
    assert!(ch(1, 1).precedes(&ch(1, 2)));
    assert_eq!(a.precedes(&b), a < b);
    assert_eq!(ch(1, 2).precedes(&ch(1, 1)), ch(1, 2) < ch(1, 1));
    let mut c = ch(1, 1);
    c.properties = CharPropFlags::write();
    assert!(ch(1, 1).precedes(&c));
}

#[test]
fn characteristic_set_is_sorted_and_without_repeats() {
    let found = vec![ch(5, 1), ch(1, 7), ch(3, 2), ch(1, 7), ch(5, 1), ch(1, 3)];
    let set = characteristic_set(&found);
    assert_eq!(set, vec![ch(1, 3), ch(1, 7), ch(3, 2), ch(5, 1)]);
    assert_eq!(characteristic_set(&Vec::new()), Vec::<Characteristic>::new());
}

#[test]
fn write_types_differ() {
    assert_ne!(WriteType::WithResponse, WriteType::WithoutResponse);
}

#[test]
fn flags_are_written_by_name() {
    assert_eq!(CharPropFlags::new().to_string(), "(empty)");
    assert_eq!(CharPropFlags::read().to_string(), "READ");
    assert_eq!(CharPropFlags::read().union(CharPropFlags::notify()).to_string(), "READ | NOTIFY");
    assert_eq!(
        CharPropFlags::all().to_string(),
        "BROADCAST | READ | WRITE_WITHOUT_RESPONSE | WRITE | NOTIFY | INDICATE | AUTHENTICATED_SIGNED_WRITES | EXTENDED_PROPERTIES"
    );
    assert_eq!(CharPropFlags::from_bits_truncate(0x81).to_string(), "BROADCAST | EXTENDED_PROPERTIES");
}

#[test]
fn characteristic_is_written_with_uuid_and_properties() {
    let mut c = ch(1, 0x0000_2a00_0000_1000_8000_0080_5f9b_34fb);
    c.properties = CharPropFlags::read().union(CharPropFlags::write());
    assert_eq!(
        c.to_string(),
        "uuid: 00002a00-0000-1000-8000-00805f9b34fb, char properties: READ | WRITE"
    );
    let mut d = ch(1, 0x0123_4567_89ab_cdef_fedc_ba98_7654_3210);
    d.properties = CharPropFlags::new();
    assert_eq!(
        d.to_string(),
        "uuid: 01234567-89ab-cdef-fedc-ba9876543210, char properties: (empty)"
    );
    assert_eq!(
        c.to_string(),
        format!("uuid: {:?}, char properties: READ | WRITE", uuid::Uuid::from_u128(c.uuid))
    );
}

#[test]
fn uuids_are_ordered_as_their_bytes() {
    let pairs: [(u128, u128); 4] = [
        (1, 2),
        (0xff, 0x100),
        (0x0000_2a00_0000_1000_8000_0080_5f9b_34fb, 0x0000_2a01_0000_1000_8000_0080_5f9b_34fb),
        (u128::MAX - 1, u128::MAX),
    ];
    for (a, b) in pairs {
        assert!(uuid::Uuid::from_u128(a) < uuid::Uuid::from_u128(b));
        assert!(ch(1, a).precedes(&ch(1, b)));
        assert_eq!(uuid::Uuid::from_u128(a).as_u128(), a);
    }
}
