use btleplug::merge::{merge_into, merge_report, new_properties};
use btleplug::{AddressType, AdvertisementReport, BDAddr, PeripheralProperties};

fn addr(last: u8) -> BDAddr {
    BDAddr { address: [last, 0, 0, 0, 0, 0x2A] }
}

fn empty_report() -> AdvertisementReport {
    AdvertisementReport {
        address_type: AddressType::Random,
        local_name: None,
        tx_power_level: None,
        manufacturer_data: Vec::new(),
        service_data: Vec::new(),
        services: Vec::new(),
        is_scan_response: false,
    }
}

fn same_except_count(a: &PeripheralProperties, b: &PeripheralProperties) -> bool {
    a.address == b.address
        && a.address_type == b.address_type
        && a.local_name == b.local_name
        && a.tx_power_level == b.tx_power_level
        && a.manufacturer_data == b.manufacturer_data
        && a.service_data == b.service_data
        && a.services == b.services
        && a.has_scan_response == b.has_scan_response
}

#[test]
fn first_report_creates_properties() {
    let mut report = empty_report();
    report.local_name = Some("Foo".to_string());
    report.tx_power_level = Some(-4);
    report.manufacturer_data = vec![(1, vec![0x01])];
    report.service_data = vec![(0x180F, vec![0x64])];
    report.services = vec![0x180F, 0x180A];
    report.is_scan_response = true;
    let (props, changes) = merge_report(None, addr(1), &report);
    assert_eq!(props.address, addr(1));
    assert_eq!(props.address_type, AddressType::Random);
    assert_eq!(props.local_name, Some("Foo".to_string()));
    assert_eq!(props.tx_power_level, Some(-4));
    assert_eq!(props.manufacturer_data.len(), 1);
    assert_eq!(props.manufacturer_data.get(&1), Some(&vec![0x01]));
    assert_eq!(props.service_data.get(&0x180F), Some(&vec![0x64]));
    assert_eq!(props.services, vec![0x180F, 0x180A]);
    assert_eq!(props.discovery_count, 1);
    assert!(props.has_scan_response);
    assert!(changes.first_discovery);
    assert!(changes.name_changed);
    assert!(changes.services_changed);
    assert_eq!(changes.manufacturer_data, vec![(1, vec![0x01])]);
    assert_eq!(changes.service_data, vec![(0x180F, vec![0x64])]);
}

#[test]
fn address_and_type_are_kept_after_creation() {
    let (props, _) = merge_report(None, addr(1), &empty_report());
    let mut later = empty_report();
    later.address_type = AddressType::Public;
    let (props, changes) = merge_report(Some(props), addr(9), &later);
    assert_eq!(props.address, addr(1));
    assert_eq!(props.address_type, AddressType::Random);
    assert_eq!(props.discovery_count, 2);
    assert!(!changes.first_discovery);
}

#[test]
fn merging_a_report_twice_changes_only_the_counter() {
    let mut report = empty_report();
    report.local_name = Some("Foo".to_string());
    report.tx_power_level = Some(7);
    report.manufacturer_data = vec![(1, vec![1, 2]), (2, vec![3]), (1, vec![9])];
    report.service_data = vec![(5, vec![5])];
    report.services = vec![10, 11];
    let (once, _) = merge_report(None, addr(1), &report);
    let mut twice = once.clone();
    let changes = merge_into(&mut twice, &report);
    assert!(same_except_count(&once, &twice));
    assert_eq!(once.discovery_count, 1);
    assert_eq!(twice.discovery_count, 2);
    assert_eq!(twice.manufacturer_data.get(&1), Some(&vec![9]));
    assert!(!changes.name_changed);
    assert!(!changes.services_changed);
    assert_eq!(changes.service_data, Vec::<(u128, Vec<u8>)>::new());
}

#[test]
fn data_accumulates_over_reports() {
    let mut props = new_properties(addr(1), AddressType::Public);
    let mut r1 = empty_report();
    r1.manufacturer_data = vec![(1, vec![1])];
    r1.service_data = vec![(100, vec![1])];
    let mut r2 = empty_report();
    r2.manufacturer_data = vec![(2, vec![2])];
    let mut r3 = empty_report();
    r3.manufacturer_data = vec![(1, vec![3])];
    r3.service_data = vec![(200, vec![2]), (100, vec![7, 7])];
    merge_into(&mut props, &r1);
    merge_into(&mut props, &r2);
    merge_into(&mut props, &r3);
    assert_eq!(props.manufacturer_data.len(), 2);
    assert_eq!(props.manufacturer_data.get(&1), Some(&vec![3]));
    assert_eq!(props.manufacturer_data.get(&2), Some(&vec![2]));
    assert_eq!(props.service_data.len(), 2);
    assert_eq!(props.service_data.get(&100), Some(&vec![7, 7]));
    assert_eq!(props.service_data.get(&200), Some(&vec![2]));
    assert_eq!(props.discovery_count, 3);
}

#[test]
fn name_is_not_cleared_by_an_absent_or_empty_name() {
    let mut props = new_properties(addr(1), AddressType::Public);
    let mut named = empty_report();
    named.local_name = Some("Foo".to_string());
    let changes = merge_into(&mut props, &named);
    assert!(changes.name_changed);
    let changes = merge_into(&mut props, &empty_report());
    assert_eq!(props.local_name, Some("Foo".to_string()));
    assert!(!changes.name_changed);
    let mut blank = empty_report();
    blank.local_name = Some(String::new());
    let changes = merge_into(&mut props, &blank);
    assert_eq!(props.local_name, Some("Foo".to_string()));
    assert!(!changes.name_changed);
    let mut renamed = empty_report();
    renamed.local_name = Some("Bar".to_string());
    let changes = merge_into(&mut props, &renamed);
    assert_eq!(props.local_name, Some("Bar".to_string()));
    assert!(changes.name_changed);
}

#[test]
fn change_is_flagged_only_for_other_bytes() {
    let mut props = new_properties(addr(1), AddressType::Public);
    let mut r = empty_report();
    r.manufacturer_data = vec![(1, vec![1, 2, 3]), (2, vec![])];
    let changes = merge_into(&mut props, &r);
    assert_eq!(changes.manufacturer_data, vec![(1, vec![1, 2, 3]), (2, vec![])]);
    let changes = merge_into(&mut props, &r);
    assert_eq!(changes.manufacturer_data, Vec::<(u16, Vec<u8>)>::new());
    let mut r2 = empty_report();
    r2.manufacturer_data = vec![(1, vec![1, 2, 4]), (2, vec![])];
    let changes = merge_into(&mut props, &r2);
    assert_eq!(changes.manufacturer_data, vec![(1, vec![1, 2, 4])]);
    assert_eq!(props.manufacturer_data.get(&2), Some(&vec![]));
}

#[test]
fn service_list_is_replaced_whole_and_kept_when_absent() {
    let mut props = new_properties(addr(1), AddressType::Public);
    let mut r = empty_report();
    r.services = vec![1, 2, 3];
    assert!(merge_into(&mut props, &r).services_changed);
    assert!(!merge_into(&mut props, &r).services_changed);
    assert!(!merge_into(&mut props, &empty_report()).services_changed);
    assert_eq!(props.services, vec![1, 2, 3]);
    let mut reordered = empty_report();
    reordered.services = vec![3, 2, 1];
    assert!(merge_into(&mut props, &reordered).services_changed);
    assert_eq!(props.services, vec![3, 2, 1]);
}

#[test]
fn tx_power_and_scan_response() {
    let mut props = new_properties(addr(1), AddressType::Public);
    let mut r = empty_report();
    r.tx_power_level = Some(-20);
    r.is_scan_response = true;
    merge_into(&mut props, &r);
    assert_eq!(props.tx_power_level, Some(-20));
    assert!(props.has_scan_response);
    merge_into(&mut props, &empty_report());
    assert_eq!(props.tx_power_level, Some(-20));
    assert!(props.has_scan_response);
    let mut r2 = empty_report();
    r2.tx_power_level = Some(3);
    merge_into(&mut props, &r2);
    assert_eq!(props.tx_power_level, Some(3));
    assert_eq!(props.discovery_count, 3);
}
