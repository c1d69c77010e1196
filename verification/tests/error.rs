use btleplug::{AddressType, BDAddr, DeviceRegistry, Error, ParseBDAddrError, PeripheralProperties};

#[test]
fn errors_name_their_cause() {
    assert_eq!(
        Error::from_parse_error(ParseBDAddrError::InvalidInt),
        Error::InvalidInput(ParseBDAddrError::InvalidInt)
    );
    assert_eq!(
        Error::from_parse_error(ParseBDAddrError::IncorrectByteCount),
        Error::InvalidInput(ParseBDAddrError::IncorrectByteCount)
    );
    let failure = Error::BackendFailure("radio is off".to_string());
    assert_eq!(failure.clone(), failure);
    assert_ne!(failure, Error::NotFound);
    match BDAddr::from_str("2A:00") {
        Err(e) => assert_eq!(
            Error::from_parse_error(e),
            Error::InvalidInput(ParseBDAddrError::IncorrectByteCount)
        ),
        Ok(_) => panic!("a short text was read as an address"),
    }
}

#[test]
fn unknown_address_is_not_found() {
    let mut r = DeviceRegistry::new();
    let a = BDAddr { address: [1, 2, 3, 4, 5, 6] };
    assert_eq!(r.set_characteristics(a, &Vec::new()), Err(Error::NotFound));
    assert!(r.get(a).is_none());
    assert!(r.ensure_record(a, AddressType::Random));
    assert_eq!(r.set_characteristics(a, &Vec::new()), Ok(()));
    assert!(!r.ensure_record(a, AddressType::Public));
    assert_eq!(r.get(a).unwrap().properties.address_type, AddressType::Random);
}

#[test]
fn default_properties_are_empty() {
    let p = PeripheralProperties::default();
    assert_eq!(p.address, BDAddr::default());
    assert_eq!(p.address_type, AddressType::Public);
    assert_eq!(p.local_name, None);
    assert_eq!(p.tx_power_level, None);
    assert!(p.manufacturer_data.is_empty());
    assert!(p.service_data.is_empty());
    assert!(p.services.is_empty());
    assert_eq!(p.discovery_count, 0);
    assert!(!p.has_scan_response);
}
