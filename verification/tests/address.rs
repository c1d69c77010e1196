use btleplug::{AddressType, BDAddr, ParseBDAddrError};

#[test]
fn parse_addr() {
    let values = vec![
        (
            "2A:00:AA:BB:CC:DD",
            Ok(BDAddr {
                address: [0xDD, 0xCC, 0xBB, 0xAA, 0x00, 0x2A],
            }),
        ),
        ("2A:00:00", Err(ParseBDAddrError::IncorrectByteCount)),
        ("2A:00:AA:BB:CC:ZZ", Err(ParseBDAddrError::InvalidInt)),
    ];

    for (input, expected) in values {
        let result: Result<BDAddr, ParseBDAddrError> = input.parse();
        assert_eq!(result, expected);

        if let Ok(uuid) = result {
            assert_eq!(input, uuid.to_string());
        }
    }
}

#[test]
fn address_type_names_and_numbers() {
    assert_eq!(AddressType::from_str("public"), Some(AddressType::Public));
    assert_eq!(AddressType::from_str("random"), Some(AddressType::Random));
    assert_eq!(AddressType::from_str("Public"), None);
    assert_eq!(AddressType::from_str(""), None);
    assert_eq!(AddressType::from_u8(1), Some(AddressType::Public));
    assert_eq!(AddressType::from_u8(2), Some(AddressType::Random));
    assert_eq!(AddressType::from_u8(0), None);
    assert_eq!(AddressType::from_u8(3), None);
    assert_eq!(AddressType::Public.num(), 1);
    assert_eq!(AddressType::Random.num(), 2);
    assert_eq!(AddressType::default(), AddressType::Public);
}

#[test]
fn address_text_forms() {
    let a = BDAddr { address: [0x0F, 0xF0, 0x00, 0x9A, 0xBc, 0x01] };
    assert_eq!(a.to_string(), "01:BC:9A:00:F0:0F");
    assert_eq!(BDAddr::from_str("01:bc:9a:00:f0:0f"), Ok(a));
    assert_eq!(BDAddr::from_str("1:BC:9A:0:F0:F"), Ok(a));
    assert_eq!(BDAddr::from_str("+1:BC:9A:000:F0:0F"), Ok(a));
    assert_eq!(BDAddr::default().to_string(), "00:00:00:00:00:00");
}

#[test]
fn malformed_addresses() {
    let invalid = Err(ParseBDAddrError::InvalidInt);
    let count = Err(ParseBDAddrError::IncorrectByteCount);
    assert_eq!(BDAddr::from_str(""), invalid);
    assert_eq!(BDAddr::from_str("2A:00:AA:BB:CC:"), invalid);
    assert_eq!(BDAddr::from_str(":2A:00:AA:BB:CC"), invalid);
    assert_eq!(BDAddr::from_str("2A:00:AA:BB:CC:100"), invalid);
    assert_eq!(BDAddr::from_str("2A:00:AA:BB:CC:-1"), invalid);
    assert_eq!(BDAddr::from_str("2A:00:AA:BB:CC:+"), invalid);
    assert_eq!(BDAddr::from_str("2A:00:AA:BB:CC: 1"), invalid);
    assert_eq!(BDAddr::from_str("ZZ"), invalid);
    assert_eq!(BDAddr::from_str("2A:00:ZZ"), invalid);
    assert_eq!(BDAddr::from_str("2A"), count);
    assert_eq!(BDAddr::from_str("2A:00:AA:BB:CC:DD:EE"), count);
    for text in ["", "2A:00:AA:BB:CC:100", "2A:00:AA:BB:CC:-1", "+", "2A", "0:0:0:0:0:0:0", "é"] {
        let ours = BDAddr::from_str(text).is_ok();
        let all_bytes = text.split(':').all(|p| u8::from_str_radix(p, 16).is_ok());
        assert_eq!(ours, all_bytes && text.split(':').count() == 6);
    }
}

#[test]
fn addresses_are_ordered_by_their_written_form() {
    let low = BDAddr { address: [0xFF, 0xFF, 0xFF, 0xFF, 0xFF, 0x00] };
    let high = BDAddr { address: [0x00, 0x00, 0x00, 0x00, 0x00, 0x01] };
    assert!(low.key() < high.key());
    assert_eq!(high.key(), 0x0100_0000_0000);
    assert_eq!(low.key(), 0x00FF_FFFF_FFFF);
    assert_eq!(low.to_string() < high.to_string(), low.key() < high.key());
}

#[test]
fn parse_error_messages() {
    assert_eq!(
        ParseBDAddrError::IncorrectByteCount.to_string(),
        "Bluetooth address has to be 6 bytes long"
    );
    assert_eq!(ParseBDAddrError::InvalidInt.to_string(), "Malformed integer in Bluetooth address");
}
