use radiochron_native_ble::address::{
    bluetooth_uuid16, bluetooth_uuid32, classify_random_address, format_address,
    uuid_from_le_bytes,
};
use radiochron_native_ble::AddressType;

#[test]
fn classifies_random_address_top_bits() {
    assert_eq!(
        classify_random_address(0b11 << 46),
        AddressType::RandomStatic
    );
    assert_eq!(
        classify_random_address(0b01 << 46),
        AddressType::ResolvablePrivate
    );
    assert_eq!(
        classify_random_address(0),
        AddressType::NonResolvablePrivate
    );
}

#[test]
fn reserved_top_bits_are_unknown() {
    assert_eq!(classify_random_address(0b10 << 46), AddressType::Unknown);
    assert_eq!(
        classify_random_address(0xffff_0000_0000_0000),
        AddressType::NonResolvablePrivate
    );
    assert_eq!(classify_random_address(u64::MAX), AddressType::RandomStatic);
}

#[test]
fn expands_bluetooth_uuids() {
    assert_eq!(
        bluetooth_uuid16(0x180d),
        "0000180d-0000-1000-8000-00805f9b34fb"
    );
    assert_eq!(
        bluetooth_uuid32(0x1234_5678),
        "12345678-0000-1000-8000-00805f9b34fb"
    );
    assert_eq!(
        uuid_from_le_bytes(&[
            0xfb, 0x34, 0x9b, 0x5f, 0x80, 0x00, 0x00, 0x80, 0x00, 0x10, 0x00, 0x00, 0x0d, 0x18,
            0x00, 0x00
        ])
        .as_deref(),
        Some("0000180d-0000-1000-8000-00805f9b34fb")
    );
}

#[test]
fn uuids_need_sixteen_bytes() {
    assert_eq!(uuid_from_le_bytes(&[]), None);
    assert_eq!(uuid_from_le_bytes(&[0; 15]), None);
    assert_eq!(uuid_from_le_bytes(&[0; 17]), None);
    assert_eq!(
        uuid_from_le_bytes(&[
            0xff, 0xee, 0xdd, 0xcc, 0xbb, 0xaa, 0x99, 0x88, 0x77, 0x66, 0x55, 0x44, 0x33, 0x22,
            0x11, 0x00
        ])
        .as_deref(),
        Some("00112233-4455-6677-8899-aabbccddeeff")
    );
}

#[test]
fn short_and_full_uuids_agree() {
    for value in [0_u32, 1, 0x180d, 0xffff, 0x1234_5678, u32::MAX] {
        let mut bytes = vec![
            0xfb, 0x34, 0x9b, 0x5f, 0x80, 0x00, 0x00, 0x80, 0x00, 0x10, 0x00, 0x00,
        ];
        bytes.extend(value.to_le_bytes());
        assert_eq!(uuid_from_le_bytes(&bytes), Some(bluetooth_uuid32(value)));
    }
    assert_eq!(bluetooth_uuid16(u16::MAX), bluetooth_uuid32(0xffff));
}

#[test]
fn formats_six_byte_bluetooth_address() {
    assert_eq!(format_address(0x00aa_bbcc_ddee), "00:AA:BB:CC:DD:EE");
}

#[test]
fn address_text_shows_the_six_low_bytes() {
    assert_eq!(format_address(0), "00:00:00:00:00:00");
    assert_eq!(format_address(0x0123_4567_89ab), "01:23:45:67:89:AB");
    assert_eq!(
        format_address(0xffff_0123_4567_89ab),
        format_address(0x0123_4567_89ab)
    );
    assert_ne!(format_address(1), format_address(1 << 40));
}
