//! Device identity and the derived display name.

use kbwatch::kbdevice::{hex_form, Device, DeviceInfos};

#[test]
fn name_prefers_the_product_string() {
    let d = DeviceInfos::new(
        Device::new(1, 2, 0x04D9, 0xA09F, 3),
        "Holtek".to_string(),
        "USB Keyboard".to_string(),
        "S1".to_string(),
    );
    assert_eq!(d.get_name(), "USB Keyboard");
}

#[test]
fn name_falls_back_to_the_manufacturer() {
    let d = DeviceInfos::new(
        Device::new(1, 2, 0x04D9, 0xA09F, 3),
        "Holtek".to_string(),
        String::new(),
        String::new(),
    );
    assert_eq!(d.get_name(), "Holtek");
}

#[test]
fn name_falls_back_to_the_hex_form() {
    let d = DeviceInfos::new(
        Device::new(1, 2, 0x04D9, 0xA09F, 3),
        String::new(),
        String::new(),
        String::new(),
    );
    assert_eq!(d.get_name(), "04D9:A09F");
}

#[test]
fn hex_form_is_upper_case_and_zero_padded() {
    assert_eq!(hex_form(&Device::new(0, 0, 0x0001, 0xFFFF, 0)), "0001:FFFF");
    assert_eq!(hex_form(&Device::new(0, 0, 0x0ABC, 0x0000, 0)), "0ABC:0000");
}

#[test]
fn identity_equality_is_structural() {
    let a = Device::new(1, 2, 3, 4, 5);
    let b = Device::new(1, 2, 3, 4, 5);
    let c = Device::new(1, 9, 3, 4, 5);
    assert!(a == b);
    assert!(a != c);
}
