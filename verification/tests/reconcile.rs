//! The per-poll reconciliation of the known device set.

use kbwatch::kbdevice::{Device, DeviceInfos};
use kbwatch::kbutils::{config_from_key_values, load_aliases, load_key_value_file, Aliases, KBConfig, KeyValue};
use kbwatch::watch::{KnownDevices, NotificationKind};

fn dev(address: u8, vid: u16, pid: u16, product: &str) -> DeviceInfos {
    DeviceInfos::new(
        Device::new(1, address, vid, pid, 3),
        String::new(),
        product.to_string(),
        String::new(),
    )
}

fn cfg(ignored: &[&str]) -> KBConfig {
    KBConfig {
        telegram_bot_token: String::new(),
        telegram_chat_id: String::new(),
        ignored_devices: ignored.iter().map(|s| s.to_string()).collect(),
    }
}

fn aliases() -> Aliases {
    load_aliases("KeyboardA Alpha\nKeyboardB Beta\nKeyboardC Alpha\n")
}

#[test]
fn first_poll_adds_and_notifies_each_device() {
    let mut known = KnownDevices::new();
    let snap = vec![dev(1, 1, 10, "KeyboardA"), dev(2, 2, 20, "KeyboardB")];
    let notes = known.reconcile(&snap, &cfg(&[]), &aliases());
    assert_eq!(known.devices.len(), 2);
    assert_eq!(notes.len(), 2);
    assert!(matches!(notes[0].kind, NotificationKind::Added));
    assert_eq!(notes[0].label, "Alpha");
    assert!(matches!(notes[1].kind, NotificationKind::Added));
    assert_eq!(notes[1].label, "Beta");
}

#[test]
fn unchanged_snapshot_is_idempotent() {
    let mut known = KnownDevices::new();
    let snap = vec![dev(1, 1, 10, "KeyboardA"), dev(2, 2, 20, "KeyboardB")];
    known.reconcile(&snap, &cfg(&[]), &aliases());
    let notes = known.reconcile(&snap, &cfg(&[]), &aliases());
    assert_eq!(notes.len(), 0);
    assert_eq!(known.devices.len(), 2);
    assert_eq!(known.devices[0].product, "KeyboardA");
    assert_eq!(known.devices[1].product, "KeyboardB");
}

#[test]
fn removal_is_reported_before_addition() {
    let mut known = KnownDevices::new();
    let a = dev(1, 1, 10, "KeyboardA");
    let b = dev(2, 2, 20, "KeyboardB");
    known.reconcile(&vec![a], &cfg(&[]), &aliases());
    let notes = known.reconcile(&vec![b], &cfg(&[]), &aliases());
    assert_eq!(notes.len(), 2);
    assert!(matches!(notes[0].kind, NotificationKind::Removed));
    assert_eq!(notes[0].label, "Alpha");
    assert!(matches!(notes[1].kind, NotificationKind::Added));
    assert_eq!(notes[1].label, "Beta");
    assert_eq!(known.devices.len(), 1);
    assert_eq!(known.devices[0].product, "KeyboardB");
}

#[test]
fn two_removals_with_one_alias_notify_once() {
    let mut known = KnownDevices::new();
    // KeyboardA and KeyboardC both resolve to the alias Alpha.
    let snap = vec![dev(1, 1, 10, "KeyboardA"), dev(2, 3, 30, "KeyboardC")];
    known.reconcile(&snap, &cfg(&[]), &aliases());
    let notes = known.reconcile(&Vec::new(), &cfg(&[]), &aliases());
    assert_eq!(notes.len(), 1);
    assert!(matches!(notes[0].kind, NotificationKind::Removed));
    assert_eq!(notes[0].label, "Alpha");
    assert_eq!(known.devices.len(), 0);
}

#[test]
fn removals_are_reported_highest_index_first() {
    let mut known = KnownDevices::new();
    let snap = vec![dev(1, 1, 10, "KeyboardA"), dev(2, 2, 20, "KeyboardB")];
    known.reconcile(&snap, &cfg(&[]), &aliases());
    let notes = known.reconcile(&Vec::new(), &cfg(&[]), &aliases());
    assert_eq!(notes.len(), 2);
    assert_eq!(notes[0].label, "Beta");
    assert_eq!(notes[1].label, "Alpha");
}

#[test]
fn ignored_alias_is_never_added_nor_notified() {
    let mut known = KnownDevices::new();
    let snap = vec![dev(1, 1, 10, "KeyboardA")];
    let notes = known.reconcile(&snap, &cfg(&["ALPHA"]), &aliases());
    assert_eq!(notes.len(), 0);
    assert_eq!(known.devices.len(), 0);
}

#[test]
fn ignored_hex_form_is_never_added_nor_notified() {
    let mut known = KnownDevices::new();
    let snap = vec![dev(1, 0x04D9, 0xA09F, "")];
    let notes = known.reconcile(&snap, &cfg(&["04D9:A09F"]), &aliases());
    assert_eq!(notes.len(), 0);
    assert_eq!(known.devices.len(), 0);
}

#[test]
fn internal_label_updates_state_silently() {
    let mut known = KnownDevices::new();
    // "Unmapped" is no alias key, so its label resolves to INTERNAL.
    let snap = vec![dev(1, 1, 10, "Unmapped")];
    let notes = known.reconcile(&snap, &cfg(&[]), &aliases());
    assert_eq!(notes.len(), 0);
    assert_eq!(known.devices.len(), 1);
    let notes = known.reconcile(&Vec::new(), &cfg(&[]), &aliases());
    assert_eq!(notes.len(), 0);
    assert_eq!(known.devices.len(), 0);
}

#[test]
fn empty_snapshot_removes_every_known_device() {
    let mut known = KnownDevices::new();
    let snap = vec![dev(1, 1, 10, "KeyboardA"), dev(2, 2, 20, "KeyboardB")];
    known.reconcile(&snap, &cfg(&[]), &aliases());
    let notes = known.reconcile(&Vec::new(), &cfg(&[]), &aliases());
    assert_eq!(known.devices.len(), 0);
    assert_eq!(notes.len(), 2);
    assert!(matches!(notes[0].kind, NotificationKind::Removed));
    assert!(matches!(notes[1].kind, NotificationKind::Removed));
}

#[test]
fn same_identity_different_strings_is_no_addition() {
    let mut known = KnownDevices::new();
    known.reconcile(&vec![dev(1, 1, 10, "KeyboardA")], &cfg(&[]), &aliases());
    // Same (bus, address, vendor, product, class) identity, new strings:
    // matched as the same device, so nothing changes.
    let notes = known.reconcile(&vec![dev(1, 1, 10, "KeyboardB")], &cfg(&[]), &aliases());
    assert_eq!(notes.len(), 0);
    assert_eq!(known.devices.len(), 1);
    assert_eq!(known.devices[0].product, "KeyboardA");
}

#[test]
fn lower_case_ignore_entries_from_the_config_file_still_match() {
    let c = config_from_key_values(&load_key_value_file("IGNORE 04d9:a09f\nIGNORE alpha\n"));
    let mut known = KnownDevices::new();
    let snap = vec![dev(1, 0x04D9, 0xA09F, ""), dev(2, 2, 20, "KeyboardA")];
    let notes = known.reconcile(&snap, &c, &aliases());
    assert_eq!(notes.len(), 0);
    assert_eq!(known.devices.len(), 0);
}

#[test]
fn alias_table_entries_are_plain_pairs() {
    let t: Aliases = vec![KeyValue { key: "KeyboardA".to_string(), value: "Alpha".to_string() }];
    let mut known = KnownDevices::new();
    let notes = known.reconcile(&vec![dev(1, 1, 10, "KeyboardA")], &cfg(&[]), &t);
    assert_eq!(notes.len(), 1);
    assert_eq!(notes[0].label, "Alpha");
}
