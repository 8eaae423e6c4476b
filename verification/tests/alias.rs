//! Alias resolution, from the raw identity string to the friendly label.

use kbwatch::kbutils::{get_alias, get_alias_opt, get_alias_raw, load_aliases, Aliases, KeyValue};

fn table(pairs: &[(&str, &str)]) -> Aliases {
    let mut t: Aliases = Vec::new();
    for (k, v) in pairs {
        t.push(KeyValue { key: (*k).to_string(), value: (*v).to_string() });
    }
    t
}

#[test]
fn hid_identity_without_match_falls_back_to_vidpid_key() {
    let t = table(&[]);
    let r = get_alias("HID#VID_1234&PID_5678#extra_serial_info", &t);
    assert_eq!(r, "VID_1234&PID_5678");
}

#[test]
fn non_hid_identity_without_match_resolves_internal() {
    let t = table(&[]);
    assert_eq!(get_alias("ACPI#whatever", &t), "INTERNAL");
    assert_eq!(get_alias("", &t), "INTERNAL");
}

#[test]
fn internal_key_can_be_mapped() {
    let t = table(&[("INTERNAL", "Built-in device")]);
    assert_eq!(get_alias("some built-in thing", &t), "Built-in device");
}

#[test]
fn direct_key_wins_before_any_cleanup() {
    let t = table(&[("HID#VID_1234&PID_5678#serial", "Exact"), ("VID_1234&PID_5678", "Grouped")]);
    assert_eq!(get_alias("HID#VID_1234&PID_5678#serial", &t), "Exact");
}

#[test]
fn vidpid_key_resolves_through_table() {
    let t = table(&[("VID_1234&PID_5678", "My Keyboard")]);
    let r = get_alias("\\\\?\\HID#VID_1234&PID_5678#instance42", &t);
    assert_eq!(r, "My Keyboard");
}

#[test]
fn path_marker_is_stripped_before_the_hid_test() {
    let t = table(&[]);
    let r = get_alias("\\\\?\\HID#VID_AAAA&PID_BBBB#x", &t);
    assert_eq!(r, "VID_AAAA&PID_BBBB");
}

#[test]
fn missing_pid_token_keeps_the_whole_remainder() {
    let t = table(&[]);
    assert_eq!(get_alias("HID#VID_1234", &t), "VID_1234");
    assert_eq!(get_alias("HID#VID_&PID_5678", &t), "VID_&PID_5678");
}

#[test]
fn extra_tokens_after_pid_are_cut() {
    let t = table(&[]);
    assert_eq!(get_alias("HID#VID_1234&PID_5678&MI_00#x", &t), "VID_1234&PID_5678");
}

#[test]
fn first_value_wins_for_a_repeated_key() {
    let t = table(&[("K", "first"), ("K", "second")]);
    assert_eq!(get_alias("K", &t), "first");
    assert_eq!(get_alias_opt("K", &t), Some("first".to_string()));
}

#[test]
fn raw_lookup_falls_back_to_the_name() {
    let t = table(&[("A", "mapped")]);
    assert_eq!(get_alias_raw("A", &t), "mapped");
    assert_eq!(get_alias_raw("B", &t), "B");
    assert_eq!(get_alias_opt("B", &t), None);
}

#[test]
fn aliases_load_from_file_text() {
    let t = load_aliases("VID_04D9&PID_A09F Office keyboard\nINTERNAL Laptop\n");
    assert_eq!(get_alias("HID#VID_04D9&PID_A09F#7&123", &t), "Office keyboard");
    assert_eq!(get_alias("PS2 something", &t), "Laptop");
}
