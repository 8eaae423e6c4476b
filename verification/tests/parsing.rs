//! Key-value file parsing and the typed configuration built from it.

use kbwatch::kbutils::{config_from_key_values, load_key_value_file};

#[test]
fn repeated_key_yields_every_value_in_order() {
    let kvs = load_key_value_file("IGNORE 04D9:A09F\nIGNORE 1234:5678");
    assert_eq!(kvs.len(), 2);
    assert_eq!(kvs[0].key, "IGNORE");
    assert_eq!(kvs[0].value, "04D9:A09F");
    assert_eq!(kvs[1].key, "IGNORE");
    assert_eq!(kvs[1].value, "1234:5678");
}

#[test]
fn lines_without_a_space_or_with_empty_sides_are_skipped() {
    let kvs = load_key_value_file("NOSPACE\n\nKEY value\nKEY2   \n EMPTYKEY\n");
    assert_eq!(kvs.len(), 1);
    assert_eq!(kvs[0].key, "KEY");
    assert_eq!(kvs[0].value, "value");
}

#[test]
fn key_and_value_are_trimmed_and_split_on_the_first_space() {
    let kvs = load_key_value_file("KEY  value with spaces  ");
    assert_eq!(kvs.len(), 1);
    assert_eq!(kvs[0].key, "KEY");
    assert_eq!(kvs[0].value, "value with spaces");
}

#[test]
fn tabs_and_other_whitespace_are_trimmed() {
    let kvs = load_key_value_file("KEY \tvalue\t\u{a0}\n");
    assert_eq!(kvs.len(), 1);
    assert_eq!(kvs[0].key, "KEY");
    assert_eq!(kvs[0].value, "value");
}

#[test]
fn crlf_line_endings_are_handled() {
    let kvs = load_key_value_file("A one\r\nB two\r\n");
    assert_eq!(kvs.len(), 2);
    assert_eq!(kvs[0].value, "one");
    assert_eq!(kvs[1].value, "two");
}

#[test]
fn empty_text_yields_no_pairs() {
    assert_eq!(load_key_value_file("").len(), 0);
}

#[test]
fn config_takes_first_scalars_and_all_ignores_upper_cased() {
    let kvs = load_key_value_file(
        "TELEGRAM_BOT_TOKEN abc123\nTELEGRAM_CHAT_ID 42\nIGNORE 04d9:a09f\nIGNORE Office keyboard\nTELEGRAM_BOT_TOKEN later\n",
    );
    let c = config_from_key_values(&kvs);
    assert_eq!(c.telegram_bot_token, "abc123");
    assert_eq!(c.telegram_chat_id, "42");
    assert_eq!(c.ignored_devices, vec!["04D9:A09F".to_string(), "OFFICE KEYBOARD".to_string()]);
}

#[test]
fn config_defaults_to_empty_fields() {
    let kvs = load_key_value_file("OTHER x");
    let c = config_from_key_values(&kvs);
    assert_eq!(c.telegram_bot_token, "");
    assert_eq!(c.telegram_chat_id, "");
    assert_eq!(c.ignored_devices.len(), 0);
}
