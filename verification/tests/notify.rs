//! Notification payloads and the heartbeat line.

use kbwatch::kbutils::KBConfig;
use kbwatch::notify::{heartbeat_line, json_escape, message_request, message_url, NotifyError};

fn cfg() -> KBConfig {
    KBConfig {
        telegram_bot_token: "abc123".to_string(),
        telegram_chat_id: "42".to_string(),
        ignored_devices: Vec::new(),
    }
}

#[test]
fn body_holds_chat_id_text_and_flag() {
    let r = message_request(&cfg(), "KeyboardA plugged in host1", false).unwrap();
    assert_eq!(
        r,
        "{\"chat_id\": \"42\", \"text\": \"KeyboardA plugged in host1\", \"disable_notification\": false}"
    );
}

#[test]
fn silent_flag_is_written_true() {
    let r = message_request(&cfg(), "x", true).unwrap();
    assert_eq!(r, "{\"chat_id\": \"42\", \"text\": \"x\", \"disable_notification\": true}");
}

#[test]
fn empty_message_is_refused() {
    let r = message_request(&cfg(), "", false);
    assert!(matches!(r, Err(NotifyError::EmptyMessage)));
}

#[test]
fn text_is_json_escaped() {
    let r = message_request(&cfg(), "a \"quote\" and a \\ back\nslash", false).unwrap();
    assert_eq!(
        r,
        "{\"chat_id\": \"42\", \"text\": \"a \\\"quote\\\" and a \\\\ back\\nslash\", \"disable_notification\": false}"
    );
}

#[test]
fn json_escape_covers_the_control_characters() {
    assert_eq!(json_escape("plain"), "plain");
    assert_eq!(json_escape("\u{8}\u{c}\n\r\t"), "\\b\\f\\n\\r\\t");
    assert_eq!(json_escape("\u{1}\u{1f}"), "\\u0001\\u001f");
    assert_eq!(json_escape("é✓"), "é✓");
}

#[test]
fn url_holds_the_bot_token() {
    assert_eq!(message_url(&cfg()), "https://api.telegram.org/botabc123/sendMessage");
}

#[test]
fn heartbeat_line_is_zero_padded() {
    assert_eq!(heartbeat_line(2024, 5, 7, 9, 30, 5), "2024-05-07 09:30:05 : still running");
    assert_eq!(heartbeat_line(999, 12, 31, 23, 59, 59), "0999-12-31 23:59:59 : still running");
}
