//! Watches a host's attached USB/HID devices for plug and unplug
//! transitions, resolves each device to a human-readable label through an
//! alias table, and emits one notification event per state transition.
//!
//! The crate holds the verified core: device identity modelling, key-value
//! configuration parsing, alias resolution, the per-poll reconciliation of
//! the known device set against a freshly enumerated snapshot, and the
//! composition of outbound notification payloads.  Enumeration of actual
//! hardware, file reading, timers, signals and the HTTP transport are left
//! to the surrounding application, which hands this crate plain values.

pub mod kbdevice;
pub mod kbutils;
pub mod notify;
pub mod text;
pub mod watch;
