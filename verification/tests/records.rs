use breez_sdk_bindings::records::{
    convert_to_log_message, event_line, global_record, log_entry, record_enabled, stream_entry, LogLevel,
    BINDING_LOG_TARGET,
};
use breez_sdk_bindings::text_map::FieldMap;

fn fields(pairs: &[(&str, &str)]) -> FieldMap {
    let mut m = FieldMap::new();
    for (k, v) in pairs {
        m.record_text(k.to_string(), v.to_string());
    }
    m
}

#[test]
fn text_map_insert_get_and_replace() {
    let mut m = FieldMap::new();
    assert_eq!(m.get("message"), None);
    m.record_text("message".to_string(), "hello".to_string());
    m.record_text("log.file".to_string(), "a.rs".to_string());
    assert_eq!(m.get("message").map(|s| s.as_str()), Some("hello"));
    m.record_text("message".to_string(), "again".to_string());
    assert_eq!(m.get("message").map(|s| s.as_str()), Some("again"));
    assert_eq!(m.get("log.file").map(|s| s.as_str()), Some("a.rs"));
    assert_eq!(m.text_or_empty("absent"), "");
}

#[test]
fn recorded_values_are_written_as_text() {
    let mut m = FieldMap::new();
    m.record_u64("log.line".to_string(), 120);
    m.record_i64("delta".to_string(), -5);
    m.record_bool("ok".to_string(), true);
    assert_eq!(m.text_or_empty("log.line"), "120");
    assert_eq!(m.text_or_empty("delta"), "-5");
    assert_eq!(m.text_or_empty("ok"), "true");
    let copy = m.duplicate();
    assert_eq!(copy.text_or_empty("delta"), "-5");
}

#[test]
fn convert_to_log_message_copies_fields() {
    let m = fields(&[
        ("message", "payment sent"),
        ("log.module_path", "sdk::payments"),
        ("log.file", "src/payments.rs"),
        ("log.line", "88"),
    ]);
    let msg = convert_to_log_message(&m);
    assert_eq!(msg.level, LogLevel::Info);
    assert_eq!(msg.message, "payment sent");
    assert_eq!(msg.module_name, "sdk::payments");
    assert_eq!(msg.file, "src/payments.rs");
    assert_eq!(msg.line, 88);
}

#[test]
fn convert_to_log_message_defaults() {
    let msg = convert_to_log_message(&FieldMap::new());
    assert_eq!(msg.message, "");
    assert_eq!(msg.module_name, "");
    assert_eq!(msg.file, "");
    assert_eq!(msg.line, 0);
    let bad = convert_to_log_message(&fields(&[("log.line", "x12")]));
    assert_eq!(bad.line, 0);
}

#[test]
fn recorded_line_is_read_back() {
    let mut m = FieldMap::new();
    m.record_u64("log.line".to_string(), 4294967295);
    assert_eq!(event_line(&m), Some(4294967295));
    assert_eq!(convert_to_log_message(&m).line, 4294967295);
    m.record_u64("log.line".to_string(), 4294967296);
    assert_eq!(event_line(&m), None);
    assert_eq!(convert_to_log_message(&m).line, 0);
}

#[test]
fn global_record_copies_fields() {
    let m = fields(&[("message", "m"), ("log.target", "t"), ("log.line", "3")]);
    let rec = global_record(&m);
    assert_eq!(rec.level, LogLevel::Info);
    assert_eq!(rec.target, "t");
    assert_eq!(rec.message, "m");
    assert_eq!(rec.line, Some(3));
    assert_eq!(rec.file, "");
    assert_eq!(rec.module_name, "");
    assert_eq!(global_record(&FieldMap::new()).line, None);
}

#[test]
fn only_own_records_are_held_back() {
    for level in [LogLevel::Error, LogLevel::Warn, LogLevel::Info, LogLevel::Debug, LogLevel::Trace] {
        assert!(record_enabled(level, "breez_sdk_core::node_api"));
        assert!(record_enabled(level, ""));
        assert!(!record_enabled(level, BINDING_LOG_TARGET));
    }
    assert!(!record_enabled(LogLevel::Info, "breez_sdk_bindings::uniffi_binding"));
}

#[test]
fn level_names() {
    assert_eq!(LogLevel::Error.as_str(), "ERROR");
    assert_eq!(LogLevel::Warn.as_str(), "WARN");
    assert_eq!(LogLevel::Info.as_str(), "INFO");
    assert_eq!(LogLevel::Debug.as_str(), "DEBUG");
    assert_eq!(LogLevel::Trace.as_str(), "TRACE");
    assert!(LogLevel::Error.at_most(&LogLevel::Trace));
    assert!(!LogLevel::Trace.at_most(&LogLevel::Info));
}

#[test]
fn log_entry_carries_line_and_level_name() {
    let entry = log_entry("synced".to_string(), LogLevel::Warn);
    assert_eq!(entry.line, "synced");
    assert_eq!(entry.level, "WARN");
}

#[test]
fn own_records_never_reach_the_stream() {
    assert!(stream_entry("loop".to_string(), LogLevel::Info, BINDING_LOG_TARGET).is_none());
    assert!(stream_entry("loop".to_string(), LogLevel::Trace, "breez_sdk_bindings::uniffi_binding").is_none());
    let entry = stream_entry("paid".to_string(), LogLevel::Debug, "breez_sdk_core::payments").unwrap();
    assert_eq!(entry.line, "paid");
    assert_eq!(entry.level, "DEBUG");
}
