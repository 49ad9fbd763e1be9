use breez_sdk_bindings::log_stream::{LogStreamError, LogStreamGate, NOOO};
use breez_sdk_bindings::records::{LogEntry, LogLevel, LogMessage};
use breez_sdk_bindings::routing::{find_span_seed, node_logger_key, EventRoute, LoggerRegistry};
use breez_sdk_bindings::text_map::FieldMap;

fn span(seed: Option<&str>) -> FieldMap {
    let mut m = FieldMap::new();
    m.record_text("name".to_string(), "node".to_string());
    if let Some(s) = seed {
        m.record_text("seed".to_string(), s.to_string());
    }
    m
}

fn event(message: &str) -> FieldMap {
    let mut m = FieldMap::new();
    m.record_text("message".to_string(), message.to_string());
    m
}

#[test]
fn node_logger_key_is_lower_hex() {
    assert_eq!(node_logger_key(&[]), "");
    assert_eq!(node_logger_key(&[0x00, 0xff, 0x10, 0xab]), "00ff10ab");
    assert_ne!(node_logger_key(&[0x01, 0x23]), node_logger_key(&[0x12, 0x03]));
}

#[test]
fn first_span_with_fields_decides_the_seed() {
    assert_eq!(find_span_seed(&vec![]), None);
    assert_eq!(find_span_seed(&vec![None, None]), None);
    let scope = vec![None, Some(span(Some("ab"))), Some(span(Some("cd")))];
    assert_eq!(find_span_seed(&scope).as_deref(), Some("ab"));
    let scope = vec![Some(span(None)), Some(span(Some("cd")))];
    assert_eq!(find_span_seed(&scope), None);
}

#[test]
fn registered_node_receives_its_events() {
    let mut registry: LoggerRegistry<u32> = LoggerRegistry::new();
    let key = registry.register_node_logger(&[0xab, 0x01], 5);
    assert_eq!(key, "ab01");
    registry.register_node_logger(&[0x02], 6);
    assert_eq!(registry.logger_for("ab01"), Some(&5));
    assert_eq!(registry.logger_for("02"), Some(&6));
    assert_eq!(registry.logger_for("03"), None);

    let scope = vec![None, Some(span(Some("ab01")))];
    match registry.route_event(&scope, &event("hello")) {
        EventRoute::Node(logger, msg) => {
            assert_eq!(*logger, 5);
            assert_eq!(msg.message, "hello");
            assert_eq!(msg.level, LogLevel::Info);
        }
        EventRoute::Global(_) => panic!("event went to the global logger"),
    }
}

#[test]
fn re_registering_replaces_the_logger() {
    let mut registry: LoggerRegistry<u32> = LoggerRegistry::new();
    registry.add_local_logger("aa".to_string(), 1);
    registry.add_local_logger("aa".to_string(), 2);
    assert_eq!(registry.logger_for("aa"), Some(&2));
}

#[test]
fn unclaimed_events_go_global() {
    let mut registry: LoggerRegistry<u32> = LoggerRegistry::new();
    registry.register_node_logger(&[0x01], 1);
    for scope in [vec![], vec![Some(span(None))], vec![Some(span(Some("02")))]] {
        match registry.route_event(&scope, &event("to global")) {
            EventRoute::Global(rec) => {
                assert_eq!(rec.message, "to global");
                assert_eq!(rec.target, "");
                assert_eq!(rec.line, None);
            }
            EventRoute::Node(..) => panic!("event went to a node logger"),
        }
    }
}

#[test]
fn log_stream_is_set_once() {
    let mut gate = LogStreamGate::new();
    assert!(!gate.is_created());
    assert_eq!(gate.claim(), Ok(()));
    assert!(gate.is_created());
    assert_eq!(gate.claim(), Err(LogStreamError::AlreadyCreated));
    assert_eq!(gate.claim(), Err(LogStreamError::AlreadyCreated));
    assert_eq!(LogStreamError::AlreadyCreated.message(), "log stream already created");
}

#[test]
fn noop_sink_lines() {
    let sink = NOOO;
    let entry = LogEntry { line: "a line".to_string(), level: "INFO".to_string() };
    assert_eq!(sink.stream_line(&entry), "a line");
    let msg = LogMessage {
        level: LogLevel::Info,
        message: "hi".to_string(),
        module_name: String::new(),
        file: String::new(),
        line: 0,
    };
    assert_eq!(sink.node_line(&msg), "NOOO, local_node_logger: hi");
}
