use arbor::log_layer::{
    persistent_log_line, FieldVisitor, InMemoryLayer, LogBuffer, LogEntry, LogLevel,
    MAX_LOG_ENTRIES,
};

fn entry(index: u64) -> LogEntry {
    LogEntry {
        timestamp_ms: 1_700_000_000_000 + index,
        level: LogLevel::Info,
        target: "arbor::test".to_owned(),
        message: format!("entry {index}"),
        fields: Vec::new(),
    }
}

#[test]
fn new_buffer_is_empty() {
    let buffer = LogBuffer::new();
    assert_eq!(buffer.generation(), 0);
    assert!(buffer.snapshot().is_empty());
    assert!(buffer.persistent_log_path().is_none());
}

#[test]
fn push_appends_in_order_and_counts_generations() {
    let mut buffer = LogBuffer::new();
    buffer.push(entry(1));
    buffer.push(entry(2));
    let snapshot = buffer.snapshot();
    assert_eq!(buffer.generation(), 2);
    assert_eq!(snapshot.len(), 2);
    assert_eq!(snapshot[0].message, "entry 1");
    assert_eq!(snapshot[1].message, "entry 2");
}

#[test]
fn full_buffer_drops_oldest_entry() {
    let mut buffer = LogBuffer::new();
    for index in 0..(MAX_LOG_ENTRIES as u64 + 5) {
        buffer.push(entry(index));
    }
    let snapshot = buffer.snapshot();
    assert_eq!(snapshot.len(), MAX_LOG_ENTRIES);
    assert_eq!(snapshot[0].message, "entry 5");
    assert_eq!(snapshot[MAX_LOG_ENTRIES - 1].message, format!("entry {}", MAX_LOG_ENTRIES + 4));
    assert_eq!(buffer.generation(), MAX_LOG_ENTRIES as u64 + 5);
}

#[test]
fn persistent_path_is_kept_and_does_not_change_entries() {
    let mut buffer = LogBuffer::new();
    buffer.push(entry(1));
    buffer.set_persistent_log_path("/tmp/arbor.log".to_owned());
    assert_eq!(buffer.persistent_log_path().map(String::as_str), Some("/tmp/arbor.log"));
    assert_eq!(buffer.snapshot().len(), 1);
    assert_eq!(buffer.generation(), 1);
}

#[test]
fn snapshot_copies_every_field() {
    let mut buffer = LogBuffer::new();
    buffer.push(LogEntry {
        timestamp_ms: 42,
        level: LogLevel::Warn,
        target: "arbor::ssh".to_owned(),
        message: "slow".to_owned(),
        fields: vec![("host".to_owned(), "devbox".to_owned())],
    });
    let snapshot = buffer.snapshot();
    assert_eq!(snapshot[0].timestamp_ms, 42);
    assert_eq!(snapshot[0].level, LogLevel::Warn);
    assert_eq!(snapshot[0].target, "arbor::ssh");
    assert_eq!(snapshot[0].fields, vec![("host".to_owned(), "devbox".to_owned())]);
}

#[test]
fn field_visitor_separates_message_from_fields() {
    let mut visitor = FieldVisitor::new();
    visitor.record("cmd", "mkdir -p x".to_owned());
    visitor.record("message", "running remote command".to_owned());
    visitor.record("exit", "0".to_owned());
    let entry = visitor.into_entry(7, LogLevel::Debug, "arbor::ssh".to_owned());
    assert_eq!(entry.message, "running remote command");
    assert_eq!(entry.fields, vec![
        ("cmd".to_owned(), "mkdir -p x".to_owned()),
        ("exit".to_owned(), "0".to_owned()),
    ]);
    assert_eq!(entry.timestamp_ms, 7);
}

#[test]
fn in_memory_layer_records_into_its_buffer() {
    let mut layer = InMemoryLayer::new(LogBuffer::new());
    layer.on_event(entry(3));
    assert_eq!(layer.buffer().generation(), 1);
    assert_eq!(layer.buffer().snapshot()[0].message, "entry 3");
}

#[test]
fn persistent_line_lists_message_and_fields() {
    let line = persistent_log_line(&LogEntry {
        timestamp_ms: 1712345678901,
        level: LogLevel::Error,
        target: "arbor_gui::app".to_owned(),
        message: "mkdir failed".to_owned(),
        fields: vec![
            ("cmd".to_owned(), "mkdir -p /srv".to_owned()),
            ("stderr".to_owned(), "denied".to_owned()),
        ],
    });
    assert_eq!(line, "1712345678901 ERROR arbor_gui::app mkdir failed  cmd=mkdir -p /srv stderr=denied");
}

#[test]
fn persistent_line_without_message_or_fields() {
    let line = persistent_log_line(&LogEntry {
        timestamp_ms: 0,
        level: LogLevel::Trace,
        target: "t".to_owned(),
        message: String::new(),
        fields: Vec::new(),
    });
    assert_eq!(line, "0 TRACE t");
    let with_fields = persistent_log_line(&LogEntry {
        timestamp_ms: 5,
        level: LogLevel::Debug,
        target: "t".to_owned(),
        message: String::new(),
        fields: vec![("k".to_owned(), "v".to_owned())],
    });
    assert_eq!(with_fields, "5 DEBUG t  k=v");
}

#[test]
fn level_names_match_log_lines() {
    assert_eq!(LogLevel::Trace.name(), "TRACE");
    assert_eq!(LogLevel::Debug.name(), "DEBUG");
    assert_eq!(LogLevel::Info.name(), "INFO");
    assert_eq!(LogLevel::Warn.name(), "WARN");
    assert_eq!(LogLevel::Error.name(), "ERROR");
}

#[test]
fn buffer_never_holds_more_than_the_limit() {
    let mut buffer = LogBuffer::new();
    for index in 0..(MAX_LOG_ENTRIES as u64 + 3) {
        buffer.push(entry(index));
    }
    let held = buffer.snapshot();
    assert_eq!(held.len(), MAX_LOG_ENTRIES);
    assert_eq!(held[0].message, "entry 3");
    assert_eq!(held[MAX_LOG_ENTRIES - 1].message, format!("entry {}", MAX_LOG_ENTRIES + 2));
    assert_eq!(buffer.generation(), MAX_LOG_ENTRIES as u64 + 3);
}
