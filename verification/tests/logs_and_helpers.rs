use mavshark::{
    AppLogs, ErrorEntry, LogEntry, LogLevel, Logs, WidgetErrors, contains_bytes, fmt_u64,
    parse_uint_text, split_bytes, to_upper, trim,
};

#[test]
fn logs_keep_arrival_order() {
    let mut logs = Logs::new();
    assert_eq!(logs.len(), 0);
    logs.log_info(10, "starting listener");
    logs.log_error(20, "recv failed");
    logs.log_info(30, "stopped");
    let entries = logs.entries();
    assert_eq!(entries.len(), 3);
    assert_eq!(entries[0].at_ms, 10);
    assert!(matches!(entries[0].level, LogLevel::Info));
    assert_eq!(entries[1].text, "recv failed");
    assert!(matches!(entries[1].level, LogLevel::Error));
    assert_eq!(entries[2].at_ms, 30);
}

#[test]
fn app_logs_wrap_entries() {
    let entries = vec![
        LogEntry { at_ms: 1, level: LogLevel::Info, text: "a".to_string() },
        LogEntry { at_ms: 2, level: LogLevel::Error, text: "b".to_string() },
    ];
    let logs = AppLogs::new_with(entries);
    let held = logs.get_errors();
    assert_eq!(held.len(), 2);
    assert_eq!(held[0].text, "a");
    assert_eq!(held[1].at_ms, 2);
}

#[test]
fn widget_errors_wrap_entries() {
    let errors = vec![ErrorEntry { text: "connect refused".to_string(), at_ms: 77 }];
    let w = WidgetErrors::new_with(errors);
    let held = w.get_errors();
    assert_eq!(held.len(), 1);
    assert_eq!(held[0].text, "connect refused");
    assert_eq!(held[0].at_ms, 77);
}

#[test]
fn widget_errors_dedup_by_text() {
    let mut w = WidgetErrors::new_with(vec![]);
    w.note("connect refused", 10);
    w.note("timed out", 20);
    w.note("connect refused", 30);
    let held = w.get_errors();
    assert_eq!(held.len(), 2);
    assert_eq!(held[0].text, "connect refused");
    assert_eq!(held[0].at_ms, 30, "a repeated error keeps its place with the new instant");
    assert_eq!(held[1].text, "timed out");
}

#[test]
fn decimal_rendering_and_reading() {
    assert_eq!(fmt_u64(0), b"0".to_vec());
    assert_eq!(fmt_u64(7), b"7".to_vec());
    assert_eq!(fmt_u64(1234567890), b"1234567890".to_vec());
    assert_eq!(fmt_u64(u64::MAX), b"18446744073709551615".to_vec());
    assert_eq!(parse_uint_text(b"1234567890", u64::MAX), Some(1234567890));
    assert_eq!(parse_uint_text(b"+42", 100), Some(42));
    assert_eq!(parse_uint_text(b"101", 100), None);
    assert_eq!(parse_uint_text(b"", 100), None);
    assert_eq!(parse_uint_text(b"4x", 100), None);
}

#[test]
fn text_helpers() {
    assert_eq!(trim(b"  spaced\t"), b"spaced".to_vec());
    assert_eq!(trim(b""), Vec::<u8>::new());
    assert_eq!(trim(b" \t\r\n "), Vec::<u8>::new());
    assert_eq!(to_upper(b"Heart_beat9"), b"HEART_BEAT9".to_vec());
    assert!(contains_bytes(b"HEARTBEAT", b"ART"));
    assert!(contains_bytes(b"HEARTBEAT", b""));
    assert!(!contains_bytes(b"HEARTBEAT", b"XYZ"));
    assert!(!contains_bytes(b"AB", b"ABC"));
    let parts = split_bytes(b"a:b::c", b':');
    let parts: Vec<Vec<u8>> = parts;
    assert_eq!(parts, vec![b"a".to_vec(), b"b".to_vec(), b"".to_vec(), b"c".to_vec()]);
}
