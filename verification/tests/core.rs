use mavshark::{
    Envelope, FilterSpec, FrequencyTracker, RecordFilter, RecordedHeader, RecordedMessage,
    Recorder, ReplayApp, ReplayKey, RollingWindow, SessionController, StartAction, StopAction,
    SessionPhase, HeartbeatAction, ListenerAction, ListenerState, RecvEvent, encode_record_bytes,
    heartbeat_message, heartbeat_step, listener_step, load_records, parse_record, replay_deltas,
    validate_connection_address_input, validate_file_input, validate_output_file_input,
    validate_u8_input,
};

fn env(sys: u8, comp: u8, seq: u8, id: u32, name: &str, payload: &str, at_ms: u64) -> Envelope {
    Envelope {
        system_id: sys,
        component_id: comp,
        sequence: seq,
        message_id: id,
        message_name: name.to_string(),
        message: payload.to_string(),
        received_at_ms: at_ms,
    }
}

fn record(delta_ms: u64, sys: u8, comp: u8, seq: u8, id: u32, name: &str, payload: &str)
    -> RecordedMessage {
    RecordedMessage {
        delta_ms,
        header: RecordedHeader { system_id: sys, component_id: comp, sequence: seq },
        message_id: id,
        message_name: name.to_string(),
        message: payload.to_string(),
    }
}

#[test]
fn canonical_line_shape() {
    let m = record(1500, 1, 2, 3, 0, "HEARTBEAT", "{\"type\":\"HEARTBEAT\"}");
    let line = encode_record_bytes(&m);
    let text = String::from_utf8(line).unwrap();
    assert_eq!(
        text,
        "{\"timestamp\":1.500,\"header\":{\"system_id\":1,\"component_id\":2,\"sequence\":3},\
         \"message_id\":0,\"message_name\":\"HEARTBEAT\",\
         \"message\":\"{\\\"type\\\":\\\"HEARTBEAT\\\"}\"}"
    );
}

#[test]
fn canonical_line_is_json() {
    let m = record(250, 42, 7, 9, 33, "ATTITUDE", "{\"roll\":0.5,\"pitch\":-0.25}");
    let line = encode_record_bytes(&m);
    let text = String::from_utf8(line).unwrap();
    let v: serde_json::Value = serde_json::from_str(&text).unwrap();
    assert_eq!(v["header"]["system_id"], 42);
    assert_eq!(v["header"]["component_id"], 7);
    assert_eq!(v["header"]["sequence"], 9);
    assert_eq!(v["message_id"], 33);
    assert_eq!(v["message_name"], "ATTITUDE");
    assert_eq!(v["message"], "{\"roll\":0.5,\"pitch\":-0.25}");
    assert_eq!(v["timestamp"], 0.25);
}

#[test]
fn record_round_trip() {
    let m = record(65_123, 255, 0, 17, 4_294_967_295, "SYS_STATUS", "a \"quoted\" \\ text\n");
    let line = encode_record_bytes(&m);
    let back = parse_record(&line).expect("canonical line must parse");
    assert_eq!(back.delta_ms, 65_123);
    assert_eq!(back.header.system_id, 255);
    assert_eq!(back.header.component_id, 0);
    assert_eq!(back.header.sequence, 17);
    assert_eq!(back.message_id, 4_294_967_295);
    assert_eq!(back.message_name, "SYS_STATUS");
    assert_eq!(back.message, "a \"quoted\" \\ text\n");
}

#[test]
fn record_round_trip_at_the_largest_delta() {
    let m = record(u64::MAX, 0, 0, 0, 0, "A", "");
    let line = encode_record_bytes(&m);
    let text = String::from_utf8(line.clone()).unwrap();
    assert!(text.starts_with("{\"timestamp\":18446744073709551.615,"));
    let back = parse_record(&line).unwrap();
    assert_eq!(back.delta_ms, u64::MAX);
}

#[test]
fn tracker_keeps_one_entry_per_key() {
    let mut tracker = FrequencyTracker::new(10_000);
    tracker.observe(1, 1, "HEARTBEAT", "first", 0);
    tracker.observe(1, 1, "HEARTBEAT", "second", 500);
    tracker.observe(1, 1, "HEARTBEAT", "third", 1000);
    assert_eq!(tracker.len(), 1);
    assert_eq!(tracker.get_last_payload(1, 1, "HEARTBEAT").unwrap(), "third");
    // distinct component, same name: a distinct key
    tracker.observe(1, 2, "HEARTBEAT", "other", 1000);
    assert_eq!(tracker.len(), 2);
}

#[test]
fn malformed_lines_are_refused() {
    assert!(parse_record(b"").is_none());
    assert!(parse_record(b"not json at all").is_none());
    assert!(parse_record(b"{\"timestamp\":1.500}").is_none());
    // a trailing byte after the closing brace
    let m = record(0, 1, 1, 1, 0, "HEARTBEAT", "x");
    let mut line = encode_record_bytes(&m);
    line.push(b' ');
    assert!(parse_record(&line).is_none());
    // a system id out of range
    let text = "{\"timestamp\":0.000,\"header\":{\"system_id\":256,\"component_id\":2,\
                \"sequence\":3},\"message_id\":0,\"message_name\":\"A\",\"message\":\"b\"}";
    assert!(parse_record(text.as_bytes()).is_none());
}

#[test]
fn recorder_reproduces_triples_in_order() {
    let mut rec = Recorder::new(RecordFilter::new(None));
    let envelopes = [
        env(1, 1, 0, 0, "HEARTBEAT", "h0", 0),
        env(2, 3, 1, 33, "ATTITUDE", "a1", 400),
        env(1, 1, 2, 0, "HEARTBEAT", "h2", 1000),
    ];
    for e in &envelopes {
        assert!(rec.record(e));
    }
    let lines = rec.flush();
    assert_eq!(lines.len(), 3);
    let triples: Vec<(u8, u8, String)> = lines
        .iter()
        .map(|l| {
            let m = parse_record(l).expect("recorded line must parse");
            (m.header.system_id, m.header.component_id, m.message_name)
        })
        .collect();
    assert_eq!(
        triples,
        vec![
            (1, 1, "HEARTBEAT".to_string()),
            (2, 3, "ATTITUDE".to_string()),
            (1, 1, "HEARTBEAT".to_string()),
        ]
    );
    // the deltas reconstruct the receipt timing
    let records: Vec<RecordedMessage> = lines.iter().map(|l| parse_record(l).unwrap()).collect();
    assert_eq!(records[0].delta_ms, 0);
    assert_eq!(records[1].delta_ms, 400);
    assert_eq!(records[2].delta_ms, 600);
}

#[test]
fn recorder_skips_payload_outside_ascii() {
    let mut rec = Recorder::new(RecordFilter::new(None));
    let bad = env(1, 1, 0, 0, "HEARTBEAT", "caf\u{e9}", 0);
    assert!(!rec.record(&bad));
    assert_eq!(rec.skipped_count(), 1);
    assert_eq!(rec.flush().len(), 0);
}

#[test]
fn record_filter_parses_names_and_ids() {
    let f = RecordFilter::new(Some("heartbeat, 33 ,sys_status,,"));
    assert!(f.matches("HEARTBEAT", 0));
    assert!(f.matches("Heartbeat", 999));
    assert!(f.matches("anything", 33));
    assert!(f.matches("sys_status", 1));
    assert!(!f.matches("ATTITUDE", 30));
    let all = RecordFilter::new(Some(""));
    assert!(all.matches("ANYTHING", 12345));
    let none_given = RecordFilter::new(None);
    assert!(none_given.matches("WHATEVER", 0));
}

#[test]
fn record_filter_applies_at_recording_time() {
    let mut rec = Recorder::new(RecordFilter::new(Some("HEARTBEAT")));
    assert!(rec.record(&env(1, 1, 0, 0, "HEARTBEAT", "h", 0)));
    assert!(!rec.record(&env(1, 1, 1, 33, "ATTITUDE", "a", 100)));
    assert_eq!(rec.flush().len(), 1);
}

#[test]
fn filter_spec_include_exclude() {
    // excluded wins over included; empty include admits all
    let f = FilterSpec::new(vec![], vec![2], vec![], vec![]);
    assert!(f.included(1, 1));
    assert!(!f.included(2, 1));
    let g = FilterSpec::new(vec![5], vec![5], vec![], vec![]);
    assert!(!g.included(5, 1));
    assert!(!g.included(6, 1));
    let h = FilterSpec::new(vec![1, 2], vec![], vec![7], vec![8]);
    assert!(h.included(1, 7));
    assert!(!h.included(1, 8));
    assert!(!h.included(1, 9));
    assert!(!h.included(3, 7));
    let all = FilterSpec::accept_all();
    assert!(all.included(200, 200));
}

#[test]
fn rolling_window_rates() {
    let mut w = RollingWindow::new(10_000);
    assert_eq!(w.get_hz(), 0);
    w.add(0, 0);
    assert_eq!(w.get_hz(), 0, "one sample is no rate");
    w.add(1000, 1000);
    w.add(2000, 2000);
    // three samples spaced 1000 ms apart, read at the last: exactly 1 Hz
    assert_eq!(w.get_hz(), 1000);
    assert_eq!(w.len(), 3);
}

#[test]
fn rolling_window_evicts_old_samples() {
    let mut w = RollingWindow::new(1000);
    w.add(0, 0);
    w.add(500, 500);
    w.add(2000, 2000);
    // the samples at 0 and 500 both left the 1000 ms window at time 2000
    assert_eq!(w.len(), 1);
    assert!(!w.should_be_cleared(5000, 2000));
    assert!(w.should_be_cleared(999, 3000));
}

#[test]
fn tracker_scenario_heartbeats_and_exclusion() {
    // three HEARTBEAT envelopes from system 1 at 1 Hz, two from system 2,
    // with system 2 excluded from listening
    let filter = FilterSpec::new(vec![], vec![2], vec![], vec![]);
    let mut tracker = FrequencyTracker::new(10_000);
    let mut rec = Recorder::new(RecordFilter::new(None));
    let stream = [
        env(1, 1, 0, 0, "HEARTBEAT", "h", 0),
        env(2, 1, 0, 33, "ATTITUDE", "a", 300),
        env(1, 1, 1, 0, "HEARTBEAT", "h", 1000),
        env(2, 1, 1, 33, "ATTITUDE", "a", 1500),
        env(1, 1, 2, 0, "HEARTBEAT", "h", 2000),
    ];
    for e in &stream {
        let (_, action) = listener_step(false, &filter, RecvEvent::Message(clone_env(e)));
        match action {
            ListenerAction::Dispatch(d) => {
                tracker.observe(
                    d.system_id,
                    d.component_id,
                    &d.message_name,
                    &d.message,
                    d.received_at_ms,
                );
                assert!(rec.record(&d));
            }
            ListenerAction::Discard(d) => {
                assert_eq!(d.system_id, 2);
            }
            _ => panic!("unexpected action"),
        }
    }
    assert_eq!(rec.flush().len(), 3, "exactly the three system-1 records");
    assert_eq!(tracker.get_hz(1, 1, "HEARTBEAT"), 1000, "1 Hz in millihertz");
    assert_eq!(tracker.get_hz(2, 1, "ATTITUDE"), 0, "no entry for system 2");
    assert_eq!(tracker.len(), 1);
    let snap = tracker.snapshot();
    assert_eq!(snap.len(), 1);
    assert_eq!(snap[0].system_id, 1);
    assert_eq!(snap[0].name, "HEARTBEAT");
    assert_eq!(snap[0].hz_millihz, 1000);
    assert_eq!(tracker.get_last_payload(1, 1, "HEARTBEAT").unwrap(), "h");
    assert!(tracker.get_last_payload(2, 1, "ATTITUDE").is_none());
}

fn clone_env(e: &Envelope) -> Envelope {
    env(
        e.system_id,
        e.component_id,
        e.sequence,
        e.message_id,
        &e.message_name,
        &e.message,
        e.received_at_ms,
    )
}

#[test]
fn tracker_sweep_evicts_stale_keys() {
    let mut tracker = FrequencyTracker::new(10_000);
    tracker.observe(1, 1, "HEARTBEAT", "h", 0);
    tracker.observe(3, 3, "ATTITUDE", "a", 4_900);
    tracker.refresh(5_000);
    tracker.sweep(2_000, 5_000);
    // the key last seen at 0 is older than the 2000 ms threshold at 5000
    assert_eq!(tracker.get_hz(1, 1, "HEARTBEAT"), 0);
    assert_eq!(tracker.len(), 1);
    let snap = tracker.snapshot();
    assert_eq!(snap[0].system_id, 3);
}

#[test]
fn load_yields_valid_records_and_counts_malformed() {
    let a = record(0, 1, 1, 0, 0, "HEARTBEAT", "h");
    let b = record(1000, 1, 1, 1, 0, "HEARTBEAT", "h");
    let lines = vec![
        String::from_utf8(encode_record_bytes(&a)).unwrap(),
        "this line is corrupt".to_string(),
        String::from_utf8(encode_record_bytes(&b)).unwrap(),
    ];
    let (records, warnings) = load_records(&lines);
    assert_eq!(records.len(), 2, "total lines minus the malformed one");
    assert_eq!(warnings, 1, "one logged warning");
    assert_eq!(records[0].delta_ms, 0);
    assert_eq!(records[1].delta_ms, 1000);
}

#[test]
fn load_passes_blank_lines_silently() {
    let a = record(0, 9, 9, 9, 9, "PING", "p");
    let lines = vec![
        String::new(),
        "   ".to_string(),
        String::from_utf8(encode_record_bytes(&a)).unwrap(),
        "\t".to_string(),
    ];
    let (records, warnings) = load_records(&lines);
    assert_eq!(records.len(), 1);
    assert_eq!(warnings, 0);
}

#[test]
fn replay_deltas_follow_records() {
    let records = vec![
        record(0, 1, 1, 0, 0, "A", "x"),
        record(250, 1, 1, 1, 0, "B", "y"),
        record(1750, 1, 1, 2, 0, "C", "z"),
    ];
    let ds = replay_deltas(&records);
    assert_eq!(ds, vec![0, 250, 1750]);
}

#[test]
fn replay_navigation_and_filtering() {
    let msgs = vec![
        record(0, 1, 1, 0, 0, "HEARTBEAT", "h"),
        record(10, 2, 5, 1, 33, "ATTITUDE", "a"),
        record(20, 1, 1, 2, 0, "HEARTBEAT", "h"),
    ];
    let mut app = ReplayApp::new("log.txt".to_string(), msgs);
    assert_eq!(app.filtered_indices.len(), 3);
    assert_eq!(app.selected, 0);
    assert!(!app.on_key(ReplayKey::Down));
    assert_eq!(app.selected, 1);
    assert!(!app.on_key(ReplayKey::Char(b'G')));
    assert_eq!(app.selected, 2);
    assert!(!app.on_key(ReplayKey::Char(b'g')));
    assert_eq!(app.selected, 0);
    // filter by name, case-insensitively
    assert!(!app.on_key(ReplayKey::Char(b'/')));
    for c in "heart".bytes() {
        assert!(!app.on_key(ReplayKey::Char(c)));
    }
    assert!(!app.on_key(ReplayKey::Enter));
    assert_eq!(app.filtered_indices, vec![0, 2]);
    let selected = app.selected_message().expect("something visible");
    assert_eq!(selected.message_name, "HEARTBEAT");
    // filter by system:component text
    assert!(!app.on_key(ReplayKey::Esc));
    assert_eq!(app.filtered_indices.len(), 3);
    assert!(!app.on_key(ReplayKey::Char(b'/')));
    for c in "2:5".bytes() {
        assert!(!app.on_key(ReplayKey::Char(c)));
    }
    assert!(!app.on_key(ReplayKey::Enter));
    assert_eq!(app.filtered_indices, vec![1]);
    assert_eq!(app.selected, 0);
    let selected = app.selected_message().expect("something visible");
    assert_eq!(selected.message_name, "ATTITUDE");
    // a filter matching nothing leaves no selection
    assert!(!app.on_key(ReplayKey::Char(b'/')));
    assert!(!app.on_key(ReplayKey::Char(b'z')));
    assert!(app.selected_message().is_none());
    // quitting
    assert!(app.on_key(ReplayKey::CtrlC));
}

#[test]
fn replay_quits_on_q_when_not_filtering() {
    let mut app = ReplayApp::new("log.txt".to_string(), vec![]);
    assert!(app.on_key(ReplayKey::Char(b'q')));
    // while the filter line is active, q is text
    assert!(!app.on_key(ReplayKey::Char(b'/')));
    assert!(!app.on_key(ReplayKey::Char(b'q')));
}

#[test]
fn listener_step_decides() {
    let filter = FilterSpec::new(vec![], vec![2], vec![], vec![]);
    let e = env(1, 1, 0, 0, "HEARTBEAT", "h", 0);
    let (state, action) = listener_step(false, &filter, RecvEvent::Message(e));
    assert_eq!(state, ListenerState::Running);
    assert!(matches!(action, ListenerAction::Dispatch(_)));
    let e2 = env(2, 1, 0, 0, "HEARTBEAT", "h", 0);
    let (_, action) = listener_step(false, &filter, RecvEvent::Message(e2));
    assert!(matches!(action, ListenerAction::Discard(_)));
    let (state, action) = listener_step(false, &filter, RecvEvent::Transient("timeout".into()));
    assert_eq!(state, ListenerState::Running);
    assert!(matches!(action, ListenerAction::LogTransient(_)));
    let (state, action) = listener_step(false, &filter, RecvEvent::Fatal("closed".into()));
    assert_eq!(state, ListenerState::Stopped);
    assert!(matches!(action, ListenerAction::ExitFatal(_)));
}

#[test]
fn stop_signal_ends_every_loop() {
    let filter = FilterSpec::accept_all();
    // once stop is seen the listener exits whatever arrives, and never
    // dispatches again
    let e = env(1, 1, 0, 0, "HEARTBEAT", "h", 0);
    let (state, action) = listener_step(true, &filter, RecvEvent::Message(e));
    assert_eq!(state, ListenerState::Stopped);
    assert!(matches!(action, ListenerAction::ExitStopped));
    // the heartbeat loop likewise
    assert_eq!(heartbeat_step(true), HeartbeatAction::Exit);
    assert_eq!(heartbeat_step(false), HeartbeatAction::SendAndSleep);
}

#[test]
fn heartbeat_payload_is_fixed() {
    let (header, data) = heartbeat_message(240, 1);
    assert_eq!(header.system_id, 240);
    assert_eq!(header.component_id, 1);
    assert_eq!(header.sequence, 0);
    assert_eq!(data.custom_mode, 0);
    assert_eq!(data.mavtype, 0, "generic vehicle type");
    assert_eq!(data.autopilot, 8, "invalid autopilot");
    assert_eq!(data.base_mode, 0);
    assert_eq!(data.system_status, 4, "active status");
    assert_eq!(data.mavlink_version, 3);
}

#[test]
fn session_controller_single_session() {
    let mut c = SessionController::new();
    assert!(!c.is_running());
    assert_eq!(c.start(), StartAction::Connect);
    assert!(c.is_running());
    // starting again must first stop and join the previous session
    assert_eq!(c.start(), StartAction::StopPreviousThenConnect);
    assert_eq!(c.stop(), StopAction::SignalAndJoin);
    assert!(!c.is_running());
    assert_eq!(c.stop(), StopAction::NoSession);
    assert_eq!(c.start(), StartAction::Connect);
    c.connect_failed();
    assert!(!c.is_running());
}

#[test]
fn validate_u8_input_grammar() {
    assert!(validate_u8_input("0"));
    assert!(validate_u8_input("255"));
    assert!(validate_u8_input("+7"));
    assert!(validate_u8_input("007"));
    assert!(!validate_u8_input("256"));
    assert!(!validate_u8_input(""));
    assert!(!validate_u8_input("+"));
    assert!(!validate_u8_input("-1"));
    assert!(!validate_u8_input("12a"));
    assert!(!validate_u8_input(" 12"));
}

#[test]
fn validate_file_input_grammar() {
    assert!(validate_file_input("output.txt"));
    assert!(validate_file_input("logs/run_1.txt"));
    assert!(validate_output_file_input("a.txt"));
    assert!(!validate_file_input("output.bin"));
    assert!(!validate_file_input(".tx"));
    assert!(!validate_file_input("bad name.txt"));
    assert!(!validate_file_input("bad-name.txt"));
}

#[test]
fn validate_connection_address_grammar() {
    assert!(validate_connection_address_input("udpin:0.0.0.0:14550"));
    assert!(validate_connection_address_input("udpout:127.0.0.1:14550"));
    assert!(validate_connection_address_input("tcpin:192.168.1.10:5760"));
    assert!(validate_connection_address_input("tcpout:10.0.0.1:80"));
    assert!(!validate_connection_address_input("serial:/dev/ttyUSB0:57600"));
    assert!(!validate_connection_address_input("udpin:localhost:14550"));
    assert!(!validate_connection_address_input("udpin:256.0.0.1:14550"));
    assert!(!validate_connection_address_input("udpin:01.2.3.4:14550"));
    assert!(!validate_connection_address_input("udpin:1.2.3.4:65536"));
    assert!(!validate_connection_address_input("udpin:1.2.3.4"));
    assert!(!validate_connection_address_input("udpin:1.2.3:4:5"));
    assert!(!validate_connection_address_input(""));
}

#[test]
fn escaped_payload_round_trips_control_bytes() {
    let wild = "tab\tquote\"backslash\\newline\ncarriage\rbell\x07";
    let m = record(1, 3, 4, 5, 6, "STATUSTEXT", wild);
    let line = encode_record_bytes(&m);
    let back = parse_record(&line).unwrap();
    assert_eq!(back.message, wild);
    // the line itself never holds a raw control byte
    assert!(line.iter().all(|&b| b >= 0x20));
}
