//! Verified core of a telemetry link monitor: message filtering, per-type
//! rate tracking, canonical session recording, and timing-faithful replay
//! bookkeeping.
//!
//! All I/O (the live link, the terminal, files, clocks) lives outside this
//! crate; the library works on plain values handed in from that edge and
//! its behaviour is stated in `requires`/`ensures` contracts. The receive
//! and heartbeat loops appear here as pure step functions that the edge
//! folds over its events.

mod codec;
mod envelope;
mod filter;
mod listener;
mod logs;
mod record;
mod record_filter;
mod recorder;
mod replay;
mod rolling_window;
mod session;
mod text;
mod tracker;
mod utils;

pub use codec::{esc, esc_byte, spec_scan_string, escape_bytes, scan_string, lemma_scan_of_escaped};
pub use envelope::{Envelope, EnvelopeView};
pub use filter::{FilterSpec, id_passes, id_list_contains};
pub use listener::{
    ListenerState, RecvEvent, ListenerAction, listener_step, spec_dispatched,
    lemma_dispatch_preserves_order, HeartbeatData, HeartbeatHeader, heartbeat_message,
    HeartbeatAction, heartbeat_step,
};
pub use logs::{LogLevel, LogEntry, LogEntryView, Logs, AppLogs, ErrorEntry, ErrorEntryView,
    WidgetErrors};
pub use record::{
    RecordedHeader, RecordedMessage, RecordView, encode_record, spec_parse_record,
    encode_record_bytes, parse_record, lemma_parse_of_encode,
};
pub use record_filter::{
    RecordFilter, RecordFilterView, spec_filter_of, spec_tokens, token_is_id, token_is_name,
    id_of_token, name_of_token, ids_of, names_of,
};
pub use recorder::{
    Recorder, RecorderView, record_of, spec_delta, load_records, load_result,
    lemma_recorder_round_trip, lemma_load_of_recorded,
};
pub use replay::{
    ReplayApp, ReplayKey, matches_filter, indices_matching, lemma_indices_bounds,
    lemma_indices_all,
};
pub use rolling_window::{
    RollingWindow, RollingWindowView, spec_retained, spec_hz, spec_stale, is_fresh,
    lemma_hz_even_spacing, lemma_hz_under_two_samples,
};
pub use session::{
    SessionPhase, StartAction, StopAction, SessionController, replay_deltas, apply_overrides,
    spec_send_times, lemma_replay_gaps,
};
pub use text::{
    dec_digits, dec_val, spec_is_uint_text, spec_trim, spec_upper, spec_contains, fmt_u64,
    parse_uint_text, trim, to_upper, contains_bytes, bytes_eq, str_eq, ascii_bytes,
    chars_of_bytes, bytes_of_chars, ascii_to_string, str_bytes, is_ascii_vec,
};
pub use tracker::{
    FreqKey, FreqKeyView, FreqEntry, FreqEntryView, FrequencyTracker, FreqSample, FreqSampleView,
    has_key, spec_hz_of, observed_window, refreshed_window, keys_unique,
    lemma_stale_key_absent_after_sweep,
};
pub use utils::{
    InputField, validate_u8_input, validate_file_input, validate_output_file_input,
    validate_connection_address_input, spec_valid_file, spec_valid_address, spec_is_ipv4,
    spec_is_octet, spec_split, split_bytes, is_octet, is_ipv4_text,
};
