//! Operator-facing log state: timestamped entries with a severity, kept in
//! arrival order. The channels and threads that feed a live session sit at
//! the caller's edge; this is the buffer they fill and the views read.

use vstd::prelude::*;
use crate::text::str_eq;

verus! {

/// Severity of one log entry.
#[derive(Clone, Copy, Debug, PartialEq, Eq, Structural)]
pub enum LogLevel {
    Info,
    Error,
}

/// One log entry: when it happened, how severe it is, and its text.
pub struct LogEntry {
    pub at_ms: u64,
    pub level: LogLevel,
    pub text: String,
}

/// The mathematical content of one log entry.
#[verifier::ext_equal]
pub struct LogEntryView {
    pub at_ms: u64,
    pub level: LogLevel,
    pub text: Seq<char>,
}

impl View for LogEntry {
    type V = LogEntryView;

    open spec fn view(&self) -> LogEntryView {
        LogEntryView { at_ms: self.at_ms, level: self.level, text: self.text@ }
    }
}

/// The session log: entries in arrival order.
pub struct Logs {
    log_messages: Vec<LogEntry>,
}

impl View for Logs {
    type V = Seq<LogEntryView>;

    closed spec fn view(&self) -> Seq<LogEntryView> {
        self.log_messages@.map_values(|e: LogEntry| e@)
    }
}

impl Logs {
    pub fn new() -> (l: Logs)
        ensures
            l@ =~= Seq::<LogEntryView>::empty(),
    {
        Logs { log_messages: Vec::new() }
    }

    /// Appends an error entry stamped `now_ms`.
    pub fn log_error(&mut self, now_ms: u64, msg: &str)
        ensures
            final(self)@ == old(self)@.push(
                LogEntryView { at_ms: now_ms, level: LogLevel::Error, text: msg@ },
            ),
    {
        let e = LogEntry { at_ms: now_ms, level: LogLevel::Error, text: msg.to_owned() };
        self.log_messages.push(e);
        proof {
            assert(self@ =~= old(self)@.push(
                LogEntryView { at_ms: now_ms, level: LogLevel::Error, text: msg@ },
            ));
        }
    }

    /// Appends an informational entry stamped `now_ms`.
    pub fn log_info(&mut self, now_ms: u64, msg: &str)
        ensures
            final(self)@ == old(self)@.push(
                LogEntryView { at_ms: now_ms, level: LogLevel::Info, text: msg@ },
            ),
    {
        let e = LogEntry { at_ms: now_ms, level: LogLevel::Info, text: msg.to_owned() };
        self.log_messages.push(e);
        proof {
            assert(self@ =~= old(self)@.push(
                LogEntryView { at_ms: now_ms, level: LogLevel::Info, text: msg@ },
            ));
        }
    }

    /// The entries, oldest first.
    pub fn entries(&self) -> (r: &Vec<LogEntry>)
        ensures
            r@.map_values(|e: LogEntry| e@) == self@,
    {
        &self.log_messages
    }

    /// How many entries the log holds.
    pub fn len(&self) -> (n: usize)
        ensures
            n == self@.len(),
    {
        self.log_messages.len()
    }
}

/// A read view over a session's log entries, as the display layer holds
/// it.
pub struct AppLogs {
    log_messages: Vec<LogEntry>,
}

impl View for AppLogs {
    type V = Seq<LogEntryView>;

    closed spec fn view(&self) -> Seq<LogEntryView> {
        self.log_messages@.map_values(|e: LogEntry| e@)
    }
}

impl AppLogs {
    /// Wraps the given entries.
    pub fn new_with(log_messages: Vec<LogEntry>) -> (l: AppLogs)
        ensures
            l@ == log_messages@.map_values(|e: LogEntry| e@),
    {
        AppLogs { log_messages }
    }

    /// The wrapped entries.
    pub fn get_errors(&self) -> (r: &Vec<LogEntry>)
        ensures
            r@.map_values(|e: LogEntry| e@) == self@,
    {
        &self.log_messages
    }
}

/// One error message with the instant it was last seen.
pub struct ErrorEntry {
    pub text: String,
    pub at_ms: u64,
}

/// The mathematical content of one error entry.
#[verifier::ext_equal]
pub struct ErrorEntryView {
    pub text: Seq<char>,
    pub at_ms: u64,
}

impl View for ErrorEntry {
    type V = ErrorEntryView;

    open spec fn view(&self) -> ErrorEntryView {
        ErrorEntryView { text: self.text@, at_ms: self.at_ms }
    }
}

/// A read view over connection errors, as the display layer holds it.
pub struct WidgetErrors {
    error_messages: Vec<ErrorEntry>,
}

impl View for WidgetErrors {
    type V = Seq<ErrorEntryView>;

    closed spec fn view(&self) -> Seq<ErrorEntryView> {
        self.error_messages@.map_values(|e: ErrorEntry| e@)
    }
}

impl WidgetErrors {
    /// Wraps the given error entries.
    pub fn new_with(error_messages: Vec<ErrorEntry>) -> (w: WidgetErrors)
        ensures
            w@ == error_messages@.map_values(|e: ErrorEntry| e@),
    {
        WidgetErrors { error_messages }
    }

    /// The wrapped error entries.
    pub fn get_errors(&self) -> (r: &Vec<ErrorEntry>)
        ensures
            r@.map_values(|e: ErrorEntry| e@) == self@,
    {
        &self.error_messages
    }

    /// Notes one error: a text already listed keeps its place and gets the
    /// new instant; a new text joins at the end.
    pub fn note(&mut self, text: &str, now_ms: u64)
        ensures
            (if exists|i: int| 0 <= i < old(self)@.len() && (#[trigger] old(self)@[i]).text
                == text@ {
                exists|i: int|
                    0 <= i < old(self)@.len() && (#[trigger] old(self)@[i]).text == text@
                        && final(self)@ =~= old(self)@.update(
                        i,
                        ErrorEntryView { text: text@, at_ms: now_ms },
                    )
            } else {
                final(self)@ =~= old(self)@.push(ErrorEntryView { text: text@, at_ms: now_ms })
            }),
    {
        let mut i: usize = 0;
        while i < self.error_messages.len()
            invariant
                i <= self@.len(),
                self@.len() == self.error_messages@.len(),
                self@ == old(self)@,
                forall|j: int| 0 <= j < i ==> (#[trigger] self@[j]).text != text@,
            decreases self@.len() - i,
        {
            if str_eq(self.error_messages[i].text.as_str(), text) {
                let ghost before = self@;
                proof {
                    assert(self@[i as int] == self.error_messages@[i as int]@);
                    assert(old(self)@[i as int].text == text@);
                }
                let e = ErrorEntry { text: text.to_owned(), at_ms: now_ms };
                let _ = self.error_messages.remove(i);
                self.error_messages.insert(i, e);
                proof {
                    assert(self@ =~= before.update(
                        i as int,
                        ErrorEntryView { text: text@, at_ms: now_ms },
                    ));
                }
                return;
            }
            proof {
                assert(self@[i as int] == self.error_messages@[i as int]@);
            }
            i = i + 1;
        }
        self.error_messages.push(ErrorEntry { text: text.to_owned(), at_ms: now_ms });
        proof {
            assert(self@ =~= old(self)@.push(ErrorEntryView { text: text@, at_ms: now_ms }));
        }
    }
}

} // verus!
