//! One received message: its header fields, its payload's type and
//! serialized text, and the monotonic instant it arrived, in milliseconds.

use vstd::prelude::*;
use vstd::utf8::is_ascii_chars;

verus! {

/// One received protocol message plus its header and arrival time. The
/// payload is carried as its type name, numeric type id, and serialized
/// text; the wire codec at the edge produces these.
pub struct Envelope {
    pub system_id: u8,
    pub component_id: u8,
    pub sequence: u8,
    pub message_id: u32,
    pub message_name: String,
    pub message: String,
    pub received_at_ms: u64,
}

/// The mathematical content of an envelope.
#[verifier::ext_equal]
pub struct EnvelopeView {
    pub system_id: u8,
    pub component_id: u8,
    pub sequence: u8,
    pub message_id: u32,
    pub name: Seq<char>,
    pub payload: Seq<char>,
    pub received_at_ms: u64,
}

impl EnvelopeView {
    /// Name and payload fit in ASCII: such an envelope can be recorded.
    pub open spec fn wf(self) -> bool {
        is_ascii_chars(self.name) && is_ascii_chars(self.payload)
    }

    /// The identifying triple of the envelope.
    pub open spec fn triple(self) -> (u8, u8, Seq<char>) {
        (self.system_id, self.component_id, self.name)
    }
}

impl View for Envelope {
    type V = EnvelopeView;

    open spec fn view(&self) -> EnvelopeView {
        EnvelopeView {
            system_id: self.system_id,
            component_id: self.component_id,
            sequence: self.sequence,
            message_id: self.message_id,
            name: self.message_name@,
            payload: self.message@,
            received_at_ms: self.received_at_ms,
        }
    }
}

} // verus!
