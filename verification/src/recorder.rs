//! Session recording: accepted envelopes become canonical log lines,
//! appended in receipt order and handed out batch by batch for writing;
//! loading reads a recorded log back, skipping malformed lines.

use vstd::prelude::*;
use crate::envelope::{Envelope, EnvelopeView};
use crate::record::{
    RecordedMessage, RecordedHeader, RecordView, encode_record, spec_parse_record,
    encode_record_bytes, parse_record, lemma_parse_of_encode,
};
use crate::record_filter::{RecordFilter, RecordFilterView};
use crate::text::{spec_trim, trim, str_bytes};
use vstd::string::StringExecFnsIsAscii;

verus! {

/// The record that an envelope becomes, at a given delta to the previous
/// record.
pub open spec fn record_of(e: EnvelopeView, delta_ms: u64) -> RecordView {
    RecordView {
        delta_ms,
        system_id: e.system_id,
        component_id: e.component_id,
        sequence: e.sequence,
        message_id: e.message_id,
        name: e.name,
        payload: e.payload,
    }
}

/// The delta written for an envelope arriving at `now`: zero for the first
/// record, else the time since the previous one (zero if the clock stood
/// still or stepped back).
pub open spec fn spec_delta(started: bool, last_ms: u64, now: u64) -> u64 {
    if !started {
        0
    } else if now >= last_ms {
        (now - last_ms) as u64
    } else {
        0
    }
}

/// The mathematical content of a recorder.
#[verifier::ext_equal]
pub struct RecorderView {
    pub filter: RecordFilterView,
    pub started: bool,
    pub last_ms: u64,
    pub pending: Seq<Seq<u8>>,
    pub skipped: u64,
}

/// Turns accepted envelopes into canonical log lines. Lines gather in a
/// pending batch until `flush` hands them out; the file itself lives at the
/// caller's edge. Envelopes whose text does not fit in ASCII are skipped
/// and counted, never written.
pub struct Recorder {
    filter: RecordFilter,
    started: bool,
    last_ms: u64,
    pending: Vec<Vec<u8>>,
    skipped: u64,
}

impl View for Recorder {
    type V = RecorderView;

    closed spec fn view(&self) -> RecorderView {
        RecorderView {
            filter: self.filter@,
            started: self.started,
            last_ms: self.last_ms,
            pending: self.pending@.map_values(|l: Vec<u8>| l@),
            skipped: self.skipped,
        }
    }
}

impl Recorder {
    pub closed spec fn wf(&self) -> bool {
        self.filter.wf()
    }

    pub fn new(filter: RecordFilter) -> (r: Recorder)
        requires
            filter.wf(),
        ensures
            r.wf(),
            r@.filter == filter@,
            r@.started == false,
            r@.pending =~= Seq::<Seq<u8>>::empty(),
            r@.skipped == 0,
    {
        Recorder { filter, started: false, last_ms: 0, pending: Vec::new(), skipped: 0 }
    }

    /// Records one envelope: if the filter accepts it and its text fits in
    /// ASCII, its canonical line joins the pending batch and the delta
    /// clock advances; an accepted envelope outside ASCII is counted as
    /// skipped; a filtered-out envelope leaves no trace.
    pub fn record(&mut self, env: &Envelope) -> (recorded: bool)
        requires
            old(self).wf(),
        ensures
            final(self).wf(),
            final(self)@.filter == old(self)@.filter,
            recorded == (old(self)@.filter.accepts(env@.name, env@.message_id) && env@.wf()),
            (if recorded {
                final(self)@ == RecorderView {
                    started: true,
                    last_ms: env@.received_at_ms,
                    pending: old(self)@.pending.push(
                        encode_record(
                            record_of(
                                env@,
                                spec_delta(
                                    old(self)@.started,
                                    old(self)@.last_ms,
                                    env@.received_at_ms,
                                ),
                            ),
                        ),
                    ),
                    ..old(self)@
                }
            } else if old(self)@.filter.accepts(env@.name, env@.message_id) {
                final(self)@ == RecorderView {
                    skipped: if old(self)@.skipped < u64::MAX {
                        (old(self)@.skipped + 1) as u64
                    } else {
                        old(self)@.skipped
                    },
                    ..old(self)@
                }
            } else {
                final(self)@ == old(self)@
            }),
    {
        let accepted = self.filter.matches(env.message_name.as_str(), env.message_id);
        if !accepted {
            return false;
        }
        if !env.message_name.is_ascii() || !env.message.is_ascii() {
            if self.skipped < u64::MAX {
                self.skipped = self.skipped + 1;
            }
            proof {
                assert(self@ =~= RecorderView {
                    skipped: self.skipped,
                    ..old(self)@
                });
            }
            return false;
        }
        let delta: u64 = if !self.started {
            0
        } else if env.received_at_ms >= self.last_ms {
            env.received_at_ms - self.last_ms
        } else {
            0
        };
        let rm = RecordedMessage {
            delta_ms: delta,
            header: RecordedHeader {
                system_id: env.system_id,
                component_id: env.component_id,
                sequence: env.sequence,
            },
            message_id: env.message_id,
            message_name: env.message_name.clone(),
            message: env.message.clone(),
        };
        proof {
            assert(rm@ =~= record_of(env@, delta));
        }
        let line = encode_record_bytes(&rm);
        self.pending.push(line);
        self.started = true;
        self.last_ms = env.received_at_ms;
        proof {
            assert(self@.pending =~= old(self)@.pending.push(
                encode_record(record_of(env@, delta)),
            ));
            assert(self@ =~= RecorderView {
                started: true,
                last_ms: env@.received_at_ms,
                pending: self@.pending,
                ..old(self)@
            });
        }
        true
    }

    /// Hands out the pending batch of lines, oldest first, and empties it.
    /// The caller writes and then syncs them, bounding loss to one batch.
    pub fn flush(&mut self) -> (lines: Vec<Vec<u8>>)
        requires
            old(self).wf(),
        ensures
            final(self).wf(),
            lines@.map_values(|l: Vec<u8>| l@) == old(self)@.pending,
            final(self)@ == (RecorderView { pending: Seq::<Seq<u8>>::empty(), ..old(self)@ }),
    {
        let mut out: Vec<Vec<u8>> = Vec::new();
        core::mem::swap(&mut self.pending, &mut out);
        proof {
            assert(self@.pending =~= Seq::<Seq<u8>>::empty());
            assert(self@ =~= RecorderView { pending: Seq::<Seq<u8>>::empty(), ..old(self)@ });
        }
        out
    }

    /// How many accepted envelopes could not be serialized and were
    /// skipped.
    pub fn skipped_count(&self) -> (n: u64)
        ensures
            n == self@.skipped,
    {
        self.skipped
    }
}

/// What loading a recorded log yields: the records of the lines that parse,
/// in order, and the number of malformed lines; blank lines pass silently.
pub open spec fn load_result(ls: Seq<Seq<u8>>) -> (Seq<RecordView>, nat)
    decreases ls.len(),
{
    if ls.len() == 0 {
        (Seq::empty(), 0)
    } else {
        let (rs, w) = load_result(ls.drop_last());
        let b = ls.last();
        if spec_trim(b).len() == 0 {
            (rs, w)
        } else {
            match spec_parse_record(b) {
                Some(r) => (rs.push(r), w),
                None => (rs, (w + 1) as nat),
            }
        }
    }
}

/// Loads a recorded log from its lines: every well-formed line becomes a
/// record, in file order; every malformed non-blank line is counted as a
/// warning and skipped; loading never fails.
pub fn load_records(lines: &Vec<String>) -> (r: (Vec<RecordedMessage>, usize))
    ensures
        ({
            let out = load_result(
                lines@.map_values(|l: String| vstd::utf8::encode_utf8(l@)),
            );
            r.0@.map_values(|m: RecordedMessage| m@) == out.0 && r.1 as nat == out.1
        }),
{
    let ghost bs = lines@.map_values(|l: String| vstd::utf8::encode_utf8(l@));
    let mut records: Vec<RecordedMessage> = Vec::new();
    let mut warnings: usize = 0;
    let mut i: usize = 0;
    while i < lines.len()
        invariant
            i <= lines@.len(),
            bs == lines@.map_values(|l: String| vstd::utf8::encode_utf8(l@)),
            records@.map_values(|m: RecordedMessage| m@) =~= load_result(bs.take(i as int)).0,
            warnings as nat == load_result(bs.take(i as int)).1,
            warnings <= i,
        decreases lines@.len() - i,
    {
        let b = str_bytes(lines[i].as_str());
        proof {
            assert(b@ == bs[i as int]);
            assert(bs.take(i + 1).drop_last() =~= bs.take(i as int));
            assert(bs.take(i + 1).last() == bs[i as int]);
        }
        let t = trim(b.as_slice());
        if t.len() == 0 {
            i = i + 1;
            continue;
        }
        match parse_record(b.as_slice()) {
            Some(m) => {
                records.push(m);
                proof {
                    assert(records@.map_values(|m: RecordedMessage| m@) =~= load_result(
                        bs.take(i + 1),
                    ).0);
                }
            },
            None => {
                warnings = warnings + 1;
            },
        }
        i = i + 1;
    }
    proof {
        assert(bs.take(i as int) =~= bs);
    }
    (records, warnings)
}

/// A rendered line is never blank: it opens with a brace and closes with
/// one.
proof fn lemma_encode_nonblank(r: RecordView)
    ensures
        spec_trim(encode_record(r)) == encode_record(r),
        encode_record(r).len() > 0,
{
    let s = encode_record(r);
    crate::text::lemma_dec_digits_wf((r.delta_ms / 1000) as nat);
    crate::text::lemma_dec_digits_wf(r.system_id as nat);
    crate::text::lemma_dec_digits_wf(r.component_id as nat);
    crate::text::lemma_dec_digits_wf(r.sequence as nat);
    crate::text::lemma_dec_digits_wf(r.message_id as nat);
    assert(s[0] == 123);
    assert(s.last() == 125);
    assert(!crate::text::is_space(s[0]));
    assert(!crate::text::is_space(s.last()));
}

/// Everything the recorder wrote loads back: the lines of any sequence of
/// records parse in order to exactly those records, with no warnings.
pub proof fn lemma_load_of_recorded(rs: Seq<RecordView>)
    requires
        forall|i: int| 0 <= i < rs.len() ==> (#[trigger] rs[i]).wf(),
    ensures
        load_result(rs.map_values(|r: RecordView| encode_record(r))).0 =~= rs,
        load_result(rs.map_values(|r: RecordView| encode_record(r))).1 == 0,
    decreases rs.len(),
{
    let ls = rs.map_values(|r: RecordView| encode_record(r));
    if rs.len() > 0 {
        assert(forall|i: int|
            0 <= i < rs.drop_last().len() ==> (#[trigger] rs.drop_last()[i]).wf());
        lemma_load_of_recorded(rs.drop_last());
        assert(ls.drop_last() =~= rs.drop_last().map_values(|r: RecordView| encode_record(r)));
        assert(ls.last() == encode_record(rs.last()));
        lemma_encode_nonblank(rs.last());
        lemma_parse_of_encode(rs.last());
        assert(load_result(ls).0 =~= load_result(ls.drop_last()).0.push(rs.last()));
    }
}

/// The round-trip law: with an accept-all filter every envelope is
/// recorded, and the recorded lines parse back to records that carry the
/// exact ordered sequence of (system id, component id, message name)
/// triples of the envelopes.
pub proof fn lemma_recorder_round_trip(es: Seq<EnvelopeView>, deltas: Seq<u64>)
    requires
        es.len() == deltas.len(),
        forall|i: int| 0 <= i < es.len() ==> (#[trigger] es[i]).wf(),
    ensures
        ({
            let lines = Seq::new(es.len(), |i: int| encode_record(record_of(es[i], deltas[i])));
            &&& forall|i: int|
                0 <= i < es.len() ==> #[trigger] spec_parse_record(lines[i]) == Some(
                    record_of(es[i], deltas[i]),
                )
            &&& Seq::new(es.len(), |i: int| spec_parse_record(lines[i])->Some_0.triple()) =~= Seq::new(
                es.len(),
                |i: int| es[i].triple(),
            )
        }),
{
    let lines = Seq::new(es.len(), |i: int| encode_record(record_of(es[i], deltas[i])));
    assert forall|i: int| 0 <= i < es.len() implies #[trigger] spec_parse_record(lines[i])
        == Some(record_of(es[i], deltas[i])) by {
        assert(es[i].wf());
        lemma_parse_of_encode(record_of(es[i], deltas[i]));
    }
}

} // verus!
