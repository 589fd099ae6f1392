//! The canonical recorded-log line: one self-describing JSON object per
//! line, carrying the inter-message delta in seconds, the envelope header,
//! and the serialized payload. This module defines the line format once,
//! as executable encoding and parsing proved inverse to each other.

use vstd::prelude::*;
use crate::text::{
    is_digit, digit_val, digit_byte, dec_digits, dec_val, all_digits, lemma_dec_digits_wf,
    lemma_dec_val_of_digits, lemma_dec_val_take_le, ascii_bytes, chars_of_bytes, bytes_of_chars,
    lemma_chars_bytes_round_trip, fmt_u64, ascii_to_string, str_bytes, is_ascii_vec,
};
use crate::codec::{esc, spec_scan_string, escape_bytes, scan_string, lemma_scan_of_escaped,
    lemma_scan_string_bounds};
use vstd::string::StringSliceAdditionalSpecFns;
use vstd::utf8::is_ascii_chars;

verus! {

/// The bytes of `{"timestamp":`.
pub open spec fn lit_open() -> Seq<u8> {
    seq![123u8, 34, 116, 105, 109, 101, 115, 116, 97, 109, 112, 34, 58]
}

/// The bytes of `,"header":{"system_id":`.
pub open spec fn lit_header() -> Seq<u8> {
    seq![44u8, 34, 104, 101, 97, 100, 101, 114, 34, 58, 123, 34, 115, 121, 115, 116, 101, 109, 95, 105, 100, 34, 58]
}

/// The bytes of `,"component_id":`.
pub open spec fn lit_component() -> Seq<u8> {
    seq![44u8, 34, 99, 111, 109, 112, 111, 110, 101, 110, 116, 95, 105, 100, 34, 58]
}

/// The bytes of `,"sequence":`.
pub open spec fn lit_sequence() -> Seq<u8> {
    seq![44u8, 34, 115, 101, 113, 117, 101, 110, 99, 101, 34, 58]
}

/// The bytes of `},"message_id":`.
pub open spec fn lit_message_id() -> Seq<u8> {
    seq![125u8, 44, 34, 109, 101, 115, 115, 97, 103, 101, 95, 105, 100, 34, 58]
}

/// The bytes of `,"message_name":"`.
pub open spec fn lit_name() -> Seq<u8> {
    seq![44u8, 34, 109, 101, 115, 115, 97, 103, 101, 95, 110, 97, 109, 101, 34, 58, 34]
}

/// The bytes of `,"message":"`.
pub open spec fn lit_payload() -> Seq<u8> {
    seq![44u8, 34, 109, 101, 115, 115, 97, 103, 101, 34, 58, 34]
}

/// The bytes of `}`.
pub open spec fn lit_close() -> Seq<u8> {
    seq![125u8]
}

pub fn lit_open_vec() -> (v: Vec<u8>)
    ensures
        v@ == lit_open(),
{
    let mut v: Vec<u8> = Vec::new();
    v.push(123);
    v.push(34);
    v.push(116);
    v.push(105);
    v.push(109);
    v.push(101);
    v.push(115);
    v.push(116);
    v.push(97);
    v.push(109);
    v.push(112);
    v.push(34);
    v.push(58);
    proof {
        assert(v@ =~= lit_open());
    }
    v
}

pub fn lit_header_vec() -> (v: Vec<u8>)
    ensures
        v@ == lit_header(),
{
    let mut v: Vec<u8> = Vec::new();
    v.push(44);
    v.push(34);
    v.push(104);
    v.push(101);
    v.push(97);
    v.push(100);
    v.push(101);
    v.push(114);
    v.push(34);
    v.push(58);
    v.push(123);
    v.push(34);
    v.push(115);
    v.push(121);
    v.push(115);
    v.push(116);
    v.push(101);
    v.push(109);
    v.push(95);
    v.push(105);
    v.push(100);
    v.push(34);
    v.push(58);
    proof {
        assert(v@ =~= lit_header());
    }
    v
}

pub fn lit_component_vec() -> (v: Vec<u8>)
    ensures
        v@ == lit_component(),
{
    let mut v: Vec<u8> = Vec::new();
    v.push(44);
    v.push(34);
    v.push(99);
    v.push(111);
    v.push(109);
    v.push(112);
    v.push(111);
    v.push(110);
    v.push(101);
    v.push(110);
    v.push(116);
    v.push(95);
    v.push(105);
    v.push(100);
    v.push(34);
    v.push(58);
    proof {
        assert(v@ =~= lit_component());
    }
    v
}

pub fn lit_sequence_vec() -> (v: Vec<u8>)
    ensures
        v@ == lit_sequence(),
{
    let mut v: Vec<u8> = Vec::new();
    v.push(44);
    v.push(34);
    v.push(115);
    v.push(101);
    v.push(113);
    v.push(117);
    v.push(101);
    v.push(110);
    v.push(99);
    v.push(101);
    v.push(34);
    v.push(58);
    proof {
        assert(v@ =~= lit_sequence());
    }
    v
}

pub fn lit_message_id_vec() -> (v: Vec<u8>)
    ensures
        v@ == lit_message_id(),
{
    let mut v: Vec<u8> = Vec::new();
    v.push(125);
    v.push(44);
    v.push(34);
    v.push(109);
    v.push(101);
    v.push(115);
    v.push(115);
    v.push(97);
    v.push(103);
    v.push(101);
    v.push(95);
    v.push(105);
    v.push(100);
    v.push(34);
    v.push(58);
    proof {
        assert(v@ =~= lit_message_id());
    }
    v
}

pub fn lit_name_vec() -> (v: Vec<u8>)
    ensures
        v@ == lit_name(),
{
    let mut v: Vec<u8> = Vec::new();
    v.push(44);
    v.push(34);
    v.push(109);
    v.push(101);
    v.push(115);
    v.push(115);
    v.push(97);
    v.push(103);
    v.push(101);
    v.push(95);
    v.push(110);
    v.push(97);
    v.push(109);
    v.push(101);
    v.push(34);
    v.push(58);
    v.push(34);
    proof {
        assert(v@ =~= lit_name());
    }
    v
}

pub fn lit_payload_vec() -> (v: Vec<u8>)
    ensures
        v@ == lit_payload(),
{
    let mut v: Vec<u8> = Vec::new();
    v.push(44);
    v.push(34);
    v.push(109);
    v.push(101);
    v.push(115);
    v.push(115);
    v.push(97);
    v.push(103);
    v.push(101);
    v.push(34);
    v.push(58);
    v.push(34);
    proof {
        assert(v@ =~= lit_payload());
    }
    v
}

pub fn lit_close_vec() -> (v: Vec<u8>)
    ensures
        v@ == lit_close(),
{
    let mut v: Vec<u8> = Vec::new();
    v.push(125);
    proof {
        assert(v@ =~= lit_close());
    }
    v
}

/// A literal matched at `i`: the next bytes are exactly `lit`.
pub open spec fn spec_expect(s: Seq<u8>, i: int, lit: Seq<u8>) -> Option<int> {
    if 0 <= i && i + lit.len() <= s.len() && s.subrange(i, i + lit.len()) == lit {
        Some(i + lit.len())
    } else {
        None
    }
}

/// Checks that `lit` stands at `i` in `s`; on success yields the index past it.
pub fn expect_at(s: &[u8], i: usize, lit: &Vec<u8>) -> (r: Option<usize>)
    ensures
        match r {
            Some(j) => spec_expect(s@, i as int, lit@) == Some(j as int),
            None => spec_expect(s@, i as int, lit@) is None,
        },
{
    if i > s.len() || s.len() - i < lit.len() {
        return None;
    }
    let mut k: usize = 0;
    while k < lit.len()
        invariant
            k <= lit@.len(),
            i + lit@.len() <= s@.len(),
            s@.len() <= usize::MAX,
            forall|j: int| 0 <= j < k ==> s@[i + j] == #[trigger] lit@[j],
        decreases lit@.len() - k,
    {
        assert(i + k < s@.len());
        if s[i + k] != lit[k] {
            proof {
                assert(s@.subrange(i as int, i + lit@.len())[k as int] == s@[i + k]);
                assert(s@.subrange(i as int, i + lit@.len()) != lit@);
            }
            return None;
        }
        k = k + 1;
    }
    proof {
        assert(s@.subrange(i as int, i + lit@.len()) =~= lit@);
    }
    Some(i + lit.len())
}

/// The first index at or after `i` that does not hold a digit.
pub open spec fn digits_end(s: Seq<u8>, i: int) -> int
    decreases s.len() - i,
{
    if i < 0 || i >= s.len() || !is_digit(s[i]) {
        i
    } else {
        digits_end(s, i + 1)
    }
}

pub proof fn lemma_digits_end_bounds(s: Seq<u8>, i: int)
    requires
        0 <= i <= s.len(),
    ensures
        i <= digits_end(s, i) <= s.len(),
    decreases s.len() - i,
{
    if i < s.len() && is_digit(s[i]) {
        lemma_digits_end_bounds(s, i + 1);
    }
}

/// Where the digit run is known, `digits_end` finds its end.
pub proof fn lemma_digits_end_at(s: Seq<u8>, i: int, e: int)
    requires
        0 <= i <= e <= s.len(),
        forall|j: int| i <= j < e ==> is_digit(#[trigger] s[j]),
        e == s.len() || !is_digit(s[e]),
    ensures
        digits_end(s, i) == e,
    decreases e - i,
{
    if i < e {
        lemma_digits_end_at(s, i + 1, e);
    }
}

/// A digit prefix pushes `digits_end` at least that far.
pub proof fn lemma_digits_end_lower(s: Seq<u8>, i: int, k: int)
    requires
        0 <= i <= k <= s.len(),
        forall|j: int| i <= j < k ==> is_digit(#[trigger] s[j]),
    ensures
        digits_end(s, i) >= k,
    decreases k - i,
{
    lemma_digits_end_bounds(s, i);
    if i < k {
        assert(is_digit(s[i]));
        lemma_digits_end_lower(s, i + 1, k);
    }
}

/// The digit run beginning at `i`, read as a number; nothing when no digit
/// stands at `i`.
pub open spec fn spec_scan_uint(s: Seq<u8>, i: int) -> Option<(nat, int)> {
    if 0 <= i <= s.len() && digits_end(s, i) > i {
        Some((dec_val(s.subrange(i, digits_end(s, i))), digits_end(s, i)))
    } else {
        None
    }
}

/// Reads the digit run at `i` as a number, rejecting values above `max`.
pub fn scan_uint(s: &[u8], i: usize, max: u64) -> (r: Option<(u64, usize)>)
    requires
        i <= s@.len(),
    ensures
        match r {
            Some(p) => spec_scan_uint(s@, i as int) == Some((p.0 as nat, p.1 as int)) && p.0
                <= max,
            None => spec_scan_uint(s@, i as int) is None || spec_scan_uint(
                s@,
                i as int,
            )->Some_0.0 > max as nat,
        },
{
    if i >= s.len() || s[i] < 48 || s[i] > 57 {
        proof {
            assert(digits_end(s@, i as int) == i);
        }
        return None;
    }
    let mut j: usize = i;
    let mut acc: u64 = 0;
    loop
        invariant
            i < s@.len(),
            is_digit(s@[i as int]),
            i <= j <= s@.len(),
            forall|k: int| i <= k < j ==> is_digit(#[trigger] s@[k]),
            acc as nat == dec_val(s@.subrange(i as int, j as int)),
            acc <= max,
        ensures
            i < j <= s@.len(),
            digits_end(s@, i as int) == j,
            acc as nat == dec_val(s@.subrange(i as int, j as int)),
            acc <= max,
        decreases s@.len() - j,
    {
        if j >= s.len() {
            proof {
                lemma_digits_end_at(s@, i as int, j as int);
            }
            break;
        }
        let b = s[j];
        if b < 48 || b > 57 {
            proof {
                lemma_digits_end_at(s@, i as int, j as int);
            }
            break;
        }
        let d: u64 = (b - 48) as u64;
        proof {
            let run = s@.subrange(i as int, j + 1);
            assert(run.drop_last() =~= s@.subrange(i as int, j as int));
            assert(run.last() == s@[j as int]);
        }
        if acc > max / 10 || (acc == max / 10 && d > max % 10) {
            proof {
                assert(acc * 10 + d > max) by (nonlinear_arith)
                    requires
                        acc > max / 10 || (acc == max / 10 && d > max % 10),
                        d <= 9,
                ;
                lemma_digits_end_lower(s@, i as int, j + 1);
                lemma_digits_end_bounds(s@, i as int);
                let e = digits_end(s@, i as int);
                let full = s@.subrange(i as int, e);
                assert(s@.subrange(i as int, j + 1) =~= full.take(j + 1 - i));
                lemma_dec_val_take_le(full, j + 1 - i);
                assert(spec_scan_uint(s@, i as int)->Some_0.0 > max as nat);
            }
            return None;
        }
        assert(acc * 10 + d <= max) by (nonlinear_arith)
            requires
                acc <= max / 10,
                d <= 9,
                acc == max / 10 ==> d <= max % 10,
        ;
        acc = acc * 10 + d;
        j = j + 1;
    }
    Some((acc, j))
}

/// Exactly three digits at `i`, read as a number below a thousand.
pub open spec fn spec_parse_frac(s: Seq<u8>, i: int) -> Option<(nat, int)> {
    if 0 <= i && i + 3 <= s.len() && is_digit(s[i]) && is_digit(s[i + 1]) && is_digit(s[i + 2]) {
        Some((digit_val(s[i]) * 100 + digit_val(s[i + 1]) * 10 + digit_val(s[i + 2]), i + 3))
    } else {
        None
    }
}

/// Reads the three-digit fraction at `i`.
pub fn parse_frac(s: &[u8], i: usize) -> (r: Option<(u64, usize)>)
    requires
        i <= s@.len(),
    ensures
        match r {
            Some(p) => spec_parse_frac(s@, i as int) == Some((p.0 as nat, p.1 as int)) && p.0
                < 1000,
            None => spec_parse_frac(s@, i as int) is None,
        },
{
    if s.len() - i < 3 {
        return None;
    }
    let b0 = s[i];
    let b1 = s[i + 1];
    let b2 = s[i + 2];
    if b0 < 48 || b0 > 57 || b1 < 48 || b1 > 57 || b2 < 48 || b2 > 57 {
        return None;
    }
    let v: u64 = (b0 - 48) as u64 * 100 + (b1 - 48) as u64 * 10 + (b2 - 48) as u64;
    Some((v, i + 3))
}

/// Three zero-padded digits of a value below a thousand.
pub open spec fn pad3(n: nat) -> Seq<u8>
    recommends
        n < 1000,
{
    seq![digit_byte(n / 100), digit_byte(n / 10 % 10), digit_byte(n % 10)]
}

/// The envelope header as it is recorded.
#[derive(Clone, Copy, Debug, PartialEq, Eq, Structural)]
pub struct RecordedHeader {
    pub system_id: u8,
    pub component_id: u8,
    pub sequence: u8,
}

/// One recorded envelope: the delta to the previous record in milliseconds,
/// the header, and the payload's type and serialized text. Name and payload
/// are ASCII; a payload outside ASCII is refused at recording time as a
/// serialization failure.
#[derive(Debug)]
pub struct RecordedMessage {
    pub delta_ms: u64,
    pub header: RecordedHeader,
    pub message_id: u32,
    pub message_name: String,
    pub message: String,
}

/// The mathematical content of one recorded envelope.
#[verifier::ext_equal]
pub struct RecordView {
    pub delta_ms: u64,
    pub system_id: u8,
    pub component_id: u8,
    pub sequence: u8,
    pub message_id: u32,
    pub name: Seq<char>,
    pub payload: Seq<char>,
}

impl RecordView {
    /// Name and payload fit in ASCII.
    pub open spec fn wf(self) -> bool {
        is_ascii_chars(self.name) && is_ascii_chars(self.payload)
    }

    /// What the round-trip law speaks of: the identifying triple.
    pub open spec fn triple(self) -> (u8, u8, Seq<char>) {
        (self.system_id, self.component_id, self.name)
    }
}

impl View for RecordedMessage {
    type V = RecordView;

    open spec fn view(&self) -> RecordView {
        RecordView {
            delta_ms: self.delta_ms,
            system_id: self.header.system_id,
            component_id: self.header.component_id,
            sequence: self.header.sequence,
            message_id: self.message_id,
            name: self.message_name@,
            payload: self.message@,
        }
    }
}

/// The canonical line for one record, newline excluded.
pub open spec fn encode_record(r: RecordView) -> Seq<u8> {
    lit_open() + dec_digits((r.delta_ms / 1000) as nat) + seq![46u8] + pad3(
        (r.delta_ms % 1000) as nat,
    ) + lit_header() + dec_digits(r.system_id as nat) + lit_component() + dec_digits(
        r.component_id as nat,
    ) + lit_sequence() + dec_digits(r.sequence as nat) + lit_message_id() + dec_digits(
        r.message_id as nat,
    ) + lit_name() + esc(bytes_of_chars(r.name)).push(34u8) + lit_payload() + esc(
        bytes_of_chars(r.payload),
    ).push(34u8) + lit_close()
}

/// What a line means: the record it denotes, if it is well-formed.
pub open spec fn spec_parse_record(s: Seq<u8>) -> Option<RecordView> {
    match spec_expect(s, 0, lit_open()) {
        None => None,
        Some(i1) => match spec_scan_uint(s, i1) {
            None => None,
            Some((secs, i2)) => if secs > u64::MAX as nat / 1000 {
                None
            } else {
                match spec_expect(s, i2, seq![46u8]) {
                    None => None,
                    Some(i3) => match spec_parse_frac(s, i3) {
                        None => None,
                        Some((frac, i4)) => if secs * 1000 + frac > u64::MAX as nat {
                            None
                        } else {
                            match spec_expect(s, i4, lit_header()) {
                                None => None,
                                Some(i5) => match spec_scan_uint(s, i5) {
                                    None => None,
                                    Some((sys, i6)) => if sys > 255 {
                                        None
                                    } else {
                                        match spec_expect(s, i6, lit_component()) {
                                            None => None,
                                            Some(i7) => match spec_scan_uint(s, i7) {
                                                None => None,
                                                Some((comp, i8)) => if comp > 255 {
                                                    None
                                                } else {
                                                    spec_parse_record_tail(s, secs, frac, sys, comp, i8)
                                                },
                                            },
                                        }
                                    },
                                },
                            }
                        },
                    },
                }
            },
        },
    }
}

/// The rest of the line after the component id: sequence, message id, name,
/// payload, closing brace.
pub open spec fn spec_parse_record_tail(
    s: Seq<u8>,
    secs: nat,
    frac: nat,
    sys: nat,
    comp: nat,
    i8: int,
) -> Option<RecordView> {
    match spec_expect(s, i8, lit_sequence()) {
        None => None,
        Some(i9) => match spec_scan_uint(s, i9) {
            None => None,
            Some((sequence, i10)) => if sequence > 255 {
                None
            } else {
                match spec_expect(s, i10, lit_message_id()) {
                    None => None,
                    Some(i11) => match spec_scan_uint(s, i11) {
                        None => None,
                        Some((mid, i12)) => if mid > u32::MAX as nat {
                            None
                        } else {
                            match spec_expect(s, i12, lit_name()) {
                                None => None,
                                Some(i13) => match spec_scan_string(s, i13) {
                                    None => None,
                                    Some((nb, i14)) => if !ascii_bytes(nb) {
                                        None
                                    } else {
                                        match spec_expect(s, i14, lit_payload()) {
                                            None => None,
                                            Some(i15) => match spec_scan_string(s, i15) {
                                                None => None,
                                                Some((pb, i16)) => if !ascii_bytes(pb) {
                                                    None
                                                } else {
                                                    match spec_expect(s, i16, lit_close()) {
                                                        None => None,
                                                        Some(i17) => if i17 == s.len() {
                                                            Some(
                                                                RecordView {
                                                                    delta_ms: (secs * 1000
                                                                        + frac) as u64,
                                                                    system_id: sys as u8,
                                                                    component_id: comp as u8,
                                                                    sequence: sequence as u8,
                                                                    message_id: mid as u32,
                                                                    name: chars_of_bytes(nb),
                                                                    payload: chars_of_bytes(pb),
                                                                },
                                                            )
                                                        } else {
                                                            None
                                                        },
                                                    }
                                                },
                                            },
                                        }
                                    },
                                },
                            }
                        },
                    },
                }
            },
        },
    }
}


impl RecordedMessage {
    /// Name and payload fit in ASCII.
    pub open spec fn wf(&self) -> bool {
        self@.wf()
    }
}

/// Renders one record as its canonical line, newline excluded.
#[verifier::rlimit(60)]
pub fn encode_record_bytes(m: &RecordedMessage) -> (line: Vec<u8>)
    requires
        m@.wf(),
    ensures
        line@ == encode_record(m@),
{
    let mut out = lit_open_vec();
    let mut t = fmt_u64(m.delta_ms / 1000);
    out.append(&mut t);
    out.push(46);
    let f = m.delta_ms % 1000;
    out.push((f / 100) as u8 + 48);
    out.push((f / 10 % 10) as u8 + 48);
    out.push((f % 10) as u8 + 48);
    let mut t = lit_header_vec();
    out.append(&mut t);
    let mut t = fmt_u64(m.header.system_id as u64);
    out.append(&mut t);
    let mut t = lit_component_vec();
    out.append(&mut t);
    let mut t = fmt_u64(m.header.component_id as u64);
    out.append(&mut t);
    let mut t = lit_sequence_vec();
    out.append(&mut t);
    let mut t = fmt_u64(m.header.sequence as u64);
    out.append(&mut t);
    let mut t = lit_message_id_vec();
    out.append(&mut t);
    let mut t = fmt_u64(m.message_id as u64);
    out.append(&mut t);
    let mut t = lit_name_vec();
    out.append(&mut t);
    let nb = str_bytes(m.message_name.as_str());
    proof {
        vstd::utf8::is_ascii_chars_encode_utf8(m.message_name@);
        assert(nb@ =~= bytes_of_chars(m.message_name@));
    }
    let mut e = escape_bytes(nb.as_slice());
    out.append(&mut e);
    out.push(34);
    let mut t = lit_payload_vec();
    out.append(&mut t);
    let pb = str_bytes(m.message.as_str());
    proof {
        vstd::utf8::is_ascii_chars_encode_utf8(m.message@);
        assert(pb@ =~= bytes_of_chars(m.message@));
    }
    let mut e = escape_bytes(pb.as_slice());
    out.append(&mut e);
    out.push(34);
    let mut t = lit_close_vec();
    out.append(&mut t);
    proof {
        assert(out@ =~= encode_record(m@));
    }
    out
}

/// Reads one canonical line back into a record; anything else is refused.
#[verifier::rlimit(60)]
pub fn parse_record(line: &[u8]) -> (r: Option<RecordedMessage>)
    ensures
        match r {
            Some(m) => spec_parse_record(line@) == Some(m@) && m@.wf(),
            None => spec_parse_record(line@) is None,
        },
{
    let lit = lit_open_vec();
    let i1 = match expect_at(line, 0, &lit) {
        Some(i) => i,
        None => {
            return None;
        },
    };
    let (secs, i2) = match scan_uint(line, i1, u64::MAX / 1000) {
        Some(p) => p,
        None => {
            return None;
        },
    };
    let mut dot: Vec<u8> = Vec::new();
    dot.push(46);
    proof {
        assert(dot@ =~= seq![46u8]);
    }
    let i3 = match expect_at(line, i2, &dot) {
        Some(i) => i,
        None => {
            return None;
        },
    };
    let (frac, i4) = match parse_frac(line, i3) {
        Some(p) => p,
        None => {
            return None;
        },
    };
    assert(secs * 1000 <= u64::MAX) by (nonlinear_arith)
        requires
            secs <= u64::MAX / 1000,
    ;
    let base = secs * 1000;
    if frac > u64::MAX - base {
        return None;
    }
    let delta_ms = base + frac;
    let lit = lit_header_vec();
    let i5 = match expect_at(line, i4, &lit) {
        Some(i) => i,
        None => {
            return None;
        },
    };
    let (sys, i6) = match scan_uint(line, i5, 255) {
        Some(p) => p,
        None => {
            return None;
        },
    };
    let lit = lit_component_vec();
    let i7 = match expect_at(line, i6, &lit) {
        Some(i) => i,
        None => {
            return None;
        },
    };
    let (comp, i8) = match scan_uint(line, i7, 255) {
        Some(p) => p,
        None => {
            return None;
        },
    };
    let lit = lit_sequence_vec();
    let i9 = match expect_at(line, i8, &lit) {
        Some(i) => i,
        None => {
            return None;
        },
    };
    let (sequence, i10) = match scan_uint(line, i9, 255) {
        Some(p) => p,
        None => {
            return None;
        },
    };
    let lit = lit_message_id_vec();
    let i11 = match expect_at(line, i10, &lit) {
        Some(i) => i,
        None => {
            return None;
        },
    };
    let (mid, i12) = match scan_uint(line, i11, 4294967295) {
        Some(p) => p,
        None => {
            return None;
        },
    };
    let lit = lit_name_vec();
    let i13 = match expect_at(line, i12, &lit) {
        Some(i) => i,
        None => {
            return None;
        },
    };
    let (nbv, i14) = match scan_string(line, i13) {
        Some(p) => p,
        None => {
            return None;
        },
    };
    proof {
        lemma_scan_string_bounds(line@, i13 as int);
    }
    if !is_ascii_vec(nbv.as_slice()) {
        return None;
    }
    let lit = lit_payload_vec();
    let i15 = match expect_at(line, i14, &lit) {
        Some(i) => i,
        None => {
            return None;
        },
    };
    let (pbv, i16) = match scan_string(line, i15) {
        Some(p) => p,
        None => {
            return None;
        },
    };
    if !is_ascii_vec(pbv.as_slice()) {
        return None;
    }
    let lit = lit_close_vec();
    let i17 = match expect_at(line, i16, &lit) {
        Some(i) => i,
        None => {
            return None;
        },
    };
    if i17 != line.len() {
        return None;
    }
    let ghost nb = nbv@;
    let ghost pb = pbv@;
    let name = ascii_to_string(nbv);
    let payload = ascii_to_string(pbv);
    proof {
        crate::text::lemma_bytes_chars_round_trip(nb);
        crate::text::lemma_bytes_chars_round_trip(pb);
    }
    Some(
        RecordedMessage {
            delta_ms,
            header: RecordedHeader { system_id: sys as u8, component_id: comp as u8, sequence: sequence as u8 },
            message_id: mid as u32,
            message_name: name,
            message: payload,
        },
    )
}


/// Splits the tail of `s` at a known chunk: the chunk stands at `i` and the
/// remainder follows it.
proof fn lemma_split_at(s: Seq<u8>, i: int, c: Seq<u8>, rest: Seq<u8>)
    requires
        0 <= i <= s.len(),
        s.subrange(i, s.len() as int) == c + rest,
    ensures
        i + c.len() <= s.len(),
        s.subrange(i, i + c.len()) =~= c,
        s.subrange(i + c.len(), s.len() as int) =~= rest,
{
    let t = s.subrange(i, s.len() as int);
    assert(t.len() == c.len() + rest.len());
    assert forall|j: int| 0 <= j < t.len() implies t[j] == s[i + j] by {}
    assert forall|j: int| 0 <= j < c.len() implies s.subrange(i, i + c.len())[j] == c[j] by {
        assert(t[j] == (c + rest)[j]);
    }
    assert forall|j: int| 0 <= j < rest.len() implies s.subrange(
        i + c.len(),
        s.len() as int,
    )[j] == rest[j] by {
        assert(t[c.len() + j] == (c + rest)[c.len() + j]);
    }
}

/// A rendered number at `i`, closed off by a non-digit, scans back to itself.
proof fn lemma_scan_uint_at(s: Seq<u8>, i: int, n: nat, next: u8)
    requires
        0 <= i,
        i + dec_digits(n).len() < s.len(),
        s.subrange(i, i + dec_digits(n).len()) == dec_digits(n),
        s[i + dec_digits(n).len()] == next,
        !is_digit(next),
    ensures
        spec_scan_uint(s, i) == Some((n, i + dec_digits(n).len())),
{
    let d = dec_digits(n);
    lemma_dec_digits_wf(n);
    assert forall|k: int| i <= k < i + d.len() implies is_digit(#[trigger] s[k]) by {
        assert(s.subrange(i, i + d.len())[k - i] == s[k]);
        assert(is_digit(d[k - i]));
    }
    lemma_digits_end_at(s, i, i + d.len());
    lemma_dec_val_of_digits(n);
    assert(s.subrange(i, digits_end(s, i)) == d);
}

/// The canonical line, reassociated for front-to-back consumption.
#[verifier::rlimit(60)]
proof fn lemma_encode_assoc(r: RecordView)
    ensures
        encode_record(r) =~= lit_open() + (dec_digits((r.delta_ms / 1000) as nat) + (seq![46u8]
            + (pad3((r.delta_ms % 1000) as nat) + (lit_header() + (dec_digits(r.system_id as nat)
            + (lit_component() + (dec_digits(r.component_id as nat) + (lit_sequence() + (
        dec_digits(r.sequence as nat) + (lit_message_id() + (dec_digits(r.message_id as nat) + (
        lit_name() + (esc(bytes_of_chars(r.name)).push(34u8) + (lit_payload() + (esc(
            bytes_of_chars(r.payload),
        ).push(34u8) + lit_close()))))))))))))))),
{
}

/// The round-trip law for the back half of a line, from the sequence field
/// on: parsing what was rendered gives back the rendered record.
#[verifier::rlimit(60)]
proof fn lemma_parse_tail_of_encode(s: Seq<u8>, r: RecordView, secs: nat, frac: nat, i: int)
    requires
        r.wf(),
        0 <= i <= s.len(),
        s.subrange(i, s.len() as int) == lit_sequence() + (dec_digits(r.sequence as nat) + (
        lit_message_id() + (dec_digits(r.message_id as nat) + (lit_name() + (esc(
            bytes_of_chars(r.name),
        ).push(34u8) + (lit_payload() + (esc(bytes_of_chars(r.payload)).push(34u8)
            + lit_close()))))))),
        secs * 1000 + frac == r.delta_ms as nat,
    ensures
        spec_parse_record_tail(s, secs, frac, r.system_id as nat, r.component_id as nat, i)
            == Some(r),
{
    let nb = bytes_of_chars(r.name);
    let pb = bytes_of_chars(r.payload);
    lemma_chars_bytes_round_trip(r.name);
    lemma_chars_bytes_round_trip(r.payload);
    let c9 = lit_sequence();
    let c10 = dec_digits(r.sequence as nat);
    let c11 = lit_message_id();
    let c12 = dec_digits(r.message_id as nat);
    let c13 = lit_name();
    let c14 = esc(nb).push(34u8);
    let c15 = lit_payload();
    let c16 = esc(pb).push(34u8);
    let c17 = lit_close();
    let r17 = c17;
    let r16 = c16 + r17;
    let r15 = c15 + r16;
    let r14 = c14 + r15;
    let r13 = c13 + r14;
    let r12 = c12 + r13;
    let r11 = c11 + r12;
    let r10 = c10 + r11;
    lemma_split_at(s, i, c9, r10);
    let o9 = i + c9.len();
    lemma_split_at(s, o9, c10, r11);
    let o10 = o9 + c10.len();
    lemma_split_at(s, o10, c11, r12);
    let o11 = o10 + c11.len();
    lemma_split_at(s, o11, c12, r13);
    let o12 = o11 + c12.len();
    lemma_split_at(s, o12, c13, r14);
    let o13 = o12 + c13.len();
    lemma_split_at(s, o13, c14, r15);
    let o14 = o13 + c14.len();
    lemma_split_at(s, o14, c15, r16);
    let o15 = o14 + c15.len();
    lemma_split_at(s, o15, c16, r17);
    let o16 = o15 + c16.len();
    assert(s.subrange(o16, s.len() as int) =~= c17 + Seq::<u8>::empty());
    lemma_split_at(s, o16, c17, Seq::<u8>::empty());
    let o17 = o16 + c17.len();
    assert(o17 == s.len());
    assert(spec_expect(s, i, c9) == Some(o9));
    assert(s[o10 + 0] == c11[0]);
    lemma_scan_uint_at(s, o9, r.sequence as nat, 125);
    assert(spec_expect(s, o10, c11) == Some(o11));
    assert(s[o12 + 0] == c13[0]);
    lemma_scan_uint_at(s, o11, r.message_id as nat, 44);
    assert(spec_expect(s, o12, c13) == Some(o13));
    lemma_scan_of_escaped(s, o13, nb);
    assert(spec_scan_string(s, o13) == Some((nb, o14)));
    assert(spec_expect(s, o14, c15) == Some(o15));
    lemma_scan_of_escaped(s, o15, pb);
    assert(spec_scan_string(s, o15) == Some((pb, o16)));
    assert(spec_expect(s, o16, c17) == Some(o17));
    let parsed = spec_parse_record_tail(s, secs, frac, r.system_id as nat, r.component_id as nat, i);
    assert(parsed is Some);
    assert(parsed->Some_0 =~= r);
}

/// Offsets of the fields inside the canonical line for `r`.
pub open spec fn off1(r: RecordView) -> int {
    lit_open().len() as int
}

pub open spec fn off2(r: RecordView) -> int {
    off1(r) + dec_digits((r.delta_ms / 1000) as nat).len()
}

pub open spec fn off3(r: RecordView) -> int {
    off2(r) + 1
}

pub open spec fn off4(r: RecordView) -> int {
    off3(r) + 3
}

pub open spec fn off5(r: RecordView) -> int {
    off4(r) + lit_header().len()
}

pub open spec fn off6(r: RecordView) -> int {
    off5(r) + dec_digits(r.system_id as nat).len()
}

pub open spec fn off7(r: RecordView) -> int {
    off6(r) + lit_component().len()
}

pub open spec fn off8(r: RecordView) -> int {
    off7(r) + dec_digits(r.component_id as nat).len()
}

/// Where each front field stands in the canonical line.
#[verifier::rlimit(60)]
proof fn lemma_front_splits(r: RecordView)
    ensures
        off8(r) + (encode_record(r).len() - off8(r)) == encode_record(r).len(),
        0 <= off8(r) <= encode_record(r).len(),
        encode_record(r).subrange(0, off1(r)) == lit_open(),
        encode_record(r).subrange(off1(r), off2(r)) == dec_digits((r.delta_ms / 1000) as nat),
        encode_record(r).subrange(off2(r), off3(r)) == seq![46u8],
        encode_record(r).subrange(off3(r), off4(r)) == pad3((r.delta_ms % 1000) as nat),
        encode_record(r).subrange(off4(r), off5(r)) == lit_header(),
        encode_record(r).subrange(off5(r), off6(r)) == dec_digits(r.system_id as nat),
        encode_record(r).subrange(off6(r), off7(r)) == lit_component(),
        encode_record(r).subrange(off7(r), off8(r)) == dec_digits(r.component_id as nat),
        encode_record(r).subrange(off8(r), encode_record(r).len() as int) == lit_sequence() + (
        dec_digits(r.sequence as nat) + (lit_message_id() + (dec_digits(r.message_id as nat) + (
        lit_name() + (esc(bytes_of_chars(r.name)).push(34u8) + (lit_payload() + (esc(
            bytes_of_chars(r.payload),
        ).push(34u8) + lit_close()))))))),
{
    let secs = (r.delta_ms / 1000) as nat;
    let frac = (r.delta_ms % 1000) as nat;
    let nb = bytes_of_chars(r.name);
    let pb = bytes_of_chars(r.payload);
    let c1 = lit_open();
    let c2 = dec_digits(secs);
    let c3 = seq![46u8];
    let c4 = pad3(frac);
    let c5 = lit_header();
    let c6 = dec_digits(r.system_id as nat);
    let c7 = lit_component();
    let c8 = dec_digits(r.component_id as nat);
    let tail = lit_sequence() + (dec_digits(r.sequence as nat) + (lit_message_id() + (dec_digits(
        r.message_id as nat,
    ) + (lit_name() + (esc(nb).push(34u8) + (lit_payload() + (esc(pb).push(34u8)
        + lit_close())))))));
    let s = encode_record(r);
    let r8 = c8 + tail;
    let r7 = c7 + r8;
    let r6 = c6 + r7;
    let r5 = c5 + r6;
    let r4 = c4 + r5;
    let r3 = c3 + r4;
    let r2 = c2 + r3;
    lemma_encode_assoc(r);
    assert(s.subrange(0, s.len() as int) =~= c1 + r2);
    lemma_split_at(s, 0, c1, r2);
    lemma_split_at(s, off1(r), c2, r3);
    lemma_split_at(s, off2(r), c3, r4);
    lemma_split_at(s, off3(r), c4, r5);
    lemma_split_at(s, off4(r), c5, r6);
    lemma_split_at(s, off5(r), c6, r7);
    lemma_split_at(s, off6(r), c7, r8);
    lemma_split_at(s, off7(r), c8, tail);
}

/// What the front of the canonical line parses to, field by field.
#[verifier::rlimit(60)]
proof fn lemma_front_parts(r: RecordView)
    requires
        r.wf(),
    ensures
        spec_expect(encode_record(r), 0, lit_open()) == Some(off1(r)),
        spec_scan_uint(encode_record(r), off1(r)) == Some(
            ((r.delta_ms / 1000) as nat, off2(r)),
        ),
        spec_expect(encode_record(r), off2(r), seq![46u8]) == Some(off3(r)),
        spec_parse_frac(encode_record(r), off3(r)) == Some(
            ((r.delta_ms % 1000) as nat, off4(r)),
        ),
        spec_expect(encode_record(r), off4(r), lit_header()) == Some(off5(r)),
        spec_scan_uint(encode_record(r), off5(r)) == Some((r.system_id as nat, off6(r))),
        spec_expect(encode_record(r), off6(r), lit_component()) == Some(off7(r)),
        spec_scan_uint(encode_record(r), off7(r)) == Some((r.component_id as nat, off8(r))),
        0 <= off8(r) <= encode_record(r).len(),
        encode_record(r).subrange(off8(r), encode_record(r).len() as int) == lit_sequence() + (
        dec_digits(r.sequence as nat) + (lit_message_id() + (dec_digits(r.message_id as nat) + (
        lit_name() + (esc(bytes_of_chars(r.name)).push(34u8) + (lit_payload() + (esc(
            bytes_of_chars(r.payload),
        ).push(34u8) + lit_close()))))))),
{
    let secs = (r.delta_ms / 1000) as nat;
    let frac = (r.delta_ms % 1000) as nat;
    let s = encode_record(r);
    lemma_front_splits(r);
    assert(spec_expect(s, 0, lit_open()) == Some(off1(r)));
    assert(s[off2(r) + 0] == seq![46u8][0]) by {
        assert(s.subrange(off2(r), off3(r))[0] == s[off2(r) + 0]);
    }
    lemma_scan_uint_at(s, off1(r), secs, 46);
    assert(spec_expect(s, off2(r), seq![46u8]) == Some(off3(r)));
    let c4 = pad3(frac);
    assert(s[off3(r) + 0] == c4[0] && s[off3(r) + 1] == c4[1] && s[off3(r) + 2] == c4[2]) by {
        assert(s.subrange(off3(r), off4(r))[0] == s[off3(r) + 0]);
        assert(s.subrange(off3(r), off4(r))[1] == s[off3(r) + 1]);
        assert(s.subrange(off3(r), off4(r))[2] == s[off3(r) + 2]);
    }
    assert(frac < 1000);
    assert(digit_val(digit_byte(frac / 100)) == frac / 100);
    assert(digit_val(digit_byte(frac / 10 % 10)) == frac / 10 % 10);
    assert(digit_val(digit_byte(frac % 10)) == frac % 10);
    assert(frac / 100 * 100 + frac / 10 % 10 * 10 + frac % 10 == frac) by (nonlinear_arith)
        requires
            frac < 1000,
    ;
    assert(spec_parse_frac(s, off3(r)) == Some((frac, off4(r))));
    assert(spec_expect(s, off4(r), lit_header()) == Some(off5(r)));
    assert(s[off6(r) + 0] == lit_component()[0]) by {
        assert(s.subrange(off6(r), off7(r))[0] == s[off6(r) + 0]);
    }
    lemma_scan_uint_at(s, off5(r), r.system_id as nat, 44);
    assert(spec_expect(s, off6(r), lit_component()) == Some(off7(r)));
    let ghost tail = s.subrange(off8(r), s.len() as int);
    assert(s[off8(r) + 0] == lit_sequence()[0]) by {
        assert(s.subrange(off8(r), s.len() as int)[0] == s[off8(r) + 0]);
    }
    lemma_scan_uint_at(s, off7(r), r.component_id as nat, 44);
}

/// The round-trip law for one record: parsing a rendered line gives back
/// exactly the record that was rendered.
#[verifier::rlimit(60)]
pub proof fn lemma_parse_of_encode(r: RecordView)
    requires
        r.wf(),
    ensures
        spec_parse_record(encode_record(r)) == Some(r),
{
    let secs = (r.delta_ms / 1000) as nat;
    let frac = (r.delta_ms % 1000) as nat;
    let s = encode_record(r);
    lemma_front_parts(r);
    assert(secs <= u64::MAX as nat / 1000) by (nonlinear_arith)
        requires
            secs == r.delta_ms as nat / 1000,
            r.delta_ms <= u64::MAX,
    ;
    assert(secs * 1000 + frac == r.delta_ms);
    lemma_parse_tail_of_encode(s, r, secs, frac, off8(r));
    assert(spec_parse_record(s) == spec_parse_record_tail(
        s,
        secs,
        frac,
        r.system_id as nat,
        r.component_id as nat,
        off8(r),
    ));
}

} // verus!
