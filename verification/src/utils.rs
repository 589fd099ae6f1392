//! Input validation for the control surface: numeric ids, output file
//! names, and connection addresses, each checked against an exact grammar.

use vstd::prelude::*;
use crate::text::{
    is_digit, digit_val, all_digits, dec_val, spec_is_uint_text, parse_uint_text, str_bytes,
    bytes_eq,
};
use vstd::string::StringSliceAdditionalSpecFns;

verus! {

/// Which input line of the control screen is active.
#[derive(PartialEq, Eq, Structural, Clone, Copy, Debug)]
pub enum InputField {
    Address,
    File,
    HeartbeatId,
    SystemId,
    ComponentId,
}

/// Whether the text reads as an id in a byte's range.
pub fn validate_u8_input(input: &str) -> (r: bool)
    ensures
        r == spec_is_uint_text(input.spec_bytes(), 255),
{
    let b = str_bytes(input);
    match parse_uint_text(b.as_slice(), 255) {
        Some(_) => true,
        None => false,
    }
}

/// A byte allowed in an output file name.
pub open spec fn valid_file_byte(b: u8) -> bool {
    is_digit(b) || (65 <= b <= 90) || (97 <= b <= 122) || b == 95 || b == 46 || b == 47
}

/// A plain-text output path: ASCII letters, digits, underscores, dots and
/// slashes, ending in `.txt`.
pub open spec fn spec_valid_file(s: Seq<u8>) -> bool {
    s.len() >= 4 && s.subrange(s.len() - 4, s.len() as int) == seq![46u8, 116u8, 120u8, 116u8]
        && (forall|i: int| 0 <= i < s.len() ==> valid_file_byte(#[trigger] s[i]))
}

/// Whether the text is an acceptable output file name.
pub fn validate_file_input(input: &str) -> (r: bool)
    ensures
        r == spec_valid_file(input.spec_bytes()),
{
    let b = str_bytes(input);
    if b.len() < 4 {
        return false;
    }
    let n = b.len();
    if !(b[n - 4] == 46 && b[n - 3] == 116 && b[n - 2] == 120 && b[n - 1] == 116) {
        proof {
            let tail = input.spec_bytes().subrange(n - 4, n as int);
            assert(tail[0] == b@[n - 4] && tail[1] == b@[n - 3] && tail[2] == b@[n - 2]
                && tail[3] == b@[n - 1]);
        }
        return false;
    }
    let mut i: usize = 0;
    while i < b.len()
        invariant
            i <= b@.len(),
            b@ == input.spec_bytes(),
            forall|j: int| 0 <= j < i ==> valid_file_byte(#[trigger] b@[j]),
        decreases b@.len() - i,
    {
        let c = b[i];
        if !(48 <= c && c <= 57 || 65 <= c && c <= 90 || 97 <= c && c <= 122 || c == 95 || c == 46
            || c == 47) {
            proof {
                assert(!valid_file_byte(input.spec_bytes()[i as int]));
            }
            return false;
        }
        i = i + 1;
    }
    proof {
        assert(input.spec_bytes().subrange(n - 4, n as int) =~= seq![46u8, 116u8, 120u8, 116u8]);
    }
    true
}

/// Whether the text is an acceptable output file name.
pub fn validate_output_file_input(input: &str) -> (r: bool)
    ensures
        r == spec_valid_file(input.spec_bytes()),
{
    validate_file_input(input)
}

/// Index of the first `sep`, or the length when there is none.
pub open spec fn sep_pos(s: Seq<u8>, sep: u8) -> int
    decreases s.len(),
{
    if s.len() == 0 {
        0
    } else if s[0] == sep {
        0
    } else {
        1 + sep_pos(s.skip(1), sep)
    }
}

/// Where the separator run is known, `sep_pos` finds the first one.
pub proof fn lemma_sep_pos_at(s: Seq<u8>, sep: u8, e: int)
    requires
        0 <= e <= s.len(),
        forall|j: int| 0 <= j < e ==> s[j] != sep,
        e == s.len() || s[e] == sep,
    ensures
        sep_pos(s, sep) == e,
    decreases e,
{
    if e > 0 {
        assert(forall|j: int| 0 <= j < e - 1 ==> s.skip(1)[j] == s[j + 1]);
        if e < s.len() {
            assert(s.skip(1)[e - 1] == s[e]);
        }
        lemma_sep_pos_at(s.skip(1), sep, e - 1);
    }
}

/// The pieces of the text between separators.
pub open spec fn spec_split(s: Seq<u8>, sep: u8) -> Seq<Seq<u8>>
    decreases s.len(),
{
    let p = sep_pos(s, sep);
    if 0 <= p && p < s.len() {
        seq![s.take(p)] + spec_split(s.skip(p + 1), sep)
    } else {
        seq![s]
    }
}

/// Splits the text at every separator.
pub fn split_bytes(v: &[u8], sep: u8) -> (parts: Vec<Vec<u8>>)
    ensures
        parts@.map_values(|p: Vec<u8>| p@) == spec_split(v@, sep),
{
    let n = v.len();
    let ghost whole = v@;
    let mut parts: Vec<Vec<u8>> = Vec::new();
    let mut start: usize = 0;
    let ghost mut remaining = whole;
    proof {
        assert(remaining =~= whole.skip(0));
    }
    loop
        invariant_except_break
            parts@.map_values(|p: Vec<u8>| p@) + spec_split(remaining, sep) =~= spec_split(
                whole,
                sep,
            ),
        invariant
            v@ == whole,
            n == whole.len(),
            start <= whole.len(),
            remaining == whole.skip(start as int),
        ensures
            parts@.map_values(|p: Vec<u8>| p@) =~= spec_split(whole, sep),
        decreases whole.len() - start,
    {
        let mut end: usize = start;
        while end < n && v[end] != sep
            invariant
                v@ == whole,
                n == whole.len(),
                start <= end <= whole.len(),
                forall|j: int| start <= j < end ==> whole[j] != sep,
            decreases whole.len() - end,
        {
            end = end + 1;
        }
        let ghost p = end - start;
        proof {
            assert(forall|j: int| 0 <= j < p ==> remaining[j] == whole[start + j]);
            if end < whole.len() {
                assert(remaining[p] == whole[end as int]);
            }
            lemma_sep_pos_at(remaining, sep, p);
        }
        let ghost tok = remaining.take(p);
        let ghost toks = spec_split(remaining, sep);
        let mut piece: Vec<u8> = Vec::new();
        let mut j: usize = start;
        while j < end
            invariant
                v@ == whole,
                start <= j <= end <= whole.len(),
                piece@ =~= whole.subrange(start as int, j as int),
            decreases end - j,
        {
            piece.push(v[j]);
            j = j + 1;
        }
        proof {
            assert(piece@ =~= tok);
            if end < whole.len() {
                assert(toks == seq![tok] + spec_split(remaining.skip(p + 1), sep));
            } else {
                assert(remaining.take(p) =~= remaining);
                assert(toks == seq![tok]);
            }
        }
        let ghost parts_before = parts@.map_values(|x: Vec<u8>| x@);
        parts.push(piece);
        proof {
            assert(parts@.map_values(|x: Vec<u8>| x@) =~= parts_before.push(tok));
        }
        if end >= n {
            proof {
                assert(parts_before.push(tok) + Seq::<Seq<u8>>::empty() =~= parts_before.push(
                    tok,
                ));
                assert(parts_before + (seq![tok] + Seq::<Seq<u8>>::empty()) =~= parts_before.push(
                    tok,
                ));
            }
            break;
        }
        start = end + 1;
        proof {
            assert(remaining.skip(p + 1) =~= whole.skip(start as int));
            remaining = whole.skip(start as int);
            assert(parts_before + (seq![tok] + spec_split(remaining, sep)) =~= parts@.map_values(
                |x: Vec<u8>| x@,
            ) + spec_split(remaining, sep));
        }
    }
    parts
}

/// One dotted-quad octet: one to three digits, no leading zero, at most
/// 255.
pub open spec fn spec_is_octet(s: Seq<u8>) -> bool {
    1 <= s.len() <= 3 && all_digits(s) && dec_val(s) <= 255 && (s.len() > 1 ==> s[0] != 48)
}

/// Whether the text is one dotted-quad octet.
pub fn is_octet(v: &[u8]) -> (r: bool)
    ensures
        r == spec_is_octet(v@),
{
    if v.len() < 1 || v.len() > 3 {
        return false;
    }
    let mut i: usize = 0;
    while i < v.len()
        invariant
            i <= v@.len(),
            forall|j: int| 0 <= j < i ==> is_digit(#[trigger] v@[j]),
        decreases v@.len() - i,
    {
        if v[i] < 48 || v[i] > 57 {
            return false;
        }
        i = i + 1;
    }
    if v.len() > 1 && v[0] == 48 {
        return false;
    }
    let value: u64 = if v.len() == 1 {
        (v[0] - 48) as u64
    } else if v.len() == 2 {
        (v[0] - 48) as u64 * 10 + (v[1] - 48) as u64
    } else {
        (v[0] - 48) as u64 * 100 + (v[1] - 48) as u64 * 10 + (v[2] - 48) as u64
    };
    proof {
        if v@.len() == 1 {
            assert(v@.drop_last() =~= Seq::<u8>::empty());
            assert(dec_val(v@.drop_last()) == 0);
            assert(v@.last() == v@[0]);
            assert(dec_val(v@) == digit_val(v@[0]));
        } else if v@.len() == 2 {
            assert(v@.drop_last().drop_last() =~= Seq::<u8>::empty());
            assert(dec_val(v@.drop_last().drop_last()) == 0);
            assert(v@.drop_last().last() == v@[0]);
            assert(dec_val(v@.drop_last()) == digit_val(v@[0]));
            assert(v@.last() == v@[1]);
            assert(dec_val(v@) == digit_val(v@[0]) * 10 + digit_val(v@[1]));
        } else {
            assert(v@.drop_last().drop_last().drop_last() =~= Seq::<u8>::empty());
            assert(dec_val(v@.drop_last().drop_last().drop_last()) == 0);
            assert(v@.drop_last().drop_last().last() == v@[0]);
            assert(dec_val(v@.drop_last().drop_last()) == digit_val(v@[0]));
            assert(v@.drop_last().last() == v@[1]);
            assert(dec_val(v@.drop_last()) == digit_val(v@[0]) * 10 + digit_val(v@[1]));
            assert(v@.last() == v@[2]);
            assert(dec_val(v@) == (digit_val(v@[0]) * 10 + digit_val(v@[1])) * 10 + digit_val(
                v@[2],
            ));
        }
    }
    value <= 255
}

/// A dotted-quad address: four octets joined by dots.
pub open spec fn spec_is_ipv4(s: Seq<u8>) -> bool {
    spec_split(s, 46).len() == 4 && (forall|i: int|
        0 <= i < 4 ==> spec_is_octet(#[trigger] spec_split(s, 46)[i]))
}

/// Whether the text is a dotted-quad address.
pub fn is_ipv4_text(v: &[u8]) -> (r: bool)
    ensures
        r == spec_is_ipv4(v@),
{
    let parts = split_bytes(v, 46);
    if parts.len() != 4 {
        return false;
    }
    let mut i: usize = 0;
    while i < parts.len()
        invariant
            i <= parts@.len(),
            parts@.len() == 4,
            parts@.map_values(|p: Vec<u8>| p@) == spec_split(v@, 46),
            forall|j: int| 0 <= j < i ==> spec_is_octet(#[trigger] spec_split(v@, 46)[j]),
        decreases parts@.len() - i,
    {
        if !is_octet(parts[i].as_slice()) {
            proof {
                assert(spec_split(v@, 46)[i as int] == parts@[i as int]@);
            }
            return false;
        }
        proof {
            assert(spec_split(v@, 46)[i as int] == parts@[i as int]@);
        }
        i = i + 1;
    }
    true
}

/// A connection address: a scheme, a dotted-quad host, and a port, joined
/// by colons. The accepted schemes are the datagram and stream families,
/// listening or connecting.
pub open spec fn spec_valid_address(s: Seq<u8>) -> bool {
    let ps = spec_split(s, 58);
    &&& ps.len() == 3
    &&& (ps[0] == seq![117u8, 100u8, 112u8, 105u8, 110u8] || ps[0] == seq![
        117u8,
        100u8,
        112u8,
        111u8,
        117u8,
        116u8,
    ] || ps[0] == seq![116u8, 99u8, 112u8, 105u8, 110u8] || ps[0] == seq![
        116u8,
        99u8,
        112u8,
        111u8,
        117u8,
        116u8,
    ])
    &&& spec_is_ipv4(ps[1])
    &&& spec_is_uint_text(ps[2], 65535)
}

/// Whether the text is an acceptable connection address.
pub fn validate_connection_address_input(input: &str) -> (r: bool)
    ensures
        r == spec_valid_address(input.spec_bytes()),
{
    let b = str_bytes(input);
    let parts = split_bytes(b.as_slice(), 58);
    if parts.len() != 3 {
        return false;
    }
    proof {
        assert(spec_split(input.spec_bytes(), 58)[0] == parts@[0]@);
        assert(spec_split(input.spec_bytes(), 58)[1] == parts@[1]@);
        assert(spec_split(input.spec_bytes(), 58)[2] == parts@[2]@);
    }
    let mut udpin: Vec<u8> = Vec::new();
    udpin.push(117);
    udpin.push(100);
    udpin.push(112);
    udpin.push(105);
    udpin.push(110);
    let mut udpout: Vec<u8> = Vec::new();
    udpout.push(117);
    udpout.push(100);
    udpout.push(112);
    udpout.push(111);
    udpout.push(117);
    udpout.push(116);
    let mut tcpin: Vec<u8> = Vec::new();
    tcpin.push(116);
    tcpin.push(99);
    tcpin.push(112);
    tcpin.push(105);
    tcpin.push(110);
    let mut tcpout: Vec<u8> = Vec::new();
    tcpout.push(116);
    tcpout.push(99);
    tcpout.push(112);
    tcpout.push(111);
    tcpout.push(117);
    tcpout.push(116);
    proof {
        assert(udpin@ =~= seq![117u8, 100u8, 112u8, 105u8, 110u8]);
        assert(udpout@ =~= seq![117u8, 100u8, 112u8, 111u8, 117u8, 116u8]);
        assert(tcpin@ =~= seq![116u8, 99u8, 112u8, 105u8, 110u8]);
        assert(tcpout@ =~= seq![116u8, 99u8, 112u8, 111u8, 117u8, 116u8]);
    }
    let proto = parts[0].as_slice();
    if !(bytes_eq(proto, udpin.as_slice()) || bytes_eq(proto, udpout.as_slice()) || bytes_eq(
        proto,
        tcpin.as_slice(),
    ) || bytes_eq(proto, tcpout.as_slice())) {
        return false;
    }
    if !is_ipv4_text(parts[1].as_slice()) {
        return false;
    }
    match parse_uint_text(parts[2].as_slice(), 65535) {
        Some(_) => true,
        None => false,
    }
}

} // verus!
