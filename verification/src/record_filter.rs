//! The secondary filter applied only at recording time: a comma-separated
//! spec of message names and numeric message ids; an absent or empty spec
//! accepts everything.

use vstd::prelude::*;
use crate::text::{
    spec_trim, spec_upper, spec_is_uint_text, uint_digits, dec_val, ascii_bytes, bytes_of_chars,
    chars_of_bytes, trim, to_upper, parse_uint_text, ascii_to_string, str_bytes, is_ascii_vec,
    lemma_bytes_chars_round_trip, bytes_eq,
};
use vstd::string::StringSliceAdditionalSpecFns;

verus! {

/// Index of the first comma, or the length when there is none.
pub open spec fn comma_pos(s: Seq<u8>) -> int
    decreases s.len(),
{
    if s.len() == 0 {
        0
    } else if s[0] == 44 {
        0
    } else {
        1 + comma_pos(s.skip(1))
    }
}

pub proof fn lemma_comma_pos_bounds(s: Seq<u8>)
    ensures
        0 <= comma_pos(s) <= s.len(),
        comma_pos(s) < s.len() ==> s[comma_pos(s)] == 44,
        forall|j: int| 0 <= j < comma_pos(s) ==> s[j] != 44,
    decreases s.len(),
{
    if s.len() > 0 && s[0] != 44 {
        lemma_comma_pos_bounds(s.skip(1));
        assert(forall|j: int| 0 <= j < comma_pos(s.skip(1)) ==> s.skip(1)[j] != 44);
        assert(forall|j: int| 1 <= j < comma_pos(s) ==> s[j] == s.skip(1)[j - 1]);
    }
}

/// Where the comma run is known, `comma_pos` finds the first one.
pub proof fn lemma_comma_pos_at(s: Seq<u8>, e: int)
    requires
        0 <= e <= s.len(),
        forall|j: int| 0 <= j < e ==> s[j] != 44,
        e == s.len() || s[e] == 44,
    ensures
        comma_pos(s) == e,
    decreases e,
{
    if e > 0 {
        assert(forall|j: int| 0 <= j < e - 1 ==> s.skip(1)[j] == s[j + 1]);
        if e < s.len() {
            assert(s.skip(1)[e - 1] == s[e]);
        }
        lemma_comma_pos_at(s.skip(1), e - 1);
    }
}

/// The comma-separated pieces of the spec text.
pub open spec fn spec_tokens(s: Seq<u8>) -> Seq<Seq<u8>>
    decreases s.len(),
{
    let p = comma_pos(s);
    if 0 <= p && p < s.len() {
        seq![s.take(p)] + spec_tokens(s.skip(p + 1))
    } else {
        seq![s]
    }
}

/// A token names a numeric message id.
pub open spec fn token_is_id(t: Seq<u8>) -> bool {
    spec_is_uint_text(spec_trim(t), u32::MAX as nat)
}

pub open spec fn id_of_token(t: Seq<u8>) -> nat {
    dec_val(uint_digits(spec_trim(t)))
}

/// A token names a message by name: non-empty after trimming, not a number,
/// and ASCII.
pub open spec fn token_is_name(t: Seq<u8>) -> bool {
    spec_trim(t).len() > 0 && !token_is_id(t) && ascii_bytes(spec_trim(t))
}

pub open spec fn name_of_token(t: Seq<u8>) -> Seq<u8> {
    spec_upper(spec_trim(t))
}

/// The ids named by the tokens, in order.
pub open spec fn ids_of(ts: Seq<Seq<u8>>) -> Seq<u32>
    decreases ts.len(),
{
    if ts.len() == 0 {
        Seq::empty()
    } else {
        let rest = ids_of(ts.drop_first());
        if spec_trim(ts[0]).len() > 0 && token_is_id(ts[0]) {
            seq![id_of_token(ts[0]) as u32] + rest
        } else {
            rest
        }
    }
}

/// The upper-cased names named by the tokens, in order.
pub open spec fn names_of(ts: Seq<Seq<u8>>) -> Seq<Seq<u8>>
    decreases ts.len(),
{
    if ts.len() == 0 {
        Seq::empty()
    } else {
        let rest = names_of(ts.drop_first());
        if token_is_name(ts[0]) {
            seq![name_of_token(ts[0])] + rest
        } else {
            rest
        }
    }
}

/// The mathematical content of a record filter.
#[verifier::ext_equal]
pub struct RecordFilterView {
    pub accept_all: bool,
    pub ids: Seq<u32>,
    pub names: Seq<Seq<u8>>,
}

impl RecordFilterView {
    /// What the filter accepts, of a message with the given name and id.
    pub open spec fn accepts(self, name: Seq<char>, id: u32) -> bool {
        self.accept_all || self.ids.contains(id) || self.names.contains(
            spec_upper(vstd::utf8::encode_utf8(name)),
        )
    }
}

/// What a spec text denotes: accept-all when absent or empty, otherwise the
/// listed ids and upper-cased names.
pub open spec fn spec_filter_of(s: Option<Seq<u8>>) -> RecordFilterView {
    match s {
        Option::None => RecordFilterView {
            accept_all: true,
            ids: Seq::empty(),
            names: Seq::empty(),
        },
        Option::Some(b) => if b.len() == 0 {
            RecordFilterView { accept_all: true, ids: Seq::empty(), names: Seq::empty() }
        } else {
            RecordFilterView {
                accept_all: false,
                ids: ids_of(spec_tokens(b)),
                names: names_of(spec_tokens(b)),
            }
        },
    }
}

/// The recording-time filter: message names and numeric message-type ids.
pub struct RecordFilter {
    names: Vec<String>,
    ids: Vec<u32>,
    accept_all: bool,
}

impl View for RecordFilter {
    type V = RecordFilterView;

    closed spec fn view(&self) -> RecordFilterView {
        RecordFilterView {
            accept_all: self.accept_all,
            ids: self.ids@,
            names: self.names@.map_values(|n: String| bytes_of_chars(n@)),
        }
    }
}

impl RecordFilter {
    /// Every stored name is ASCII; constructors establish this and
    /// `matches` relies on it.
    pub closed spec fn wf(&self) -> bool {
        forall|k: int|
            0 <= k < self.names@.len() ==> vstd::utf8::is_ascii_chars(#[trigger] self.names@[k]@)
    }

    /// Builds the filter from its comma-separated text: each trimmed token
    /// is a numeric message id or an upper-cased message name; empty tokens
    /// and tokens outside ASCII are dropped; no text at all accepts
    /// everything.
    pub fn new(spec: Option<&str>) -> (f: RecordFilter)
        ensures
            f.wf(),
            f@ == spec_filter_of(
                match spec {
                    Option::None => Option::None,
                    Option::Some(s) => Option::Some(s.spec_bytes()),
                },
            ),
    {
        let s: &str = match spec {
            Some(s) => s,
            None => {
                let f = RecordFilter { names: Vec::new(), ids: Vec::new(), accept_all: true };
                proof {
                    assert(f@ =~= spec_filter_of(Option::None));
                }
                return f;
            },
        };
        let bytes = str_bytes(s);
        if bytes.len() == 0 {
            let f = RecordFilter { names: Vec::new(), ids: Vec::new(), accept_all: true };
            proof {
                assert(f@ =~= spec_filter_of(Option::Some(s.spec_bytes())));
            }
            return f;
        }
        let ghost whole = bytes@;
        let mut names: Vec<String> = Vec::new();
        let mut ids: Vec<u32> = Vec::new();
        let mut start: usize = 0;
        let ghost mut remaining = whole;
        proof {
            assert(remaining =~= whole.skip(0));
        }
        loop
            invariant_except_break
                ids@ + ids_of(spec_tokens(remaining)) =~= ids_of(spec_tokens(whole)),
                names@.map_values(|n: String| bytes_of_chars(n@)) + names_of(
                    spec_tokens(remaining),
                ) =~= names_of(spec_tokens(whole)),
            invariant
                bytes@ == whole,
                whole.len() <= usize::MAX,
                start <= whole.len(),
                remaining == whole.skip(start as int),
                forall|k: int|
                    0 <= k < names@.len() ==> vstd::utf8::is_ascii_chars(#[trigger] names@[k]@),
            ensures
                ids@ =~= ids_of(spec_tokens(whole)),
                names@.map_values(|n: String| bytes_of_chars(n@)) =~= names_of(
                    spec_tokens(whole),
                ),
                forall|k: int|
                    0 <= k < names@.len() ==> vstd::utf8::is_ascii_chars(#[trigger] names@[k]@),
            decreases whole.len() - start,
        {
            let mut end: usize = start;
            while end < bytes.len() && bytes[end] != 44
                invariant
                    bytes@ == whole,
                    start <= end <= whole.len(),
                    forall|j: int| start <= j < end ==> whole[j] != 44,
                decreases whole.len() - end,
            {
                end = end + 1;
            }
            let ghost p = end - start;
            proof {
                assert(forall|j: int| 0 <= j < p ==> remaining[j] == whole[start + j]);
                if end < whole.len() {
                    assert(remaining[p] == whole[end as int]);
                }
                lemma_comma_pos_at(remaining, p);
            }
            let ghost tok = remaining.take(p);
            let ghost toks = spec_tokens(remaining);
            proof {
                if end < whole.len() {
                    assert(toks == seq![tok] + spec_tokens(remaining.skip(p + 1)));
                    assert(toks.drop_first() =~= spec_tokens(remaining.skip(p + 1)));
                } else {
                    assert(remaining.take(p) =~= remaining);
                    assert(toks == seq![tok]);
                    assert(toks.drop_first() =~= Seq::<Seq<u8>>::empty());
                }
                assert(toks[0] == tok);
                assert(ids_of(toks) == if spec_trim(tok).len() > 0 && token_is_id(tok) {
                    seq![id_of_token(tok) as u32] + ids_of(toks.drop_first())
                } else {
                    ids_of(toks.drop_first())
                });
                assert(names_of(toks) == if token_is_name(tok) {
                    seq![name_of_token(tok)] + names_of(toks.drop_first())
                } else {
                    names_of(toks.drop_first())
                });
            }
            let trimmed = trim(&bytes[start..end]);
            proof {
                assert(whole.subrange(start as int, end as int) =~= tok);
                assert(trimmed@ == spec_trim(tok));
            }
            let ghost old_ids = ids@;
            let ghost old_names = names@.map_values(|n: String| bytes_of_chars(n@));
            if trimmed.len() > 0 {
                match parse_uint_text(trimmed.as_slice(), 4294967295) {
                    Some(id) => {
                        ids.push(id as u32);
                        proof {
                            assert(token_is_id(tok));
                            assert(ids@ =~= old_ids + seq![id_of_token(tok) as u32]);
                            assert(ids@ + ids_of(toks.drop_first()) =~= old_ids + ids_of(toks));
                        }
                    },
                    None => {
                        proof {
                            assert(!token_is_id(tok));
                        }
                        if is_ascii_vec(trimmed.as_slice()) {
                            let upper = to_upper(trimmed.as_slice());
                            proof {
                                assert(forall|j: int|
                                    0 <= j < upper@.len() ==> #[trigger] upper@[j] < 128) by {
                                    assert(forall|j: int|
                                        0 <= j < trimmed@.len() ==> #[trigger] trimmed@[j]
                                            < 128);
                                }
                                assert(ascii_bytes(upper@));
                            }
                            let name = ascii_to_string(upper);
                            names.push(name);
                            proof {
                                assert(token_is_name(tok));
                                lemma_bytes_chars_round_trip(name_of_token(tok));
                                assert(names@.last()@ == chars_of_bytes(name_of_token(tok)));
                                assert(bytes_of_chars(names@.last()@) =~= name_of_token(tok));
                                assert(names@.map_values(|n: String| bytes_of_chars(n@))
                                    =~= old_names + seq![name_of_token(tok)]);
                                assert(names@.map_values(|n: String| bytes_of_chars(n@))
                                    + names_of(toks.drop_first()) =~= old_names + names_of(
                                    toks,
                                ));
                            }
                        } else {
                            proof {
                                assert(!ascii_bytes(spec_trim(tok)));
                                assert(!token_is_name(tok));
                            }
                        }
                    },
                }
            }
            if end >= bytes.len() {
                proof {
                    assert(ids_of(toks.drop_first()) =~= Seq::<u32>::empty());
                    assert(names_of(toks.drop_first()) =~= Seq::<Seq<u8>>::empty());
                    assert(ids@ + ids_of(toks.drop_first()) =~= ids@);
                    assert(names@.map_values(|n: String| bytes_of_chars(n@)) + names_of(
                        toks.drop_first(),
                    ) =~= names@.map_values(|n: String| bytes_of_chars(n@)));
                }
                break;
            }
            start = end + 1;
            proof {
                assert(remaining.skip(p + 1) =~= whole.skip(start as int));
                remaining = whole.skip(start as int);
            }
        }
        let f = RecordFilter { names, ids, accept_all: false };
        proof {
            assert(f@ =~= spec_filter_of(Option::Some(s.spec_bytes())));
        }
        f
    }

    /// Whether a message with this name and numeric id is recorded: always
    /// under accept-all, else when the id is listed or the upper-cased name
    /// is listed.
    pub fn matches(&self, message_name: &str, message_id: u32) -> (r: bool)
        requires
            self.wf(),
        ensures
            r == self@.accepts(message_name@, message_id),
    {
        if self.accept_all {
            return true;
        }
        let mut k: usize = 0;
        while k < self.ids.len()
            invariant
                k <= self.ids@.len(),
                forall|j: int| 0 <= j < k ==> self.ids@[j] != message_id,
            decreases self.ids@.len() - k,
        {
            if self.ids[k] == message_id {
                return true;
            }
            k = k + 1;
        }
        let nb = str_bytes(message_name);
        let upper = to_upper(nb.as_slice());
        let mut k: usize = 0;
        while k < self.names.len()
            invariant
                k <= self.names@.len(),
                self.wf(),
                upper@ == spec_upper(message_name.spec_bytes()),
                forall|j: int|
                    0 <= j < k ==> bytes_of_chars(#[trigger] self.names@[j]@) != upper@,
            decreases self.names@.len() - k,
        {
            let sb = str_bytes(self.names[k].as_str());
            proof {
                vstd::utf8::is_ascii_chars_encode_utf8(self.names@[k as int]@);
                assert(sb@ =~= bytes_of_chars(self.names@[k as int]@));
            }
            if bytes_eq(sb.as_slice(), upper.as_slice()) {
                proof {
                    assert(self@.names[k as int] == upper@);
                }
                return true;
            }
            k = k + 1;
        }
        proof {
            assert(!self@.ids.contains(message_id));
            assert(!self@.names.contains(spec_upper(message_name.spec_bytes())));
        }
        false
    }
}

} // verus!
