//! ASCII text helpers shared by the record codec and the input validators:
//! decimal rendering and parsing, whitespace trimming, case mapping.

use vstd::prelude::*;
use vstd::string::StrSliceExecFns;
use vstd::string::StringSliceAdditionalSpecFns;

verus! {

/// ASCII decimal digit.
pub open spec fn is_digit(b: u8) -> bool {
    48 <= b <= 57
}

/// Numeric value of a digit byte.
pub open spec fn digit_val(b: u8) -> nat
    recommends
        is_digit(b),
{
    (b - 48) as nat
}

/// Digit byte for a value below ten.
pub open spec fn digit_byte(n: nat) -> u8
    recommends
        n < 10,
{
    (n + 48) as u8
}

/// Decimal digits of `n`, most significant first, no leading zeros.
pub open spec fn dec_digits(n: nat) -> Seq<u8>
    decreases n,
{
    if n < 10 {
        seq![digit_byte(n)]
    } else {
        dec_digits(n / 10).push(digit_byte(n % 10))
    }
}

pub open spec fn all_digits(s: Seq<u8>) -> bool {
    forall|i: int| 0 <= i < s.len() ==> is_digit(#[trigger] s[i])
}

/// Value of a digit string, most significant first.
pub open spec fn dec_val(s: Seq<u8>) -> nat
    decreases s.len(),
{
    if s.len() == 0 {
        0
    } else {
        dec_val(s.drop_last()) * 10 + digit_val(s.last())
    }
}

pub proof fn lemma_dec_digits_wf(n: nat)
    ensures
        dec_digits(n).len() >= 1,
        all_digits(dec_digits(n)),
    decreases n,
{
    if n >= 10 {
        lemma_dec_digits_wf(n / 10);
    }
}

/// Rendering and reading decimal digits are inverse.
pub proof fn lemma_dec_val_of_digits(n: nat)
    ensures
        dec_val(dec_digits(n)) == n,
    decreases n,
{
    if n < 10 {
        assert(dec_digits(n).drop_last() =~= Seq::<u8>::empty());
        assert(dec_val(dec_digits(n).drop_last()) == 0);
        assert(dec_digits(n).last() == digit_byte(n));
        assert(digit_val(digit_byte(n)) == n);
        assert(dec_val(dec_digits(n)) == dec_val(dec_digits(n).drop_last()) * 10 + digit_val(
            dec_digits(n).last(),
        ));
    } else {
        lemma_dec_val_of_digits(n / 10);
        assert(dec_digits(n).drop_last() =~= dec_digits(n / 10));
        assert(dec_digits(n).last() == digit_byte(n % 10));
        assert(digit_val(digit_byte(n % 10)) == n % 10);
        assert(dec_val(dec_digits(n)) == dec_val(dec_digits(n).drop_last()) * 10 + digit_val(
            dec_digits(n).last(),
        ));
        assert(n / 10 * 10 + n % 10 == n);
    }
}

pub proof fn lemma_dec_val_take_succ(s: Seq<u8>, i: int)
    requires
        0 <= i < s.len(),
    ensures
        dec_val(s.take(i + 1)) == dec_val(s.take(i)) * 10 + digit_val(s[i]),
{
    assert(s.take(i + 1).drop_last() =~= s.take(i));
    assert(s.take(i + 1).last() == s[i]);
}

/// A digit string is worth at least any of its prefixes.
pub proof fn lemma_dec_val_take_le(s: Seq<u8>, i: int)
    requires
        0 <= i <= s.len(),
    ensures
        dec_val(s.take(i)) <= dec_val(s),
    decreases s.len() - i,
{
    if i == s.len() {
        assert(s.take(i) =~= s);
    } else {
        lemma_dec_val_take_succ(s, i);
        lemma_dec_val_take_le(s, i + 1);
    }
}

/// Decimal digits of `n`, as bytes.
pub fn fmt_u64(n: u64) -> (v: Vec<u8>)
    ensures
        v@ == dec_digits(n as nat),
{
    let mut rev: Vec<u8> = Vec::new();
    let mut m: u64 = n;
    while m >= 10
        invariant
            dec_digits(n as nat) =~= dec_digits(m as nat) + rev@.reverse(),
        decreases m,
    {
        let d: u8 = (m % 10) as u8 + 48;
        let ghost old_rev = rev@;
        rev.push(d);
        m = m / 10;
        proof {
            assert(rev@.reverse() =~= seq![d] + old_rev.reverse());
            assert(dec_digits((m * 10 + digit_val(d)) as nat) =~= dec_digits(m as nat) + seq![d]);
        }
    }
    let ghost old_rev = rev@;
    rev.push(m as u8 + 48);
    proof {
        assert(rev@.reverse() =~= seq![(m as u8 + 48) as u8] + old_rev.reverse());
        assert(dec_digits(n as nat) =~= rev@.reverse());
    }
    let mut v: Vec<u8> = Vec::new();
    let mut i: usize = rev.len();
    while i > 0
        invariant
            i <= rev@.len(),
            v@.len() == rev@.len() - i,
            forall|j: int| 0 <= j < v@.len() ==> v@[j] == rev@[rev@.len() - 1 - j],
        decreases i,
    {
        i = i - 1;
        v.push(rev[i]);
    }
    proof {
        assert(v@ =~= rev@.reverse());
    }
    v
}

/// The digits of an unsigned decimal text: everything after an optional
/// leading plus sign.
pub open spec fn uint_digits(s: Seq<u8>) -> Seq<u8> {
    if s.len() > 0 && s[0] == 43 {
        s.skip(1)
    } else {
        s
    }
}

/// Optional plus sign, then at least one digit, with a value at most `max`:
/// exactly the texts that parse as an unsigned integer of that bound.
pub open spec fn spec_is_uint_text(s: Seq<u8>, max: nat) -> bool {
    uint_digits(s).len() > 0 && all_digits(uint_digits(s)) && dec_val(uint_digits(s)) <= max
}

/// Reads an unsigned decimal with an optional leading `+`, rejecting
/// values above `max`.
pub fn parse_uint_text(s: &[u8], max: u64) -> (r: Option<u64>)
    ensures
        match r {
            Some(n) => spec_is_uint_text(s@, max as nat) && n <= max && n as nat == dec_val(
                uint_digits(s@),
            ),
            None => !spec_is_uint_text(s@, max as nat),
        },
{
    let ghost digits = uint_digits(s@);
    let start: usize = if s.len() > 0 && s[0] == 43 {
        1
    } else {
        0
    };
    proof {
        assert(digits =~= s@.skip(start as int));
    }
    if s.len() == start {
        return None;
    }
    let mut acc: u64 = 0;
    let mut i: usize = start;
    while i < s.len()
        invariant
            start <= i <= s@.len(),
            digits == uint_digits(s@),
            digits =~= s@.skip(start as int),
            all_digits(digits.take(i - start)),
            acc as nat == dec_val(digits.take(i - start)),
            acc <= max,
        decreases s@.len() - i,
    {
        let b = s[i];
        if b < 48 || b > 57 {
            proof {
                assert(digits[i - start] == s@[i as int]);
                assert(!is_digit(digits[i - start]));
                assert(!all_digits(digits));
            }
            return None;
        }
        let d: u64 = (b - 48) as u64;
        proof {
            lemma_dec_val_take_succ(digits, i - start);
        }
        if acc > max / 10 || (acc == max / 10 && d > max % 10) {
            proof {
                assert(acc * 10 + d > max) by (nonlinear_arith)
                    requires
                        acc > max / 10 || (acc == max / 10 && d > max % 10),
                        d <= 9,
                ;
                assert(digits[i - start] == s@[i as int]);
                assert(digit_val(digits[i - start]) == d as nat);
                assert(dec_val(digits.take(i - start + 1)) > max as nat);
                lemma_dec_val_take_le(digits, i - start + 1);
                assert(dec_val(digits) > max as nat);
            }
            return None;
        }
        assert(acc * 10 + d <= max) by (nonlinear_arith)
            requires
                acc <= max / 10,
                d <= 9,
                acc == max / 10 ==> d <= max % 10,
                max <= u64::MAX,
        ;
        acc = acc * 10 + d;
        i = i + 1;
    }
    proof {
        assert(digits.take(i - start) =~= digits);
    }
    Some(acc)
}

/// ASCII whitespace.
pub open spec fn is_space(b: u8) -> bool {
    b == 32 || (9 <= b <= 13)
}

/// The string with leading whitespace removed.
pub open spec fn trim_front(s: Seq<u8>) -> Seq<u8>
    decreases s.len(),
{
    if s.len() > 0 && is_space(s[0]) {
        trim_front(s.skip(1))
    } else {
        s
    }
}

/// The string with trailing whitespace removed.
pub open spec fn trim_back(s: Seq<u8>) -> Seq<u8>
    decreases s.len(),
{
    if s.len() > 0 && is_space(s.last()) {
        trim_back(s.drop_last())
    } else {
        s
    }
}

/// The string with whitespace removed from both ends.
pub open spec fn spec_trim(s: Seq<u8>) -> Seq<u8> {
    trim_back(trim_front(s))
}

proof fn lemma_trim_front_skip(s: Seq<u8>, lo: int)
    requires
        0 <= lo <= s.len(),
        forall|j: int| 0 <= j < lo ==> is_space(#[trigger] s[j]),
    ensures
        trim_front(s) == trim_front(s.skip(lo)),
    decreases lo,
{
    if lo > 0 {
        assert(s.skip(1).skip(lo - 1) =~= s.skip(lo));
        lemma_trim_front_skip(s.skip(1), lo - 1);
    } else {
        assert(s.skip(0) =~= s);
    }
}

proof fn lemma_trim_back_take(s: Seq<u8>, hi: int)
    requires
        0 <= hi <= s.len(),
        forall|j: int| hi <= j < s.len() ==> is_space(#[trigger] s[j]),
    ensures
        trim_back(s) == trim_back(s.take(hi)),
    decreases s.len() - hi,
{
    if hi < s.len() {
        assert(s.drop_last() =~= s.take(s.len() - 1));
        lemma_trim_back_take(s.take(s.len() - 1), hi);
        assert(s.take(s.len() - 1).take(hi) =~= s.take(hi));
    } else {
        assert(s.take(hi) =~= s);
    }
}

/// Copy of `v` with ASCII whitespace removed from both ends.
pub fn trim(v: &[u8]) -> (t: Vec<u8>)
    ensures
        t@ == spec_trim(v@),
{
    let mut lo: usize = 0;
    loop
        invariant
            lo <= v@.len(),
            forall|j: int| 0 <= j < lo ==> is_space(#[trigger] v@[j]),
        ensures
            lo <= v@.len(),
            forall|j: int| 0 <= j < lo ==> is_space(#[trigger] v@[j]),
            lo == v@.len() || !is_space(v@[lo as int]),
        decreases v@.len() - lo,
    {
        if lo >= v.len() {
            break;
        }
        let b = v[lo];
        if !(b == 32 || (9 <= b && b <= 13)) {
            break;
        }
        lo = lo + 1;
    }
    proof {
        lemma_trim_front_skip(v@, lo as int);
        assert(trim_front(v@.skip(lo as int)) == v@.skip(lo as int));
    }
    let mut hi: usize = v.len();
    loop
        invariant
            lo <= hi <= v@.len(),
            forall|j: int| hi <= j < v@.len() ==> is_space(#[trigger] v@[j]),
        ensures
            lo <= hi <= v@.len(),
            forall|j: int| hi <= j < v@.len() ==> is_space(#[trigger] v@[j]),
            hi == lo || !is_space(v@[hi - 1]),
        decreases hi,
    {
        if hi <= lo {
            break;
        }
        let b = v[hi - 1];
        if !(b == 32 || (9 <= b && b <= 13)) {
            break;
        }
        hi = hi - 1;
    }
    let ghost f = v@.skip(lo as int);
    proof {
        assert(forall|j: int| hi - lo <= j < f.len() ==> is_space(#[trigger] f[j]));
        lemma_trim_back_take(f, hi - lo);
        assert(f.take(hi - lo) =~= v@.subrange(lo as int, hi as int));
        if hi > lo {
            assert(!is_space(f.take(hi - lo).last()));
        }
        assert(trim_back(f.take(hi - lo)) == f.take(hi - lo));
    }
    let mut t: Vec<u8> = Vec::new();
    let mut i: usize = lo;
    while i < hi
        invariant
            lo <= i <= hi <= v@.len(),
            t@ =~= v@.subrange(lo as int, i as int),
        decreases hi - i,
    {
        t.push(v[i]);
        i = i + 1;
    }
    proof {
        assert(t@ =~= v@.subrange(lo as int, hi as int));
    }
    t
}

/// ASCII upper-casing of one byte.
pub open spec fn upper_byte(b: u8) -> u8 {
    if 97 <= b <= 122 {
        (b - 32) as u8
    } else {
        b
    }
}

/// ASCII upper-casing of a byte string.
pub open spec fn spec_upper(s: Seq<u8>) -> Seq<u8> {
    s.map_values(|b: u8| upper_byte(b))
}

/// Copy of `v` with ASCII lower-case letters raised to upper case.
pub fn to_upper(v: &[u8]) -> (u: Vec<u8>)
    ensures
        u@ == spec_upper(v@),
{
    let mut u: Vec<u8> = Vec::new();
    let mut i: usize = 0;
    while i < v.len()
        invariant
            i <= v@.len(),
            u@ =~= spec_upper(v@.take(i as int)),
        decreases v@.len() - i,
    {
        let b = v[i];
        if 97 <= b && b <= 122 {
            u.push(b - 32);
        } else {
            u.push(b);
        }
        proof {
            assert(spec_upper(v@.take(i + 1)) =~= spec_upper(v@.take(i as int)).push(
                upper_byte(v@[i as int]),
            ));
        }
        i = i + 1;
    }
    proof {
        assert(v@.take(v@.len() as int) =~= v@);
    }
    u
}

pub open spec fn ascii_bytes(s: Seq<u8>) -> bool {
    forall|i: int| 0 <= i < s.len() ==> #[trigger] s[i] < 128
}

/// The characters of an ASCII byte string.
pub open spec fn chars_of_bytes(s: Seq<u8>) -> Seq<char> {
    s.map_values(|b: u8| b as char)
}

/// The bytes of an ASCII character string.
pub open spec fn bytes_of_chars(s: Seq<char>) -> Seq<u8> {
    s.map_values(|c: char| c as u8)
}

/// Relies on `String::from_utf8`: bytes below 128 always decode, to the
/// identical sequence of one-byte characters.
#[verifier::external_body]
pub fn ascii_to_string(v: Vec<u8>) -> (s: String)
    requires
        ascii_bytes(v@),
    ensures
        s@ == chars_of_bytes(v@),
{
    String::from_utf8(v).unwrap_or_default()
}

/// The UTF-8 bytes of a string.
pub fn str_bytes(s: &str) -> (v: Vec<u8>)
    ensures
        v@ == s.spec_bytes(),
{
    s.as_bytes_vec()
}

/// Round trip between an ASCII byte string and its characters.
pub proof fn lemma_bytes_chars_round_trip(s: Seq<u8>)
    requires
        ascii_bytes(s),
    ensures
        bytes_of_chars(chars_of_bytes(s)) =~= s,
        vstd::utf8::is_ascii_chars(chars_of_bytes(s)),
{
}

/// Round trip between an ASCII character string and its bytes.
pub proof fn lemma_chars_bytes_round_trip(cs: Seq<char>)
    requires
        vstd::utf8::is_ascii_chars(cs),
    ensures
        chars_of_bytes(bytes_of_chars(cs)) =~= cs,
        ascii_bytes(bytes_of_chars(cs)),
{
}

/// Whether two byte strings are equal.
pub fn bytes_eq(a: &[u8], b: &[u8]) -> (r: bool)
    ensures
        r == (a@ == b@),
{
    if a.len() != b.len() {
        return false;
    }
    let mut i: usize = 0;
    while i < a.len()
        invariant
            i <= a@.len(),
            a@.len() == b@.len(),
            forall|j: int| 0 <= j < i ==> a@[j] == #[trigger] b@[j],
        decreases a@.len() - i,
    {
        if a[i] != b[i] {
            return false;
        }
        i = i + 1;
    }
    proof {
        assert(a@ =~= b@);
    }
    true
}

/// Whether `needle` occurs contiguously inside `hay`.
pub open spec fn spec_contains(hay: Seq<u8>, needle: Seq<u8>) -> bool {
    exists|k: int|
        0 <= k && k + needle.len() <= hay.len() && #[trigger] hay.subrange(k, k + needle.len())
            == needle
}

/// Substring search.
pub fn contains_bytes(hay: &[u8], needle: &[u8]) -> (r: bool)
    ensures
        r == spec_contains(hay@, needle@),
{
    if needle.len() > hay.len() {
        proof {
            assert(!spec_contains(hay@, needle@));
        }
        return false;
    }
    if needle.len() == 0 {
        proof {
            assert(hay@.subrange(0, 0 + needle@.len() as int) =~= needle@);
        }
        return true;
    }
    let mut k: usize = 0;
    while k <= hay.len() - needle.len()
        invariant
            1 <= needle@.len() <= hay@.len(),
            hay@.len() <= usize::MAX,
            k <= hay@.len() - needle@.len() + 1,
            forall|p: int|
                0 <= p < k ==> #[trigger] hay@.subrange(p, p + needle@.len()) != needle@,
        decreases hay@.len() - needle@.len() + 1 - k,
    {
        if bytes_eq(&hay[k..k + needle.len()], needle) {
            return true;
        }
        k = k + 1;
    }
    proof {
        assert forall|p: int|
            0 <= p && p + needle@.len() <= hay@.len() implies #[trigger] hay@.subrange(
            p,
            p + needle@.len(),
        ) != needle@ by {
            assert(p < k);
        }
    }
    false
}

/// Whether two strings hold the same characters.
pub fn str_eq(a: &str, b: &str) -> (r: bool)
    ensures
        r == (a@ == b@),
{
    let av = str_bytes(a);
    let bv = str_bytes(b);
    let r = bytes_eq(av.as_slice(), bv.as_slice());
    proof {
        vstd::utf8::encode_utf8_decode_utf8(a@);
        vstd::utf8::encode_utf8_decode_utf8(b@);
    }
    r
}

/// Whether every byte is ASCII.
pub fn is_ascii_vec(v: &[u8]) -> (r: bool)
    ensures
        r == ascii_bytes(v@),
{
    let mut i: usize = 0;
    while i < v.len()
        invariant
            i <= v@.len(),
            forall|j: int| 0 <= j < i ==> #[trigger] v@[j] < 128,
        decreases v@.len() - i,
    {
        if v[i] >= 128 {
            return false;
        }
        i = i + 1;
    }
    true
}

} // verus!
