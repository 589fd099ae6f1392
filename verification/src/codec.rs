//! Byte-level codec for JSON string bodies inside a recorded log line:
//! escaping on the way out, scanning back on the way in, and the proof
//! that the two are inverse.

use vstd::prelude::*;
use crate::text::{is_digit, digit_val};

verus! {

/// Lower-case hex digit for a value below sixteen.
pub open spec fn hex_digit(n: nat) -> u8
    recommends
        n < 16,
{
    if n < 10 {
        (n + 48) as u8
    } else {
        (n + 87) as u8
    }
}

/// ASCII hex digit, either case.
pub open spec fn is_hex(b: u8) -> bool {
    is_digit(b) || (97 <= b <= 102) || (65 <= b <= 70)
}

/// Value of a hex digit byte.
pub open spec fn hex_val(b: u8) -> nat
    recommends
        is_hex(b),
{
    if is_digit(b) {
        digit_val(b)
    } else if 97 <= b <= 102 {
        (b - 87) as nat
    } else {
        (b - 55) as nat
    }
}

/// How one byte appears inside a JSON string body: quote and backslash are
/// escaped, control bytes become a `\u00XX` sequence, everything else is
/// itself.
pub open spec fn esc_byte(b: u8) -> Seq<u8> {
    if b == 34 {
        seq![92u8, 34u8]
    } else if b == 92 {
        seq![92u8, 92u8]
    } else if b < 32 {
        seq![92u8, 117u8, 48u8, 48u8, hex_digit((b / 16) as nat), hex_digit((b % 16) as nat)]
    } else {
        seq![b]
    }
}

/// A whole byte string escaped for a JSON string body.
pub open spec fn esc(s: Seq<u8>) -> Seq<u8>
    decreases s.len(),
{
    if s.len() == 0 {
        Seq::empty()
    } else {
        esc_byte(s[0]) + esc(s.skip(1))
    }
}

pub proof fn lemma_esc_concat(a: Seq<u8>, b: Seq<u8>)
    ensures
        esc(a + b) =~= esc(a) + esc(b),
    decreases a.len(),
{
    if a.len() == 0 {
        assert(a + b =~= b);
        assert(esc(a) =~= Seq::<u8>::empty());
    } else {
        assert((a + b).skip(1) =~= a.skip(1) + b);
        lemma_esc_concat(a.skip(1), b);
        assert((a + b)[0] == a[0]);
    }
}

pub proof fn lemma_esc_take_succ(s: Seq<u8>, i: int)
    requires
        0 <= i < s.len(),
    ensures
        esc(s.take(i + 1)) =~= esc(s.take(i)) + esc_byte(s[i]),
{
    assert(s.take(i + 1) =~= s.take(i) + seq![s[i]]);
    lemma_esc_concat(s.take(i), seq![s[i]]);
    assert(seq![s[i]].skip(1) =~= Seq::<u8>::empty());
    assert(esc(seq![s[i]].skip(1)) =~= Seq::<u8>::empty());
    assert(esc(seq![s[i]]) =~= esc_byte(s[i]));
}

/// `v` escaped for a JSON string body.
pub fn escape_bytes(v: &[u8]) -> (out: Vec<u8>)
    ensures
        out@ == esc(v@),
{
    let mut out: Vec<u8> = Vec::new();
    let mut i: usize = 0;
    while i < v.len()
        invariant
            i <= v@.len(),
            out@ =~= esc(v@.take(i as int)),
        decreases v@.len() - i,
    {
        let b = v[i];
        if b == 34 {
            out.push(92);
            out.push(34);
        } else if b == 92 {
            out.push(92);
            out.push(92);
        } else if b < 32 {
            out.push(92);
            out.push(117);
            out.push(48);
            out.push(48);
            let hi = b / 16;
            let lo = b % 16;
            out.push(if hi < 10 {
                hi + 48
            } else {
                hi + 87
            });
            out.push(if lo < 10 {
                lo + 48
            } else {
                lo + 87
            });
        } else {
            out.push(b);
        }
        proof {
            lemma_esc_take_succ(v@, i as int);
        }
        i = i + 1;
    }
    proof {
        assert(v@.take(v@.len() as int) =~= v@);
    }
    out
}

/// Reads a JSON string body beginning at `i`, un-escaping as it goes, up to
/// and over the closing quote. Yields the decoded bytes and the index after
/// the quote; anything ill-formed yields nothing.
pub open spec fn spec_scan_string(s: Seq<u8>, i: int) -> Option<(Seq<u8>, int)>
    decreases s.len() - i,
{
    if i < 0 || i >= s.len() {
        None
    } else if s[i] == 34 {
        Some((Seq::empty(), i + 1))
    } else if s[i] == 92 {
        if i + 2 <= s.len() && (s[i + 1] == 34 || s[i + 1] == 92) {
            match spec_scan_string(s, i + 2) {
                Some((t, j)) => Some((seq![s[i + 1]] + t, j)),
                None => None,
            }
        } else if i + 6 <= s.len() && s[i + 1] == 117 && s[i + 2] == 48 && s[i + 3] == 48 && is_hex(
            s[i + 4],
        ) && is_hex(s[i + 5]) && hex_val(s[i + 4]) * 16 + hex_val(s[i + 5]) < 256 {
            match spec_scan_string(s, i + 6) {
                Some((t, j)) => Some(
                    (seq![(hex_val(s[i + 4]) * 16 + hex_val(s[i + 5])) as u8] + t, j),
                ),
                None => None,
            }
        } else {
            None
        }
    } else {
        match spec_scan_string(s, i + 1) {
            Some((t, j)) => Some((seq![s[i]] + t, j)),
            None => None,
        }
    }
}

/// The scan lands inside the line: a successful scan ends past `i` and
/// within the string.
pub proof fn lemma_scan_string_bounds(s: Seq<u8>, i: int)
    requires
        spec_scan_string(s, i) is Some,
    ensures
        i < spec_scan_string(s, i)->Some_0.1 <= s.len(),
        spec_scan_string(s, i)->Some_0.0.len() <= spec_scan_string(s, i)->Some_0.1 - i,
    decreases s.len() - i,
{
    if 0 <= i < s.len() && s[i] != 34 {
        if s[i] == 92 {
            if i + 2 <= s.len() && (s[i + 1] == 34 || s[i + 1] == 92) {
                lemma_scan_string_bounds(s, i + 2);
            } else {
                lemma_scan_string_bounds(s, i + 6);
            }
        } else {
            lemma_scan_string_bounds(s, i + 1);
        }
    }
}

proof fn lemma_hex_val_hex_digit(n: nat)
    requires
        n < 16,
    ensures
        is_hex(hex_digit(n)),
        hex_val(hex_digit(n)) == n,
{
}

/// Scanning what `esc` wrote, followed by the closing quote, gives back the
/// original bytes and stops right after the quote.
pub proof fn lemma_scan_of_escaped(s: Seq<u8>, i: int, x: Seq<u8>)
    requires
        0 <= i,
        i + esc(x).len() + 1 <= s.len(),
        s.subrange(i, i + esc(x).len() + 1) == esc(x).push(34u8),
    ensures
        spec_scan_string(s, i) == Some((x, i + esc(x).len() + 1)),
    decreases x.len(),
{
    let e = esc(x);
    assert forall|j: int| 0 <= j < e.len() + 1 implies s[i + j] == e.push(34u8)[j] by {
        assert(s.subrange(i, i + e.len() + 1)[j] == s[i + j]);
    }
    if x.len() == 0 {
        assert(e =~= Seq::<u8>::empty());
        assert(e.push(34u8)[0] == 34);
        assert(s[i] == 34);
    } else {
        let b = x[0];
        let rest = x.skip(1);
        assert(e == esc_byte(b) + esc(rest));
        let k = esc_byte(b).len();
        assert(e.push(34u8) =~= esc_byte(b) + esc(rest).push(34u8));
        assert forall|j: int| 0 <= j < k implies s[i + j] == esc_byte(b)[j] by {
            assert(s[i + j] == (esc_byte(b) + esc(rest).push(34u8))[j]);
        }
        assert(s.subrange(i + k, i + k + esc(rest).len() + 1) =~= esc(rest).push(34u8)) by {
            assert forall|j: int| 0 <= j < esc(rest).len() + 1 implies s[i + k + j] == esc(
                rest,
            ).push(34u8)[j] by {
                assert(s[i + k + j] == (esc_byte(b) + esc(rest).push(34u8))[k + j]);
            }
        }
        lemma_scan_of_escaped(s, i + k, rest);
        if b == 34 {
            assert(s[i] == 92 && s[i + 1] == 34);
            assert(seq![s[i + 1]] + rest =~= x);
        } else if b == 92 {
            assert(s[i] == 92 && s[i + 1] == 92);
            assert(seq![s[i + 1]] + rest =~= x);
        } else if b < 32 {
            assert(s[i] == 92 && s[i + 1] == 117 && s[i + 2] == 48 && s[i + 3] == 48);
            assert(s[i + 4] == hex_digit((b / 16) as nat));
            assert(s[i + 5] == hex_digit((b % 16) as nat));
            lemma_hex_val_hex_digit((b / 16) as nat);
            lemma_hex_val_hex_digit((b % 16) as nat);
            assert(hex_val(s[i + 4]) * 16 + hex_val(s[i + 5]) == b / 16 * 16 + b % 16);
            assert(b / 16 * 16 + b % 16 == b);
            assert(seq![(hex_val(s[i + 4]) * 16 + hex_val(s[i + 5])) as u8] + rest =~= x);
        } else {
            assert(s[i + 0] == esc_byte(b)[0]);
            assert(esc_byte(b)[0] == b);
            assert(b != 34 && b != 92);
            assert(seq![s[i]] + rest =~= x);
        }
    }
}

/// Reads a JSON string body starting at `i`; on success hands back the
/// decoded bytes and the index just past the closing quote.
pub fn scan_string(s: &[u8], i: usize) -> (r: Option<(Vec<u8>, usize)>)
    requires
        i <= s@.len(),
    ensures
        match r {
            Some(p) => spec_scan_string(s@, i as int) == Some((p.0@, p.1 as int)),
            None => spec_scan_string(s@, i as int) is None,
        },
{
    let mut out: Vec<u8> = Vec::new();
    let mut j: usize = i;
    loop
        invariant
            i <= j <= s@.len(),
            spec_scan_string(s@, i as int) == match spec_scan_string(s@, j as int) {
                Some((t, k)) => Some((out@ + t, k)),
                None => None::<(Seq<u8>, int)>,
            },
        decreases s@.len() - j,
    {
        if j >= s.len() {
            return None;
        }
        let b = s[j];
        if b == 34 {
            proof {
                assert(out@ + Seq::<u8>::empty() =~= out@);
            }
            return Some((out, j + 1));
        }
        let ghost prev = out@;
        let nj: usize;
        if b == 92 {
            if j + 1 < s.len() && (s[j + 1] == 34 || s[j + 1] == 92) {
                out.push(s[j + 1]);
                nj = j + 2;
            } else if s.len() - j > 5 && s[j + 1] == 117 && s[j + 2] == 48 && s[j + 3] == 48 {
                let h1 = s[j + 4];
                let h2 = s[j + 5];
                let v1: u8;
                if 48 <= h1 && h1 <= 57 {
                    v1 = h1 - 48;
                } else if 97 <= h1 && h1 <= 102 {
                    v1 = h1 - 87;
                } else if 65 <= h1 && h1 <= 70 {
                    v1 = h1 - 55;
                } else {
                    proof {
                        assert(!is_hex(s@[j + 4]));
                        assert(spec_scan_string(s@, j as int) is None);
                    }
                    return None;
                }
                let v2: u8;
                if 48 <= h2 && h2 <= 57 {
                    v2 = h2 - 48;
                } else if 97 <= h2 && h2 <= 102 {
                    v2 = h2 - 87;
                } else if 65 <= h2 && h2 <= 70 {
                    v2 = h2 - 55;
                } else {
                    proof {
                        assert(!is_hex(s@[j + 5]));
                        assert(spec_scan_string(s@, j as int) is None);
                    }
                    return None;
                }
                proof {
                    assert(hex_val(s@[j + 4]) == v1 as nat);
                    assert(hex_val(s@[j + 5]) == v2 as nat);
                }
                out.push(v1 * 16 + v2);
                nj = j + 6;
            } else {
                proof {
                    assert(spec_scan_string(s@, j as int) is None);
                }
                return None;
            }
        } else {
            out.push(b);
            nj = j + 1;
        }
        proof {
            assert(out@ == prev.push(out@[prev.len() as int]));
            match spec_scan_string(s@, nj as int) {
                Some((t, k)) => {
                    assert(spec_scan_string(s@, j as int) == Some(
                        (seq![out@[prev.len() as int]] + t, k),
                    ));
                    assert(prev + (seq![out@[prev.len() as int]] + t) =~= out@ + t);
                },
                None => {
                    assert(spec_scan_string(s@, j as int) is None);
                },
            }
        }
        j = nj;
    }
}

} // verus!
