//! Inspection replay: a loaded recording browsed read-only, with stable
//! random access, substring filtering over message names, and id
//! filtering over `system:component` pairs. No resend happens here; the
//! timed-resend plan lives with the session controller.

use vstd::prelude::*;
use crate::record::{RecordedMessage, RecordView};
use crate::text::{
    spec_upper, spec_contains, dec_digits, to_upper, contains_bytes, str_bytes, fmt_u64,
    ascii_to_string, bytes_of_chars, ascii_bytes, lemma_bytes_chars_round_trip,
};
use vstd::string::StringSliceAdditionalSpecFns;
use vstd::utf8::{encode_utf8, is_ascii_chars};

verus! {

/// Whether a record stays visible under a filter text: an empty filter
/// shows everything; otherwise the upper-cased message name must contain
/// the upper-cased filter, or the `system:component` text must contain the
/// filter as typed.
pub open spec fn matches_filter(m: RecordView, f: Seq<u8>) -> bool {
    f.len() == 0 || spec_contains(spec_upper(encode_utf8(m.name)), spec_upper(f))
        || spec_contains(
        dec_digits(m.system_id as nat) + seq![58u8] + dec_digits(m.component_id as nat),
        f,
    )
}

/// The indices of the records that stay visible, in order.
pub open spec fn indices_matching(ms: Seq<RecordView>, f: Seq<u8>) -> Seq<int>
    decreases ms.len(),
{
    if ms.len() == 0 {
        Seq::empty()
    } else {
        let pre = indices_matching(ms.drop_last(), f);
        if matches_filter(ms.last(), f) {
            pre.push(ms.len() - 1)
        } else {
            pre
        }
    }
}

/// An empty filter keeps every index.
pub proof fn lemma_indices_all(ms: Seq<RecordView>, f: Seq<u8>)
    requires
        f.len() == 0,
    ensures
        indices_matching(ms, f) =~= Seq::new(ms.len(), |i: int| i),
    decreases ms.len(),
{
    if ms.len() > 0 {
        lemma_indices_all(ms.drop_last(), f);
    }
}

/// Visible indices point into the records, in strictly increasing order.
pub proof fn lemma_indices_bounds(ms: Seq<RecordView>, f: Seq<u8>)
    ensures
        forall|j: int|
            0 <= j < indices_matching(ms, f).len() ==> 0 <= #[trigger] indices_matching(ms, f)[j]
                < ms.len(),
        indices_matching(ms, f).len() <= ms.len(),
    decreases ms.len(),
{
    if ms.len() > 0 {
        lemma_indices_bounds(ms.drop_last(), f);
    }
}

/// One key press, already freed of the terminal library's types. Printable
/// keys arrive as their ASCII byte.
#[derive(Clone, Copy, Debug, PartialEq, Eq, Structural)]
pub enum ReplayKey {
    CtrlC,
    Char(u8),
    Esc,
    Enter,
    Backspace,
    Up,
    Down,
    PageUp,
    PageDown,
}

/// A loaded recording under inspection: the records, the cursor into the
/// visible ones, the detail scroll, and the filter text.
pub struct ReplayApp {
    pub file_path: String,
    pub messages: Vec<RecordedMessage>,
    pub selected: usize,
    pub detail_scroll: usize,
    pub filter: String,
    pub filter_active: bool,
    pub filtered_indices: Vec<usize>,
}

impl ReplayApp {
    /// The records' mathematical content.
    pub open spec fn msgs(self) -> Seq<RecordView> {
        self.messages@.map_values(|m: RecordedMessage| m@)
    }

    /// The filter's bytes.
    pub open spec fn fbytes(self) -> Seq<u8> {
        encode_utf8(self.filter@)
    }

    /// The filter is ASCII, the visible indices are exactly those matching
    /// the filter, and the cursor sits inside them (at zero when nothing is
    /// visible).
    pub open spec fn inv(self) -> bool {
        &&& is_ascii_chars(self.filter@)
        &&& self.filtered_indices@.map_values(|u: usize| u as int) == indices_matching(
            self.msgs(),
            self.fbytes(),
        )
        &&& (if self.filtered_indices@.len() == 0 {
            self.selected == 0
        } else {
            self.selected < self.filtered_indices@.len()
        })
    }

    /// Opens a recording for inspection: everything visible, the cursor at
    /// the top.
    pub fn new(file_path: String, messages: Vec<RecordedMessage>) -> (app: ReplayApp)
        ensures
            app.inv(),
            app.file_path@ == file_path@,
            app.messages@ == messages@,
            app.selected == 0,
            app.detail_scroll == 0,
            app.filter@ == Seq::<char>::empty(),
            app.filter_active == false,
            app.filtered_indices@.len() == messages@.len(),
    {
        let mut filtered_indices: Vec<usize> = Vec::new();
        let mut i: usize = 0;
        while i < messages.len()
            invariant
                i <= messages@.len(),
                filtered_indices@.len() == i,
                forall|j: int| 0 <= j < i ==> #[trigger] filtered_indices@[j] == j,
            decreases messages@.len() - i,
        {
            filtered_indices.push(i);
            i = i + 1;
        }
        let app = ReplayApp {
            file_path,
            messages,
            selected: 0,
            detail_scroll: 0,
            filter: String::new(),
            filter_active: false,
            filtered_indices,
        };
        proof {
            assert(app.fbytes() =~= Seq::<u8>::empty());
            lemma_indices_all(app.msgs(), app.fbytes());
            assert(app.filtered_indices@.map_values(|u: usize| u as int) =~= Seq::new(
                app.msgs().len(),
                |i: int| i,
            ));
        }
        app
    }

    /// Recomputes the visible indices for the current filter and clamps
    /// the cursor into them.
    pub fn rebuild_filter(&mut self)
        requires
            is_ascii_chars(old(self).filter@),
        ensures
            final(self).inv(),
            final(self).messages@ == old(self).messages@,
            final(self).filter@ == old(self).filter@,
            final(self).filter_active == old(self).filter_active,
            final(self).detail_scroll == old(self).detail_scroll,
            final(self).file_path@ == old(self).file_path@,
            final(self).selected == (if old(self).selected < final(self).filtered_indices@.len() {
                old(self).selected as int
            } else if final(self).filtered_indices@.len() == 0 {
                0
            } else {
                final(self).filtered_indices@.len() - 1
            }),
    {
        let fb = str_bytes(self.filter.as_str());
        let fupper = to_upper(fb.as_slice());
        let ghost ms = self.msgs();
        let ghost f = self.fbytes();
        let mut out: Vec<usize> = Vec::new();
        let mut i: usize = 0;
        proof {
            assert(ms.take(0) =~= Seq::<RecordView>::empty());
            assert(out@.map_values(|u: usize| u as int) =~= indices_matching(ms.take(0), f));
        }
        while i < self.messages.len()
            invariant
                i <= ms.len(),
                ms == self.msgs(),
                f == self.fbytes(),
                fb@ == f,
                fupper@ == spec_upper(f),
                ms.len() == self.messages@.len(),
                out@.map_values(|u: usize| u as int) == indices_matching(ms.take(i as int), f),
                out@.len() <= i,
            decreases ms.len() - i,
        {
            let ghost out_before = out@;
            proof {
                assert(ms.take(i + 1).drop_last() =~= ms.take(i as int));
                assert(ms.take(i + 1).last() == ms[i as int]);
            }
            let hit: bool;
            if fb.len() == 0 {
                hit = true;
            } else {
                let nb = str_bytes(self.message_name_at(i));
                let nupper = to_upper(nb.as_slice());
                if contains_bytes(nupper.as_slice(), fupper.as_slice()) {
                    hit = true;
                } else {
                    let m = &self.messages[i];
                    let mut sc = fmt_u64(m.header.system_id as u64);
                    sc.push(58);
                    let mut cb = fmt_u64(m.header.component_id as u64);
                    sc.append(&mut cb);
                    proof {
                        assert(sc@ == dec_digits(ms[i as int].system_id as nat) + seq![58u8]
                            + dec_digits(ms[i as int].component_id as nat));
                    }
                    hit = contains_bytes(sc.as_slice(), fb.as_slice());
                }
            }
            proof {
                assert(hit == matches_filter(ms[i as int], f));
            }
            if hit {
                out.push(i);
                proof {
                    assert(out@.map_values(|u: usize| u as int) =~= out_before.map_values(
                        |u: usize| u as int,
                    ).push(i as int));
                }
            }
            i = i + 1;
        }
        proof {
            assert(ms.take(ms.len() as int) =~= ms);
        }
        self.filtered_indices = out;
        if self.selected >= self.filtered_indices.len() {
            if self.filtered_indices.len() == 0 {
                self.selected = 0;
            } else {
                self.selected = self.filtered_indices.len() - 1;
            }
        }
    }

    /// The message name at a record index.
    fn message_name_at(&self, i: usize) -> (r: &str)
        requires
            i < self.messages@.len(),
        ensures
            r@ == self.msgs()[i as int].name,
    {
        self.messages[i].message_name.as_str()
    }

    /// The record the cursor rests on, if anything is visible.
    pub fn selected_message(&self) -> (r: Option<&RecordedMessage>)
        requires
            self.inv(),
        ensures
            match r {
                Some(m) => self.filtered_indices@.len() > 0 && 0 <= self.filtered_indices@[self.selected as int] < self.messages@.len() && m@
                    == self.msgs()[self.filtered_indices@[self.selected as int] as int],
                None => self.filtered_indices@.len() == 0,
            },
    {
        if self.selected >= self.filtered_indices.len() {
            return None;
        }
        let idx = self.filtered_indices[self.selected];
        proof {
            lemma_indices_bounds(self.msgs(), self.fbytes());
            assert(self.filtered_indices@.map_values(|u: usize| u as int)[self.selected as int]
                == idx as int);
        }
        Some(&self.messages[idx])
    }

    /// Appends an ASCII character to the filter text.
    fn filter_push(&mut self, c: u8)
        requires
            c < 128,
            is_ascii_chars(old(self).filter@),
        ensures
            final(self).filter@ == old(self).filter@.push(c as char),
            is_ascii_chars(final(self).filter@),
            final(self).messages@ == old(self).messages@,
            final(self).selected == old(self).selected,
            final(self).detail_scroll == old(self).detail_scroll,
            final(self).filter_active == old(self).filter_active,
            final(self).file_path@ == old(self).file_path@,
            final(self).filtered_indices@ == old(self).filtered_indices@,
    {
        let mut b = str_bytes(self.filter.as_str());
        proof {
            vstd::utf8::is_ascii_chars_encode_utf8(self.filter@);
            assert(b@ =~= bytes_of_chars(self.filter@));
        }
        b.push(c);
        proof {
            assert(ascii_bytes(b@));
            lemma_bytes_chars_round_trip(b@);
        }
        self.filter = ascii_to_string(b);
        proof {
            assert(self.filter@ =~= old(self).filter@.push(c as char));
        }
    }

    /// Removes the last character of the filter text, if any.
    fn filter_pop(&mut self)
        requires
            is_ascii_chars(old(self).filter@),
        ensures
            final(self).filter@ == (if old(self).filter@.len() == 0 {
                old(self).filter@
            } else {
                old(self).filter@.drop_last()
            }),
            is_ascii_chars(final(self).filter@),
            final(self).messages@ == old(self).messages@,
            final(self).selected == old(self).selected,
            final(self).detail_scroll == old(self).detail_scroll,
            final(self).filter_active == old(self).filter_active,
            final(self).file_path@ == old(self).file_path@,
            final(self).filtered_indices@ == old(self).filtered_indices@,
    {
        let mut b = str_bytes(self.filter.as_str());
        proof {
            vstd::utf8::is_ascii_chars_encode_utf8(self.filter@);
            assert(b@ =~= bytes_of_chars(self.filter@));
        }
        if b.len() == 0 {
            proof {
                assert(self.filter@ =~= old(self).filter@);
            }
            return;
        }
        b.pop();
        proof {
            assert(b@ =~= bytes_of_chars(self.filter@).drop_last());
            assert(b@ =~= bytes_of_chars(self.filter@.drop_last()));
            assert(ascii_bytes(b@));
            lemma_bytes_chars_round_trip(b@);
        }
        self.filter = ascii_to_string(b);
        proof {
            assert(self.filter@ =~= old(self).filter@.drop_last());
        }
    }

    /// Empties the filter text.
    fn filter_clear(&mut self)
        ensures
            final(self).filter@ == Seq::<char>::empty(),
            is_ascii_chars(final(self).filter@),
            final(self).messages@ == old(self).messages@,
            final(self).selected == old(self).selected,
            final(self).detail_scroll == old(self).detail_scroll,
            final(self).filter_active == old(self).filter_active,
            final(self).file_path@ == old(self).file_path@,
            final(self).filtered_indices@ == old(self).filtered_indices@,
    {
        self.filter = String::new();
    }

    /// The cursor after a rebuild: kept where it was if still visible,
    /// else moved to the last visible record, or to the top of nothing.
    pub open spec fn clamped(pre: int, visible: int) -> int {
        if pre < visible {
            pre
        } else if visible == 0 {
            0
        } else {
            visible - 1
        }
    }

    /// Everything but the cursor and the scroll is as in `other`.
    pub open spec fn same_content(self, other: ReplayApp) -> bool {
        &&& self.messages@ == other.messages@
        &&& self.file_path@ == other.file_path@
        &&& self.filter@ == other.filter@
        &&& self.filter_active == other.filter_active
        &&& self.filtered_indices@ == other.filtered_indices@
    }

    /// Applies one key press; yields whether the app should quit. While
    /// the filter line is being edited, keys edit it; otherwise they move
    /// the cursor, scroll the detail pane, or quit.
    pub fn on_key(&mut self, key: ReplayKey) -> (quit: bool)
        requires
            old(self).inv(),
        ensures
            final(self).inv(),
            final(self).messages@ == old(self).messages@,
            final(self).file_path@ == old(self).file_path@,
            quit == (key == ReplayKey::CtrlC || (!old(self).filter_active && key
                == ReplayKey::Char(113))),
            quit ==> *final(self) == *old(self),
            !quit && old(self).filter_active ==> match key {
                ReplayKey::Esc => final(self).filter@ == Seq::<char>::empty() && final(self).filter_active == false && final(self).detail_scroll == old(self).detail_scroll
                    && final(self).selected == Self::clamped(
                    old(self).selected as int,
                    final(self).filtered_indices@.len() as int,
                ),
                ReplayKey::Enter => final(self).filter_active == false && final(self).filter@
                    == old(self).filter@ && final(self).filtered_indices@ == old(self).filtered_indices@ && final(self).selected == old(self).selected && final(self).detail_scroll == old(self).detail_scroll,
                ReplayKey::Backspace => final(self).filter@ == (if old(self).filter@.len() == 0 {
                    old(self).filter@
                } else {
                    old(self).filter@.drop_last()
                }) && final(self).filter_active == true && final(self).detail_scroll == old(self).detail_scroll && final(self).selected == Self::clamped(
                    old(self).selected as int,
                    final(self).filtered_indices@.len() as int,
                ),
                ReplayKey::Char(c) => if c < 128 {
                    final(self).filter@ == old(self).filter@.push(c as char) && final(self).filter_active == true && final(self).detail_scroll == old(self).detail_scroll && final(self).selected == Self::clamped(
                        old(self).selected as int,
                        final(self).filtered_indices@.len() as int,
                    )
                } else {
                    *final(self) == *old(self)
                },
                _ => *final(self) == *old(self),
            },
            !quit && !old(self).filter_active ==> match key {
                ReplayKey::Char(47) => final(self).same_content(
                    ReplayApp { filter_active: true, ..*old(self) },
                ) && final(self).selected == old(self).selected && final(self).detail_scroll
                    == old(self).detail_scroll,
                ReplayKey::Up | ReplayKey::Char(107) => final(self).same_content(*old(self)) && (
                if old(self).selected > 0 {
                    final(self).selected == old(self).selected - 1 && final(self).detail_scroll
                        == 0
                } else {
                    final(self).selected == old(self).selected && final(self).detail_scroll
                        == old(self).detail_scroll
                }),
                ReplayKey::Down | ReplayKey::Char(106) => final(self).same_content(*old(self))
                    && (if old(self).filtered_indices@.len() > 0 && old(self).selected + 1 < old(self).filtered_indices@.len() {
                    final(self).selected == old(self).selected + 1 && final(self).detail_scroll
                        == 0
                } else {
                    final(self).selected == old(self).selected && final(self).detail_scroll
                        == old(self).detail_scroll
                }),
                ReplayKey::Char(103) => final(self).same_content(*old(self)) && final(self).selected == 0 && final(self).detail_scroll == 0,
                ReplayKey::Char(71) => final(self).same_content(*old(self)) && (if old(self).filtered_indices@.len() > 0 {
                    final(self).selected == old(self).filtered_indices@.len() - 1 && final(self).detail_scroll == 0
                } else {
                    final(self).selected == old(self).selected && final(self).detail_scroll
                        == old(self).detail_scroll
                }),
                ReplayKey::Esc => if old(self).filter@.len() > 0 {
                    final(self).filter@ == Seq::<char>::empty() && final(self).filter_active
                        == false && final(self).detail_scroll == old(self).detail_scroll && final(self).selected == Self::clamped(
                        old(self).selected as int,
                        final(self).filtered_indices@.len() as int,
                    )
                } else {
                    *final(self) == *old(self)
                },
                ReplayKey::PageDown | ReplayKey::Char(100) => final(self).same_content(
                    *old(self),
                ) && final(self).selected == old(self).selected && final(self).detail_scroll == (
                if old(self).detail_scroll <= usize::MAX - 10 {
                    (old(self).detail_scroll + 10) as int
                } else {
                    usize::MAX as int
                }),
                ReplayKey::PageUp | ReplayKey::Char(117) => final(self).same_content(*old(self))
                    && final(self).selected == old(self).selected && final(self).detail_scroll
                    == (if old(self).detail_scroll >= 10 {
                    old(self).detail_scroll - 10
                } else {
                    0
                }),
                _ => *final(self) == *old(self),
            },
    {
        if let ReplayKey::CtrlC = key {
            return true;
        }
        if self.filter_active {
            match key {
                ReplayKey::Esc => {
                    self.filter_clear();
                    self.filter_active = false;
                    self.rebuild_filter();
                },
                ReplayKey::Enter => {
                    self.filter_active = false;
                },
                ReplayKey::Backspace => {
                    self.filter_pop();
                    self.rebuild_filter();
                },
                ReplayKey::Char(c) => {
                    if c < 128 {
                        self.filter_push(c);
                        self.rebuild_filter();
                    }
                },
                _ => {},
            }
            return false;
        }
        match key {
            ReplayKey::Char(113) => {
                return true;
            },
            ReplayKey::Char(47) => {
                self.filter_active = true;
            },
            ReplayKey::Up | ReplayKey::Char(107) => {
                if self.selected > 0 {
                    self.selected = self.selected - 1;
                    self.detail_scroll = 0;
                }
            },
            ReplayKey::Down | ReplayKey::Char(106) => {
                if self.filtered_indices.len() > 0 && self.selected < self.filtered_indices.len()
                    - 1 {
                    self.selected = self.selected + 1;
                    self.detail_scroll = 0;
                }
            },
            ReplayKey::Char(103) => {
                self.selected = 0;
                self.detail_scroll = 0;
            },
            ReplayKey::Char(71) => {
                if self.filtered_indices.len() > 0 {
                    self.selected = self.filtered_indices.len() - 1;
                    self.detail_scroll = 0;
                }
            },
            ReplayKey::Esc => {
                if !self.filter.as_str().is_empty() {
                    self.filter_clear();
                    self.rebuild_filter();
                }
            },
            ReplayKey::PageDown | ReplayKey::Char(100) => {
                self.detail_scroll = if self.detail_scroll <= usize::MAX - 10 {
                    self.detail_scroll + 10
                } else {
                    usize::MAX
                };
            },
            ReplayKey::PageUp | ReplayKey::Char(117) => {
                self.detail_scroll = if self.detail_scroll >= 10 {
                    self.detail_scroll - 10
                } else {
                    0
                };
            },
            _ => {},
        }
        false
    }
}

} // verus!
