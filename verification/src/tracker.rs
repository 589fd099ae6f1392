//! Per-message-type rate tracking: one rolling window per
//! (system id, component id, message name) key, created lazily on first
//! sighting and evicted once the whole key has gone stale.

use vstd::prelude::*;
use crate::rolling_window::{
    RollingWindow, RollingWindowView, spec_retained, spec_hz, spec_stale,
};
use crate::text::str_eq;

verus! {

/// One tracked key.
pub struct FreqKey {
    pub system_id: u8,
    pub component_id: u8,
    pub name: String,
}

pub type FreqKeyView = (u8, u8, Seq<char>);

impl View for FreqKey {
    type V = FreqKeyView;

    open spec fn view(&self) -> FreqKeyView {
        (self.system_id, self.component_id, self.name@)
    }
}

/// One tracked key with its window and the payload last seen for it.
pub struct FreqEntry {
    pub key: FreqKey,
    pub window: RollingWindow,
    pub last_payload: String,
}

/// The mathematical content of one tracker entry.
#[verifier::ext_equal]
pub struct FreqEntryView {
    pub key: FreqKeyView,
    pub window: RollingWindowView,
    pub last_payload: Seq<char>,
}

impl View for FreqEntry {
    type V = FreqEntryView;

    open spec fn view(&self) -> FreqEntryView {
        FreqEntryView { key: self.key@, window: self.window@, last_payload: self.last_payload@ }
    }
}

/// Whether some entry carries the key.
pub open spec fn has_key(es: Seq<FreqEntryView>, k: FreqKeyView) -> bool {
    exists|i: int| 0 <= i < es.len() && (#[trigger] es[i]).key == k
}

/// The stored rate for a key, front to back; zero when the key is absent.
pub open spec fn spec_hz_of(es: Seq<FreqEntryView>, k: FreqKeyView) -> u64
    decreases es.len(),
{
    if es.len() == 0 {
        0
    } else if es[0].key == k {
        es[0].window.hz_millihz
    } else {
        spec_hz_of(es.drop_first(), k)
    }
}

/// A window after one more sample at `now`, evicted and recomputed.
pub open spec fn observed_window(w: RollingWindowView, now: u64) -> RollingWindowView {
    let ts = spec_retained(w.timestamps.push(now), now, w.max_duration_ms);
    RollingWindowView {
        timestamps: ts,
        max_duration_ms: w.max_duration_ms,
        hz_millihz: spec_hz(ts, now),
    }
}

/// A window evicted and recomputed at `now`, with no new sample.
pub open spec fn refreshed_window(w: RollingWindowView, now: u64) -> RollingWindowView {
    let ts = spec_retained(w.timestamps, now, w.max_duration_ms);
    RollingWindowView {
        timestamps: ts,
        max_duration_ms: w.max_duration_ms,
        hz_millihz: spec_hz(ts, now),
    }
}

/// Keys are pairwise distinct.
pub open spec fn keys_unique(es: Seq<FreqEntryView>) -> bool {
    forall|i: int, j: int|
        0 <= i < j < es.len() ==> (#[trigger] es[i]).key != (#[trigger] es[j]).key
}

/// Live per-key rate state: entries in first-sighting order, keys unique.
pub struct FrequencyTracker {
    window_ms: u64,
    entries: Vec<FreqEntry>,
}

impl View for FrequencyTracker {
    type V = Seq<FreqEntryView>;

    closed spec fn view(&self) -> Seq<FreqEntryView> {
        self.entries@.map_values(|e: FreqEntry| e@)
    }
}

impl FrequencyTracker {
    /// Keys are pairwise distinct.
    pub open spec fn wf(&self) -> bool {
        keys_unique(self@)
    }

    /// The window bound that every key's rolling window is created with.
    pub closed spec fn spec_window_ms(&self) -> u64 {
        self.window_ms
    }

    pub fn new(window_ms: u64) -> (t: FrequencyTracker)
        ensures
            t.wf(),
            t@ =~= Seq::<FreqEntryView>::empty(),
            t.spec_window_ms() == window_ms,
    {
        FrequencyTracker { window_ms, entries: Vec::new() }
    }

    /// How many keys are tracked.
    pub fn len(&self) -> (n: usize)
        ensures
            n == self@.len(),
    {
        self.entries.len()
    }

    /// Forgets every key.
    pub fn clear(&mut self)
        ensures
            final(self).wf(),
            final(self)@ =~= Seq::<FreqEntryView>::empty(),
            final(self).spec_window_ms() == old(self).spec_window_ms(),
    {
        self.entries.clear();
    }

    /// The index of the entry carrying the key, if any.
    fn find(&self, system_id: u8, component_id: u8, name: &str) -> (r: Option<usize>)
        ensures
            match r {
                Some(i) => i < self@.len() && self@[i as int].key == (
                    system_id,
                    component_id,
                    name@,
                ),
                None => !has_key(self@, (system_id, component_id, name@)),
            },
    {
        let ghost k: FreqKeyView = (system_id, component_id, name@);
        let mut i: usize = 0;
        while i < self.entries.len()
            invariant
                i <= self@.len(),
                self@.len() == self.entries@.len(),
                k == (system_id, component_id, name@),
                forall|j: int| 0 <= j < i ==> (#[trigger] self@[j]).key != k,
            decreases self@.len() - i,
        {
            let e = &self.entries[i];
            if e.key.system_id == system_id && e.key.component_id == component_id && str_eq(
                e.key.name.as_str(),
                name,
            ) {
                proof {
                    assert(self@[i as int].key == k);
                }
                return Some(i);
            }
            proof {
                assert(self@[i as int] == self.entries@[i as int]@);
                assert(self@[i as int].key != k);
            }
            i = i + 1;
        }
        None
    }

    /// Notes one sighting of a key at `now_ms`: the key's window gains the
    /// instant and is recomputed, and the payload becomes the key's last
    /// one; an unseen key gets a fresh window holding just this instant.
    pub fn observe(&mut self, system_id: u8, component_id: u8, name: &str, payload: &str, now_ms: u64)
        requires
            old(self).wf(),
        ensures
            final(self).wf(),
            final(self).spec_window_ms() == old(self).spec_window_ms(),
            ({
                let k: FreqKeyView = (system_id, component_id, name@);
                if has_key(old(self)@, k) {
                    exists|i: int|
                        0 <= i < old(self)@.len() && (#[trigger] old(self)@[i]).key == k
                            && final(self)@ =~= old(self)@.update(
                            i,
                            FreqEntryView {
                                key: k,
                                window: observed_window(old(self)@[i].window, now_ms),
                                last_payload: payload@,
                            },
                        )
                } else {
                    final(self)@ =~= old(self)@.push(
                        FreqEntryView {
                            key: k,
                            window: observed_window(
                                RollingWindowView {
                                    timestamps: Seq::<u64>::empty(),
                                    max_duration_ms: old(self).spec_window_ms(),
                                    hz_millihz: 0,
                                },
                                now_ms,
                            ),
                            last_payload: payload@,
                        },
                    )
                }
            }),
    {
        let ghost k: FreqKeyView = (system_id, component_id, name@);
        match self.find(system_id, component_id, name) {
            Some(i) => {
                let ghost old_entries = self@;
                let mut e = self.entries.remove(i);
                e.window.add(now_ms, now_ms);
                e.last_payload = payload.to_owned();
                self.entries.insert(i, e);
                proof {
                    assert(self@ =~= old_entries.update(
                        i as int,
                        FreqEntryView {
                            key: k,
                            window: observed_window(old_entries[i as int].window, now_ms),
                            last_payload: payload@,
                        },
                    ));
                }
            },
            None => {
                let mut w = RollingWindow::new(self.window_ms);
                w.add(now_ms, now_ms);
                let name_owned = name.to_owned();
                let e = FreqEntry {
                    key: FreqKey { system_id, component_id, name: name_owned },
                    window: w,
                    last_payload: payload.to_owned(),
                };
                self.entries.push(e);
                proof {
                    assert(self@ =~= old(self)@.push(
                        FreqEntryView {
                            key: k,
                            window: observed_window(
                                RollingWindowView {
                                    timestamps: Seq::<u64>::empty(),
                                    max_duration_ms: old(self).spec_window_ms(),
                                    hz_millihz: 0,
                                },
                                now_ms,
                            ),
                            last_payload: payload@,
                        },
                    ));
                    assert forall|a: int, b: int|
                        0 <= a < b < self@.len() implies (#[trigger] self@[a]).key != (
                    #[trigger] self@[b]).key by {
                        if b == self@.len() - 1 {
                            assert(!has_key(old(self)@, k));
                            assert(old(self)@[a].key != k);
                        }
                    }
                }
            },
        }
    }

    /// The stored rate for a key in millihertz; zero for an unseen key, and
    /// zero whenever the key's window held fewer than two samples at its
    /// last update.
    pub fn get_hz(&self, system_id: u8, component_id: u8, name: &str) -> (hz: u64)
        requires
            self.wf(),
        ensures
            hz == spec_hz_of(self@, (system_id, component_id, name@)),
            !has_key(self@, (system_id, component_id, name@)) ==> hz == 0,
    {
        let ghost k: FreqKeyView = (system_id, component_id, name@);
        match self.find(system_id, component_id, name) {
            Some(i) => {
                proof {
                    lemma_hz_of_first_match(self@, k, i as int);
                }
                self.entries[i].window.get_hz()
            },
            None => {
                proof {
                    lemma_hz_of_absent(self@, k);
                }
                0
            },
        }
    }

    /// Evicts stale samples from every window and recomputes every rate as
    /// of `now_ms`, keeping every key.
    pub fn refresh(&mut self, now_ms: u64)
        requires
            old(self).wf(),
        ensures
            final(self).wf(),
            final(self).spec_window_ms() == old(self).spec_window_ms(),
            final(self)@.len() == old(self)@.len(),
            forall|i: int|
                0 <= i < old(self)@.len() ==> final(self)@[i] == (FreqEntryView {
                    key: (#[trigger] old(self)@[i]).key,
                    window: refreshed_window(old(self)@[i].window, now_ms),
                    last_payload: old(self)@[i].last_payload,
                }),
    {
        let mut i: usize = 0;
        while i < self.entries.len()
            invariant
                i <= self@.len(),
                self@.len() == old(self)@.len(),
                self.spec_window_ms() == old(self).spec_window_ms(),
                forall|j: int|
                    i <= j < self@.len() ==> #[trigger] self@[j] == old(self)@[j],
                forall|j: int|
                    0 <= j < i ==> #[trigger] self@[j] == (FreqEntryView {
                        key: old(self)@[j].key,
                        window: refreshed_window(old(self)@[j].window, now_ms),
                        last_payload: old(self)@[j].last_payload,
                    }),
            decreases self@.len() - i,
        {
            let ghost before = self@;
            let mut e = self.entries.remove(i);
            e.window.update(now_ms);
            self.entries.insert(i, e);
            proof {
                assert(self@ =~= before.update(
                    i as int,
                    FreqEntryView {
                        key: before[i as int].key,
                        window: refreshed_window(before[i as int].window, now_ms),
                        last_payload: before[i as int].last_payload,
                    },
                ));
            }
            i = i + 1;
        }
        proof {
            assert forall|a: int, b: int|
                0 <= a < b < self@.len() implies (#[trigger] self@[a]).key != (
            #[trigger] self@[b]).key by {
                assert(old(self)@[a].key != old(self)@[b].key);
            }
        }
    }

    /// Evicts every key whose window has gone stale: no sample within the
    /// staleness threshold before `now_ms`. Fresh keys keep their order.
    pub fn sweep(&mut self, staleness_ms: u64, now_ms: u64)
        requires
            old(self).wf(),
        ensures
            final(self).wf(),
            final(self).spec_window_ms() == old(self).spec_window_ms(),
            final(self)@ == old(self)@.filter(
                |e: FreqEntryView| !spec_stale(e.window.timestamps, staleness_ms, now_ms),
            ),
    {
        let ghost es = self@;
        let mut kept: Vec<FreqEntry> = Vec::new();
        let mut i: usize = 0;
        let n = self.entries.len();
        proof {
            reveal(Seq::filter);
            assert(es.take(0) =~= Seq::<FreqEntryView>::empty());
            assert(kept@.map_values(|e: FreqEntry| e@) =~= es.take(0).filter(
                |e: FreqEntryView| !spec_stale(e.window.timestamps, staleness_ms, now_ms),
            ));
            assert(self.entries@.map_values(|e: FreqEntry| e@) =~= es.skip(0));
        }
        while i < n
            invariant
                i <= n,
                n == es.len(),
                keys_unique(es),
                self.spec_window_ms() == old(self).spec_window_ms(),
                self.entries@.map_values(|e: FreqEntry| e@) == es.skip(i as int),
                kept@.map_values(|e: FreqEntry| e@) == es.take(i as int).filter(
                    |e: FreqEntryView| !spec_stale(e.window.timestamps, staleness_ms, now_ms),
                ),
                forall|a: int|
                    0 <= a < kept@.len() ==> exists|p: int|
                        0 <= p < i && (#[trigger] kept@[a])@.key == es[p].key,
                self.entries@.len() == es.len() - i,
                keys_unique(kept@.map_values(|e: FreqEntry| e@)),
            decreases n - i,
        {
            let ghost kept_before = kept@.map_values(|e: FreqEntry| e@);
            let ghost kept_pre = kept@;
            proof {
                reveal(Seq::filter);
                assert(es.take(i + 1).drop_last() =~= es.take(i as int));
                assert(es.take(i + 1).last() == es[i as int]);
                assert(self.entries@.map_values(|x: FreqEntry| x@).len() == es.skip(
                    i as int,
                ).len());
                assert(self.entries@.len() >= 1);
                assert(self.entries@.map_values(|x: FreqEntry| x@)[0] == es.skip(i as int)[0]);
                assert(es.skip(i as int)[0] == es[i as int]);
                assert(self.entries@[0]@ == es[i as int]);
            }
            let ghost pre_entries = self.entries@;
            let e = self.entries.remove(0);
            proof {
                assert(e@ == es[i as int]);
                assert(self.entries@.map_values(|x: FreqEntry| x@) =~= es.skip(i + 1)) by {
                    assert(self.entries@ =~= pre_entries.skip(1));
                    assert(forall|j: int|
                        0 <= j < self.entries@.len() ==> self.entries@.map_values(
                            |x: FreqEntry| x@,
                        )[j] == (#[trigger] self.entries@[j])@);
                    assert(forall|j: int|
                        0 <= j < pre_entries.len() ==> pre_entries.map_values(
                            |x: FreqEntry| x@,
                        )[j] == (#[trigger] pre_entries[j])@);
                }
            }
            let stale = e.window.should_be_cleared(staleness_ms, now_ms);
            if !stale {
                kept.push(e);
                proof {
                    assert(kept@ =~= kept_pre.push(e));
                    assert(forall|a: int|
                        0 <= a < kept_pre.len() ==> #[trigger] kept@[a] == kept_pre[a]);
                    assert(kept@.map_values(|x: FreqEntry| x@) =~= kept_before.push(
                        es[i as int],
                    )) by {
                        assert(forall|j: int|
                            0 <= j < kept@.len() ==> kept@.map_values(|x: FreqEntry| x@)[j]
                                == (#[trigger] kept@[j])@);
                        assert(forall|j: int|
                            0 <= j < kept_pre.len() ==> kept_before[j] == (
                            #[trigger] kept_pre[j])@);
                    }
                    assert forall|a: int|
                        0 <= a < kept@.len() implies exists|p: int|
                            0 <= p < i + 1 && (#[trigger] kept@[a])@.key == es[p].key by {
                        if a < kept_pre.len() {
                            let p = choose|p: int|
                                0 <= p < i && (kept_pre[a])@.key == #[trigger] es[p].key;
                            assert(0 <= p < i + 1 && kept@[a]@.key == es[p].key);
                        } else {
                            assert(kept@[a]@.key == es[i as int].key);
                        }
                    }
                    assert forall|a: int, b: int|
                        0 <= a < b < kept@.len() implies (#[trigger] kept@[a])@.key != (
                    #[trigger] kept@[b])@.key by {
                        assert(forall|j: int|
                            0 <= j < kept_pre.len() ==> kept_before[j] == (
                            #[trigger] kept_pre[j])@);
                        if b == kept@.len() - 1 {
                            let p = choose|p: int|
                                0 <= p < i && (kept_pre[a])@.key == #[trigger] es[p].key;
                            assert(es[p].key != es[i as int].key);
                            assert(kept@[b]@.key == es[i as int].key);
                        } else {
                            assert(kept_before[a].key != kept_before[b].key);
                        }
                    }
                    assert(keys_unique(kept@.map_values(|x: FreqEntry| x@))) by {
                        assert(forall|a: int|
                            0 <= a < kept@.len() ==> kept@.map_values(|x: FreqEntry| x@)[a]
                                == (#[trigger] kept@[a])@);
                    }
                }
            }
            i = i + 1;
        }
        proof {
            assert(es.take(es.len() as int) =~= es);
        }
        self.entries = kept;
    }

    /// The payload last seen for a key.
    pub fn get_last_payload(&self, system_id: u8, component_id: u8, name: &str) -> (r: Option<
        &String,
    >)
        ensures
            match r {
                Some(p) => exists|i: int|
                    0 <= i < self@.len() && (#[trigger] self@[i]).key == (
                        system_id,
                        component_id,
                        name@,
                    ) && p@ == self@[i].last_payload,
                None => !has_key(self@, (system_id, component_id, name@)),
            },
    {
        match self.find(system_id, component_id, name) {
            Some(i) => Some(&self.entries[i].last_payload),
            None => None,
        }
    }

    /// The tracked keys and their stored rates, in first-sighting order.
    pub fn snapshot(&self) -> (out: Vec<FreqSample>)
        ensures
            out@.len() == self@.len(),
            forall|i: int|
                0 <= i < self@.len() ==> (#[trigger] out@[i])@ == (FreqSampleView {
                    system_id: self@[i].key.0,
                    component_id: self@[i].key.1,
                    name: self@[i].key.2,
                    hz_millihz: self@[i].window.hz_millihz,
                }),
    {
        let mut out: Vec<FreqSample> = Vec::new();
        let mut i: usize = 0;
        while i < self.entries.len()
            invariant
                i <= self@.len(),
                self@.len() == self.entries@.len(),
                out@.len() == i,
                forall|j: int|
                    0 <= j < i ==> (#[trigger] out@[j])@ == (FreqSampleView {
                        system_id: self@[j].key.0,
                        component_id: self@[j].key.1,
                        name: self@[j].key.2,
                        hz_millihz: self@[j].window.hz_millihz,
                    }),
            decreases self@.len() - i,
        {
            let e = &self.entries[i];
            out.push(
                FreqSample {
                    system_id: e.key.system_id,
                    component_id: e.key.component_id,
                    name: e.key.name.clone(),
                    hz_millihz: e.window.get_hz(),
                },
            );
            i = i + 1;
        }
        out
    }
}

/// One row of a frequency snapshot.
pub struct FreqSample {
    pub system_id: u8,
    pub component_id: u8,
    pub name: String,
    pub hz_millihz: u64,
}

/// The mathematical content of a snapshot row.
#[verifier::ext_equal]
pub struct FreqSampleView {
    pub system_id: u8,
    pub component_id: u8,
    pub name: Seq<char>,
    pub hz_millihz: u64,
}

impl View for FreqSample {
    type V = FreqSampleView;

    open spec fn view(&self) -> FreqSampleView {
        FreqSampleView {
            system_id: self.system_id,
            component_id: self.component_id,
            name: self.name@,
            hz_millihz: self.hz_millihz,
        }
    }
}

/// The first matching entry gives the stored rate.
proof fn lemma_hz_of_first_match(es: Seq<FreqEntryView>, k: FreqKeyView, i: int)
    requires
        keys_unique(es),
        0 <= i < es.len(),
        es[i].key == k,
    ensures
        spec_hz_of(es, k) == es[i].window.hz_millihz,
    decreases es.len(),
{
    if i == 0 {
    } else {
        assert(es[0].key != k);
        assert(forall|a: int, b: int|
            0 <= a < b < es.drop_first().len() ==> (#[trigger] es.drop_first()[a]).key != (
            #[trigger] es.drop_first()[b]).key) by {
            assert(forall|a: int|
                0 <= a < es.drop_first().len() ==> #[trigger] es.drop_first()[a] == es[a + 1]);
        }
        assert(es.drop_first()[i - 1] == es[i as int]);
        lemma_hz_of_first_match(es.drop_first(), k, i - 1);
    }
}

/// An absent key has rate zero.
proof fn lemma_hz_of_absent(es: Seq<FreqEntryView>, k: FreqKeyView)
    requires
        !has_key(es, k),
    ensures
        spec_hz_of(es, k) == 0,
    decreases es.len(),
{
    if es.len() > 0 {
        assert(es[0].key != k);
        assert(!has_key(es.drop_first(), k)) by {
            assert(forall|a: int|
                0 <= a < es.drop_first().len() ==> #[trigger] es.drop_first()[a] == es[a + 1]);
        }
        lemma_hz_of_absent(es.drop_first(), k);
    }
}

/// A key whose window has gone stale is absent after the sweep.
pub proof fn lemma_stale_key_absent_after_sweep(
    es: Seq<FreqEntryView>,
    k: FreqKeyView,
    staleness_ms: u64,
    now_ms: u64,
)
    requires
        keys_unique(es),
        exists|i: int|
            0 <= i < es.len() && (#[trigger] es[i]).key == k && spec_stale(
                es[i].window.timestamps,
                staleness_ms,
                now_ms,
            ),
    ensures
        !has_key(
            es.filter(|e: FreqEntryView| !spec_stale(e.window.timestamps, staleness_ms, now_ms)),
            k,
        ),
{
    let pred = |e: FreqEntryView| !spec_stale(e.window.timestamps, staleness_ms, now_ms);
    let out = es.filter(pred);
    let q = choose|i: int|
        0 <= i < es.len() && (#[trigger] es[i]).key == k && spec_stale(
            es[i].window.timestamps,
            staleness_ms,
            now_ms,
        );
    broadcast use vstd::seq_lib::group_filter_ensures;

    assert forall|j: int| 0 <= j < out.len() implies (#[trigger] out[j]).key != k by {
        if out[j].key == k {
            assert(pred(out[j]));
            assert(out.contains(out[j]));
            es.lemma_filter_contains_rev(pred, out[j]);
            assert(es.contains(out[j]));
            let p = choose|p: int| 0 <= p < es.len() && es[p] == out[j];
            assert(es[p].key == k);
            if p != q {
                assert(es[p].key != es[q].key);
            }
            assert(es[p] == es[q]);
            assert(!pred(es[q]));
        }
    }
}

} // verus!
