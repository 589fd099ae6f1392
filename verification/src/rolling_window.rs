//! Sliding-window rate computation: recent receipt instants, in monotonic
//! milliseconds, bounded by a time window; the rate over the window in
//! millihertz.

use vstd::prelude::*;

verus! {

/// Whether a sample taken at `t` is still inside the window at `now`.
pub open spec fn is_fresh(t: u64, now: u64, window_ms: u64) -> bool {
    t + window_ms >= now
}

/// The samples still inside the window, in order.
pub open spec fn spec_retained(ts: Seq<u64>, now: u64, window_ms: u64) -> Seq<u64> {
    ts.filter(|t: u64| t + window_ms >= now)
}

/// The rate over the samples at `now`, in millihertz: with fewer than two
/// samples it is zero, else the sample count less one, divided by the span
/// from the first sample to `now`, clamped into range.
pub open spec fn spec_hz(ts: Seq<u64>, now: u64) -> u64 {
    if ts.len() < 2 {
        0
    } else if now <= ts[0] {
        0
    } else {
        let v = ((ts.len() - 1) * 1000000) / (now - ts[0]);
        if v > u64::MAX {
            u64::MAX
        } else {
            v as u64
        }
    }
}

/// The mathematical content of a rolling window.
#[verifier::ext_equal]
pub struct RollingWindowView {
    pub timestamps: Seq<u64>,
    pub max_duration_ms: u64,
    pub hz_millihz: u64,
}

/// Recent receipt instants bounded by a time window, and the rate computed
/// over them at the last update.
pub struct RollingWindow {
    timestamps: Vec<u64>,
    max_duration_ms: u64,
    hz_millihz: u64,
}

impl View for RollingWindow {
    type V = RollingWindowView;

    closed spec fn view(&self) -> RollingWindowView {
        RollingWindowView {
            timestamps: self.timestamps@,
            max_duration_ms: self.max_duration_ms,
            hz_millihz: self.hz_millihz,
        }
    }
}

impl RollingWindow {
    pub fn new(max_duration_ms: u64) -> (w: RollingWindow)
        ensures
            w@ == (RollingWindowView {
                timestamps: Seq::<u64>::empty(),
                max_duration_ms,
                hz_millihz: 0,
            }),
    {
        let w = RollingWindow { timestamps: Vec::new(), max_duration_ms, hz_millihz: 0 };
        proof {
            assert(w@ =~= RollingWindowView {
                timestamps: Seq::<u64>::empty(),
                max_duration_ms,
                hz_millihz: 0,
            });
        }
        w
    }

    /// Appends a receipt instant, then updates the window and the rate as
    /// of `now_ms`.
    pub fn add(&mut self, timestamp_ms: u64, now_ms: u64)
        ensures
            final(self)@.max_duration_ms == old(self)@.max_duration_ms,
            final(self)@.timestamps == spec_retained(
                old(self)@.timestamps.push(timestamp_ms),
                now_ms,
                old(self)@.max_duration_ms,
            ),
            final(self)@.hz_millihz == spec_hz(final(self)@.timestamps, now_ms),
    {
        self.timestamps.push(timestamp_ms);
        self.update(now_ms);
    }

    /// Drops samples that have left the window and recomputes the rate as
    /// of `now_ms`.
    pub fn update(&mut self, now_ms: u64)
        ensures
            final(self)@.max_duration_ms == old(self)@.max_duration_ms,
            final(self)@.timestamps == spec_retained(
                old(self)@.timestamps,
                now_ms,
                old(self)@.max_duration_ms,
            ),
            final(self)@.hz_millihz == spec_hz(final(self)@.timestamps, now_ms),
    {
        let ghost ts = self.timestamps@;
        let ghost w = self.max_duration_ms;
        let mut kept: Vec<u64> = Vec::new();
        let mut i: usize = 0;
        proof {
            reveal(Seq::filter);
            assert(ts.take(0) =~= Seq::<u64>::empty());
            assert(kept@ =~= ts.take(0).filter(|t: u64| t + w >= now_ms));
        }
        while i < self.timestamps.len()
            invariant
                i <= ts.len(),
                self.timestamps@ == ts,
                self.max_duration_ms == w,
                kept@ == ts.take(i as int).filter(|t: u64| t + w >= now_ms),
            decreases ts.len() - i,
        {
            let t = self.timestamps[i];
            proof {
                reveal(Seq::filter);
                assert(ts.take(i + 1).drop_last() =~= ts.take(i as int));
                assert(ts.take(i + 1).last() == ts[i as int]);
            }
            if t >= now_ms || now_ms - t <= self.max_duration_ms {
                proof {
                    assert(ts[i as int] + w >= now_ms);
                }
                kept.push(t);
            } else {
                proof {
                    assert(!(ts[i as int] + w >= now_ms));
                }
            }
            i = i + 1;
        }
        proof {
            assert(ts.take(ts.len() as int) =~= ts);
        }
        self.timestamps = kept;
        self.calculate_hz(now_ms);
    }

    /// Recomputes the stored rate from the current samples as of `now_ms`.
    pub fn calculate_hz(&mut self, now_ms: u64)
        ensures
            final(self)@ == (RollingWindowView {
                hz_millihz: spec_hz(old(self)@.timestamps, now_ms),
                ..old(self)@
            }),
    {
        let n = self.timestamps.len();
        if n < 2 {
            self.hz_millihz = 0;
            return;
        }
        let first = self.timestamps[0];
        if now_ms <= first {
            self.hz_millihz = 0;
            return;
        }
        let num: u128 = (n - 1) as u128 * 1000000;
        let den: u128 = (now_ms - first) as u128;
        let v: u128 = num / den;
        self.hz_millihz = if v > u64::MAX as u128 {
            u64::MAX
        } else {
            v as u64
        };
    }

    /// The rate computed at the last update, in millihertz: zero whenever
    /// fewer than two samples were in the window.
    pub fn get_hz(&self) -> (hz: u64)
        ensures
            hz == self@.hz_millihz,
    {
        self.hz_millihz
    }

    /// How many samples are in the window.
    pub fn len(&self) -> (n: usize)
        ensures
            n == self@.timestamps.len(),
    {
        self.timestamps.len()
    }

    /// Whether the whole window has gone stale: it has seen a sample, and
    /// the newest one is older than `threshold_ms` before `now_ms`.
    pub fn should_be_cleared(&self, threshold_ms: u64, now_ms: u64) -> (r: bool)
        ensures
            r == spec_stale(self@.timestamps, threshold_ms, now_ms),
    {
        if self.timestamps.len() == 0 {
            return false;
        }
        let last = self.timestamps[self.timestamps.len() - 1];
        proof {
            assert(self@.timestamps.last() == last);
        }
        last < now_ms && now_ms - last > threshold_ms
    }
}

/// A window is stale when it holds samples and the newest lies more than
/// the threshold before `now`.
pub open spec fn spec_stale(ts: Seq<u64>, threshold_ms: u64, now: u64) -> bool {
    ts.len() > 0 && ts.last() + threshold_ms < now
}

/// With fewer than two samples there is no rate.
pub proof fn lemma_hz_under_two_samples(ts: Seq<u64>, now: u64)
    requires
        ts.len() < 2,
    ensures
        spec_hz(ts, now) == 0,
{
}

/// For samples spaced exactly `t_ms` apart, read at the last sample, the
/// rate is exactly one over the spacing, expressed in millihertz.
pub proof fn lemma_hz_even_spacing(ts: Seq<u64>, t_ms: u64)
    requires
        ts.len() >= 2,
        t_ms > 0,
        forall|i: int| 0 <= i < ts.len() ==> #[trigger] ts[i] == ts[0] + i * t_ms,
    ensures
        spec_hz(ts, ts.last()) == 1000000nat / (t_ms as nat),
{
    let n = ts.len() as int;
    let now = ts.last();
    assert(ts.last() == ts[n - 1]);
    assert(ts[n - 1] == ts[0] + (n - 1) * t_ms);
    assert((n - 1) * t_ms > 0) by (nonlinear_arith)
        requires
            n >= 2,
            t_ms > 0,
    ;
    assert(now - ts[0] == (n - 1) * t_ms);
    assert(((n - 1) * 1000000) / ((n - 1) * (t_ms as int)) == 1000000int / (t_ms as int)) by {
        vstd::arithmetic::div_mod::lemma_div_multiples_vanish_quotient(
            n - 1,
            1000000,
            t_ms as int,
        );
    }
    assert(1000000int / (t_ms as int) <= u64::MAX);
}

} // verus!
