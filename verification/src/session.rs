//! Session lifecycle: one connect-to-disconnect lifetime at a time. The
//! controller owns the stop signal's state and decides, as plain
//! transitions, what the edge must do: stop and join the previous session's
//! loops before a new connection is opened, so at most one listener is ever
//! live.

use vstd::prelude::*;

verus! {

/// Whether a session is live.
#[derive(Clone, Copy, Debug, PartialEq, Eq, Structural)]
pub enum SessionPhase {
    Idle,
    Running,
}

/// What the edge must do to start a session.
#[derive(Clone, Copy, Debug, PartialEq, Eq, Structural)]
pub enum StartAction {
    /// No session is live: connect and spawn the loops.
    Connect,
    /// A session is live: set its stop signal, join its loops within the
    /// bounded wait, and only then connect and spawn.
    StopPreviousThenConnect,
}

/// What the edge must do to stop a session.
#[derive(Clone, Copy, Debug, PartialEq, Eq, Structural)]
pub enum StopAction {
    /// Set the stop signal and join the loops within the bounded wait.
    SignalAndJoin,
    /// Nothing is running.
    NoSession,
}

/// Owns the stop-signal lifecycle and the single-session rule.
pub struct SessionController {
    phase: SessionPhase,
}

impl SessionController {
    pub closed spec fn spec_phase(&self) -> SessionPhase {
        self.phase
    }

    pub fn new() -> (c: SessionController)
        ensures
            c.spec_phase() == SessionPhase::Idle,
    {
        SessionController { phase: SessionPhase::Idle }
    }

    /// Whether a session is live.
    pub fn is_running(&self) -> (r: bool)
        ensures
            r == (self.spec_phase() == SessionPhase::Running),
    {
        match self.phase {
            SessionPhase::Running => true,
            SessionPhase::Idle => false,
        }
    }

    /// Starts a session: a live one must first be fully stopped and its
    /// loops joined, so that no two listeners ever share the link. The
    /// controller ends up running either way.
    pub fn start(&mut self) -> (a: StartAction)
        ensures
            final(self).spec_phase() == SessionPhase::Running,
            a == (if old(self).spec_phase() == SessionPhase::Running {
                StartAction::StopPreviousThenConnect
            } else {
                StartAction::Connect
            }),
    {
        let a = match self.phase {
            SessionPhase::Running => StartAction::StopPreviousThenConnect,
            SessionPhase::Idle => StartAction::Connect,
        };
        self.phase = SessionPhase::Running;
        a
    }

    /// Stops the live session, if any: the edge sets the stop signal and
    /// joins every loop within the bounded wait. The controller ends up
    /// idle either way, and a connect failure reported by the edge is an
    /// ordinary start failure, never a crash.
    pub fn stop(&mut self) -> (a: StopAction)
        ensures
            final(self).spec_phase() == SessionPhase::Idle,
            a == (if old(self).spec_phase() == SessionPhase::Running {
                StopAction::SignalAndJoin
            } else {
                StopAction::NoSession
            }),
    {
        let a = match self.phase {
            SessionPhase::Running => StopAction::SignalAndJoin,
            SessionPhase::Idle => StopAction::NoSession,
        };
        self.phase = SessionPhase::Idle;
        a
    }

    /// A failed connect leaves no session live: the edge reports the error
    /// and the controller returns to idle.
    pub fn connect_failed(&mut self)
        ensures
            final(self).spec_phase() == SessionPhase::Idle,
    {
        self.phase = SessionPhase::Idle;
    }
}

/// The sender identity for one replayed message: the recorded ids, unless
/// an override replaces them.
pub fn apply_overrides(
    system_id: u8,
    component_id: u8,
    system_override: Option<u8>,
    component_override: Option<u8>,
) -> (r: (u8, u8))
    ensures
        r.0 == (if system_override is Some {
            system_override->0
        } else {
            system_id
        }),
        r.1 == (if component_override is Some {
            component_override->0
        } else {
            component_id
        }),
{
    let sys = match system_override {
        Some(id) => id,
        None => system_id,
    };
    let comp = match component_override {
        Some(id) => id,
        None => component_id,
    };
    (sys, comp)
}

/// The sleep plan for a timed replay: exactly the recorded inter-message
/// deltas, in order. The edge sleeps each delta and then sends; the gaps
/// between sends then reproduce the recorded gaps up to scheduling noise.
pub fn replay_deltas(records: &Vec<crate::record::RecordedMessage>) -> (ds: Vec<u64>)
    ensures
        ds@.len() == records@.len(),
        forall|i: int| 0 <= i < records@.len() ==> ds@[i] == (#[trigger] records@[i])@.delta_ms,
{
    let mut ds: Vec<u64> = Vec::new();
    let mut i: usize = 0;
    while i < records.len()
        invariant
            i <= records@.len(),
            ds@.len() == i,
            forall|j: int| 0 <= j < i ==> ds@[j] == (#[trigger] records@[j])@.delta_ms,
        decreases records@.len() - i,
    {
        ds.push(records[i].delta_ms);
        i = i + 1;
    }
    ds
}

/// The planned send instants of a timed replay: each message goes out its
/// recorded delta after the previous one.
pub open spec fn spec_send_times(ds: Seq<u64>) -> Seq<int>
    decreases ds.len(),
{
    if ds.len() == 0 {
        Seq::empty()
    } else {
        let pre = spec_send_times(ds.drop_last());
        let base: int = if pre.len() == 0 {
            0
        } else {
            pre.last()
        };
        pre.push(base + ds.last())
    }
}

/// Timed replay reproduces the recorded gaps: between any two consecutive
/// planned sends lies exactly the recorded delta, and the first send waits
/// exactly the first delta.
pub proof fn lemma_replay_gaps(ds: Seq<u64>)
    ensures
        spec_send_times(ds).len() == ds.len(),
        forall|i: int|
            1 <= i < ds.len() ==> #[trigger] spec_send_times(ds)[i] - spec_send_times(ds)[i - 1]
                == ds[i],
        ds.len() > 0 ==> spec_send_times(ds)[0] == ds[0],
    decreases ds.len(),
{
    if ds.len() > 0 {
        lemma_replay_gaps(ds.drop_last());
        let pre = spec_send_times(ds.drop_last());
        assert(forall|i: int|
            0 <= i < pre.len() ==> #[trigger] spec_send_times(ds)[i] == pre[i]);
    }
}

} // verus!
