//! The receive loop's decisions, as a pure step function: what to do with
//! each receive outcome, given the stop signal and the filter. The loop
//! itself, with its blocking receive, runs at the caller's edge and only
//! performs the actions decided here.

use vstd::prelude::*;
use crate::envelope::Envelope;
use crate::filter::FilterSpec;

verus! {

/// The listener's lifecycle.
#[derive(Clone, Copy, Debug, PartialEq, Eq, Structural)]
pub enum ListenerState {
    Idle,
    Running,
    Stopped,
}

/// What one receive attempt produced, as handed in from the edge.
pub enum RecvEvent {
    /// A message arrived.
    Message(Envelope),
    /// A transient failure: a timeout or a momentary error, with its text.
    Transient(String),
    /// A fatal failure: the connection is gone, with its text.
    Fatal(String),
}

/// What the loop must do next.
pub enum ListenerAction {
    /// Hand the envelope to every subscriber, in receipt order.
    Dispatch(Envelope),
    /// Drop the envelope: the filter refused it.
    Discard(Envelope),
    /// Log the transient failure and keep receiving.
    LogTransient(String),
    /// Surface the fatal failure once and exit the loop.
    ExitFatal(String),
    /// Exit the loop quietly: the stop signal was seen.
    ExitStopped,
}

/// Decides one step of the receive loop. Once the stop signal is seen the
/// loop exits and the connection is never touched again; a fatal receive
/// failure stops the loop; everything else keeps it running. An envelope
/// is dispatched exactly when the filter includes its system and component
/// ids.
pub fn listener_step(stop_seen: bool, filter: &FilterSpec, event: RecvEvent) -> (r: (
    ListenerState,
    ListenerAction,
))
    ensures
        stop_seen ==> r.0 == ListenerState::Stopped && r.1 == ListenerAction::ExitStopped,
        !stop_seen ==> match event {
            RecvEvent::Message(env) => r.0 == ListenerState::Running && if filter.spec_included(
                env.system_id,
                env.component_id,
            ) {
                r.1 == ListenerAction::Dispatch(env)
            } else {
                r.1 == ListenerAction::Discard(env)
            },
            RecvEvent::Transient(text) => r.0 == ListenerState::Running && r.1
                == ListenerAction::LogTransient(text),
            RecvEvent::Fatal(text) => r.0 == ListenerState::Stopped && r.1
                == ListenerAction::ExitFatal(text),
        },
{
    if stop_seen {
        return (ListenerState::Stopped, ListenerAction::ExitStopped);
    }
    match event {
        RecvEvent::Message(env) => {
            if filter.included(env.system_id, env.component_id) {
                (ListenerState::Running, ListenerAction::Dispatch(env))
            } else {
                (ListenerState::Running, ListenerAction::Discard(env))
            }
        },
        RecvEvent::Transient(text) => (ListenerState::Running, ListenerAction::LogTransient(text)),
        RecvEvent::Fatal(text) => (ListenerState::Stopped, ListenerAction::ExitFatal(text)),
    }
}

/// The events of one session, reduced to what the listener dispatches: the
/// included envelopes, in receipt order.
pub open spec fn spec_dispatched(
    events: Seq<crate::envelope::EnvelopeView>,
    filter: FilterSpec,
) -> Seq<crate::envelope::EnvelopeView>
    decreases events.len(),
{
    if events.len() == 0 {
        Seq::empty()
    } else {
        let rest = spec_dispatched(events.drop_first(), filter);
        if filter.spec_included(events[0].system_id, events[0].component_id) {
            seq![events[0]] + rest
        } else {
            rest
        }
    }
}

/// Dispatch preserves receipt order and loses nothing the filter includes:
/// what reaches the subscribers is exactly the included subsequence of what
/// was received, in order. Stated of the reduction that `listener_step`
/// performs message by message.
pub proof fn lemma_dispatch_preserves_order(
    events: Seq<crate::envelope::EnvelopeView>,
    filter: FilterSpec,
)
    ensures
        spec_dispatched(events, filter).len() <= events.len(),
        forall|i: int|
            0 <= i < spec_dispatched(events, filter).len() ==> filter.spec_included(
                (#[trigger] spec_dispatched(events, filter)[i]).system_id,
                spec_dispatched(events, filter)[i].component_id,
            ),
        events.len() > 0 ==> spec_dispatched(events, filter) == if filter.spec_included(
            events[0].system_id,
            events[0].component_id,
        ) {
            seq![events[0]] + spec_dispatched(events.drop_first(), filter)
        } else {
            spec_dispatched(events.drop_first(), filter)
        },
    decreases events.len(),
{
    if events.len() > 0 {
        lemma_dispatch_preserves_order(events.drop_first(), filter);
    }
}

/// The fixed heartbeat identity and payload, in plain values: a generic
/// vehicle type, an invalid autopilot, an active system status.
pub struct HeartbeatData {
    pub custom_mode: u32,
    pub mavtype: u8,
    pub autopilot: u8,
    pub base_mode: u8,
    pub system_status: u8,
    pub mavlink_version: u8,
}

/// The header the heartbeat is sent with.
#[derive(Clone, Copy, Debug, PartialEq, Eq, Structural)]
pub struct HeartbeatHeader {
    pub system_id: u8,
    pub component_id: u8,
    pub sequence: u8,
}

/// Builds the heartbeat that the emitter sends: fixed payload values and
/// the configured identity, sequence zero.
pub fn heartbeat_message(system_id: u8, component_id: u8) -> (r: (HeartbeatHeader, HeartbeatData))
    ensures
        r.0 == (HeartbeatHeader { system_id, component_id, sequence: 0u8 }),
        r.1.custom_mode == 0,
        r.1.mavtype == 0,
        r.1.autopilot == 8,
        r.1.base_mode == 0,
        r.1.system_status == 4,
        r.1.mavlink_version == 3,
{
    (
        HeartbeatHeader { system_id, component_id, sequence: 0 },
        HeartbeatData {
            custom_mode: 0,
            mavtype: 0,
            autopilot: 8,
            base_mode: 0,
            system_status: 4,
            mavlink_version: 3,
        },
    )
}

/// What the heartbeat loop does next.
#[derive(Clone, Copy, Debug, PartialEq, Eq, Structural)]
pub enum HeartbeatAction {
    /// Send one heartbeat, release the connection, sleep one interval.
    SendAndSleep,
    /// Exit the loop: the stop signal was seen.
    Exit,
}

/// Decides one step of the heartbeat loop: it sends until the stop signal
/// is seen, and never touches the connection after that.
pub fn heartbeat_step(stop_seen: bool) -> (a: HeartbeatAction)
    ensures
        a == HeartbeatAction::Exit <==> stop_seen,
{
    if stop_seen {
        HeartbeatAction::Exit
    } else {
        HeartbeatAction::SendAndSleep
    }
}

} // verus!
