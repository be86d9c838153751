//! The announcer and listener loops, as state machines.
//!
//! Each loop alternates outside work (socket setup, a send, a receive, the
//! inter-announcement delay) with a decision. The decisions stand here as
//! total step functions from state and event to next state and action; the
//! surrounding process performs the action, observes the event, and steps
//! again. A fatal event halts the task and surfaces its error through the
//! fan-out; a malformed datagram is deliberately not fatal: the listener
//! skips it and keeps listening, treating it as noise from other traffic
//! on the shared group and port.

use vstd::prelude::*;

verus! {

/// Seconds between two announcements of the same sender.
pub const ANNOUNCE_INTERVAL_SECS: u64 = 5;

/// The listener's receive buffer length in bytes: a datagram longer than
/// this is truncated and then rejected by the decoder, which bounds the
/// size of a well-formed record on the wire.
pub const RECV_BUFFER_LEN: usize = 1024;

#[derive(Clone, Copy, PartialEq, Eq, Structural, Debug)]
pub enum AnnouncerState {
    /// Before setup: the socket is not yet bound or configured.
    Idle,
    /// Setup done; the first announcement has not yet been sent.
    Bound,
    /// In the periodic send-and-wait cycle.
    Announcing,
    /// A fatal error ended the task.
    Failed,
}

/// What the process last observed while driving an announcer.
#[derive(Clone, Copy, PartialEq, Eq, Structural, Debug)]
pub enum AnnouncerEvent {
    SetupOk,
    SetupFailed,
    SendOk,
    SendFailed,
    /// The inter-announcement delay elapsed.
    Woke,
}

/// What the process must do next for an announcer.
#[derive(Clone, Copy, PartialEq, Eq, Structural, Debug)]
pub enum AnnouncerAction {
    /// Apply the sender setup plan to a fresh socket.
    PerformSetup,
    /// Send the serialized record as one datagram to the group and port.
    SendDatagram,
    /// Wait the fixed announcement interval.
    Sleep,
    /// Stop the task; on a failure event its error is the task's result.
    Halt,
}

/// The announcer's transition function. An event that cannot follow from
/// the actions this machine hands out is treated as fatal.
pub open spec fn spec_announcer_step(s: AnnouncerState, e: AnnouncerEvent) -> (
    AnnouncerState,
    AnnouncerAction,
) {
    match (s, e) {
        (AnnouncerState::Idle, AnnouncerEvent::SetupOk) => (
            AnnouncerState::Bound,
            AnnouncerAction::SendDatagram,
        ),
        (AnnouncerState::Bound, AnnouncerEvent::SendOk) => (
            AnnouncerState::Announcing,
            AnnouncerAction::Sleep,
        ),
        (AnnouncerState::Announcing, AnnouncerEvent::Woke) => (
            AnnouncerState::Announcing,
            AnnouncerAction::SendDatagram,
        ),
        (AnnouncerState::Announcing, AnnouncerEvent::SendOk) => (
            AnnouncerState::Announcing,
            AnnouncerAction::Sleep,
        ),
        _ => (AnnouncerState::Failed, AnnouncerAction::Halt),
    }
}

/// Where every announcer starts: idle, with its socket setup still to do.
pub fn announcer_init() -> (r: (AnnouncerState, AnnouncerAction))
    ensures
        r == (AnnouncerState::Idle, AnnouncerAction::PerformSetup),
{
    (AnnouncerState::Idle, AnnouncerAction::PerformSetup)
}

/// One announcer decision.
pub fn announcer_step(s: AnnouncerState, e: AnnouncerEvent) -> (r: (
    AnnouncerState,
    AnnouncerAction,
))
    ensures
        r == spec_announcer_step(s, e),
{
    match (s, e) {
        (AnnouncerState::Idle, AnnouncerEvent::SetupOk) => (
            AnnouncerState::Bound,
            AnnouncerAction::SendDatagram,
        ),
        (AnnouncerState::Bound, AnnouncerEvent::SendOk) => (
            AnnouncerState::Announcing,
            AnnouncerAction::Sleep,
        ),
        (AnnouncerState::Announcing, AnnouncerEvent::Woke) => (
            AnnouncerState::Announcing,
            AnnouncerAction::SendDatagram,
        ),
        (AnnouncerState::Announcing, AnnouncerEvent::SendOk) => (
            AnnouncerState::Announcing,
            AnnouncerAction::Sleep,
        ),
        _ => (AnnouncerState::Failed, AnnouncerAction::Halt),
    }
}

/// The announcer's pacing: every successful send is followed by exactly
/// one full interval of sleep, and waking leads straight to the next send,
/// so a healthy announcer emits one datagram per interval.
pub proof fn lemma_announcer_paces()
    ensures
        forall|s: AnnouncerState|
            spec_announcer_step(s, AnnouncerEvent::SendOk).1 == AnnouncerAction::Sleep || #[trigger]
                spec_announcer_step(s, AnnouncerEvent::SendOk).1 == AnnouncerAction::Halt,
        spec_announcer_step(AnnouncerState::Announcing, AnnouncerEvent::Woke) == (
            AnnouncerState::Announcing,
            AnnouncerAction::SendDatagram,
        ),
        spec_announcer_step(AnnouncerState::Announcing, AnnouncerEvent::SendOk) == (
            AnnouncerState::Announcing,
            AnnouncerAction::Sleep,
        ),
{
}

#[derive(Clone, Copy, PartialEq, Eq, Structural, Debug)]
pub enum ListenerState {
    /// Before setup: the socket is not yet bound or configured.
    Idle,
    /// Setup done; nothing received yet.
    Bound,
    /// In the receive cycle.
    Listening,
    /// A fatal error ended the task.
    Failed,
}

/// What the process last observed while driving a listener.
#[derive(Clone, Copy, PartialEq, Eq, Structural, Debug)]
pub enum ListenerEvent {
    SetupOk,
    SetupFailed,
    /// A datagram arrived; `well_formed` says whether it decoded to a
    /// record.
    Received { well_formed: bool },
    ReceiveFailed,
}

/// What the process must do next for a listener.
#[derive(Clone, Copy, PartialEq, Eq, Structural, Debug)]
pub enum ListenerAction {
    /// Apply the receiver setup plan, under the coordinator's permit.
    PerformSetup,
    /// Wait for the next datagram.
    AwaitDatagram,
    /// Report the decoded record and its source address, then wait for the
    /// next datagram.
    ReportAndAwait,
    /// Stop the task; on a failure event its error is the task's result.
    Halt,
}

/// The listener's transition function. A datagram that does not decode is
/// skipped, not fatal; a receive error ends the task.
pub open spec fn spec_listener_step(s: ListenerState, e: ListenerEvent) -> (
    ListenerState,
    ListenerAction,
) {
    match (s, e) {
        (ListenerState::Idle, ListenerEvent::SetupOk) => (
            ListenerState::Bound,
            ListenerAction::AwaitDatagram,
        ),
        (ListenerState::Bound, ListenerEvent::Received { well_formed }) => (
            ListenerState::Listening,
            if well_formed {
                ListenerAction::ReportAndAwait
            } else {
                ListenerAction::AwaitDatagram
            },
        ),
        (ListenerState::Listening, ListenerEvent::Received { well_formed }) => (
            ListenerState::Listening,
            if well_formed {
                ListenerAction::ReportAndAwait
            } else {
                ListenerAction::AwaitDatagram
            },
        ),
        _ => (ListenerState::Failed, ListenerAction::Halt),
    }
}

/// Where every listener starts: idle, with its socket setup still to do.
pub fn listener_init() -> (r: (ListenerState, ListenerAction))
    ensures
        r == (ListenerState::Idle, ListenerAction::PerformSetup),
{
    (ListenerState::Idle, ListenerAction::PerformSetup)
}

/// One listener decision.
pub fn listener_step(s: ListenerState, e: ListenerEvent) -> (r: (ListenerState, ListenerAction))
    ensures
        r == spec_listener_step(s, e),
{
    match (s, e) {
        (ListenerState::Idle, ListenerEvent::SetupOk) => (
            ListenerState::Bound,
            ListenerAction::AwaitDatagram,
        ),
        (ListenerState::Bound, ListenerEvent::Received { well_formed }) => (
            ListenerState::Listening,
            if well_formed {
                ListenerAction::ReportAndAwait
            } else {
                ListenerAction::AwaitDatagram
            },
        ),
        (ListenerState::Listening, ListenerEvent::Received { well_formed }) => (
            ListenerState::Listening,
            if well_formed {
                ListenerAction::ReportAndAwait
            } else {
                ListenerAction::AwaitDatagram
            },
        ),
        _ => (ListenerState::Failed, ListenerAction::Halt),
    }
}

/// The malformed-datagram policy, stated once: a datagram that fails to
/// decode never ends a listening task; the listener reports nothing and
/// waits for the next datagram.
pub proof fn lemma_malformed_is_skipped(s: ListenerState)
    requires
        s == ListenerState::Bound || s == ListenerState::Listening,
    ensures
        spec_listener_step(s, ListenerEvent::Received { well_formed: false }) == (
            ListenerState::Listening,
            ListenerAction::AwaitDatagram,
        ),
        spec_listener_step(s, ListenerEvent::Received { well_formed: true }) == (
            ListenerState::Listening,
            ListenerAction::ReportAndAwait,
        ),
{
}

} // verus!
