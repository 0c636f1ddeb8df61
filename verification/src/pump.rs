//! The proxy pump's decision core.  Once the handshake completes, a session
//! is two byte streams under one loop: the loop waits on whichever leg turns
//! ready first, then asks `ProxySession::step` what that occurrence means.
//! The step function is total over events, so every outcome the legs can
//! produce — frames, reads, would-block, errors — has one decided meaning;
//! the waiting, reading and writing themselves stay with the caller.

use vstd::prelude::*;

use crate::ErrorKind;

verus! {

/// One frame handed up by the framing collaborator.
pub enum FrameIn {
    /// A Binary frame, with its payload.
    Binary(Vec<u8>),
    /// A Close frame: the client ended the session.
    Close,
    /// Any other frame — text, ping, pong, continuation — which the framing
    /// collaborator owns and the pump leaves alone.
    Other,
}

/// What one attempted non-blocking read of the outbound socket yielded.
pub enum OutboundRead {
    /// More than zero bytes: the bytes themselves.
    Data(Vec<u8>),
    /// A zero-length read: the peer closed cleanly.
    Closed,
    /// The readiness was a false positive; nothing was read.
    WouldBlock,
    /// A hard read error.
    Failed,
}

/// One thing that happened on either leg of an active session.
pub enum PumpEvent {
    /// The next inbound frame arrived.
    Inbound(FrameIn),
    /// Reading the next inbound frame failed.
    InboundFailed,
    /// The outbound socket turned readable and one read was attempted.
    Outbound(OutboundRead),
    /// A write or flush on either leg failed.
    WriteFailed,
}

/// What the caller must now do.
pub enum PumpAction {
    /// Write these bytes to the outbound socket, as one write, then flush.
    Forward(Vec<u8>),
    /// Send these bytes inbound as exactly one final Binary frame.
    Emit(Vec<u8>),
    /// Nothing to do: re-arm the readiness wait and keep looping.
    Idle,
    /// The session is over; the kind says whether cleanly or not.
    Stop(ErrorKind),
}

/// The meaning of each event, in one place.  A Binary payload crosses
/// verbatim; a Close frame or a zero-length read ends the session cleanly;
/// would-block is absorbed; every hard error is fatal to the whole session.
pub open spec fn pump_decision(e: PumpEvent) -> PumpAction {
    match e {
        PumpEvent::Inbound(FrameIn::Binary(p)) => PumpAction::Forward(p),
        PumpEvent::Inbound(FrameIn::Close) => PumpAction::Stop(ErrorKind::TransportClosed),
        PumpEvent::Inbound(FrameIn::Other) => PumpAction::Idle,
        PumpEvent::InboundFailed => PumpAction::Stop(ErrorKind::IoFailure),
        PumpEvent::Outbound(OutboundRead::Data(p)) => PumpAction::Emit(p),
        PumpEvent::Outbound(OutboundRead::Closed) => PumpAction::Stop(
            ErrorKind::TransportClosed,
        ),
        PumpEvent::Outbound(OutboundRead::WouldBlock) => PumpAction::Idle,
        PumpEvent::Outbound(OutboundRead::Failed) => PumpAction::Stop(ErrorKind::IoFailure),
        PumpEvent::WriteFailed => PumpAction::Stop(ErrorKind::IoFailure),
    }
}

/// The pairing of one inbound (frame-carrying) leg and one outbound (raw)
/// leg.  It is live from handshake completion until the first terminal
/// event on either side; there is no reconnection or resumption.
pub struct ProxySession {
    active: bool,
}

impl ProxySession {
    /// Whether the session has not yet seen a terminal event.
    pub closed spec fn is_active(&self) -> bool {
        self.active
    }

    /// Whether the session still takes events.
    pub fn active(&self) -> (b: bool)
        ensures
            b == self.is_active(),
    {
        self.active
    }

    /// Enter the one live state, on handshake completion.
    pub fn begin() -> (s: ProxySession)
        ensures
            s.is_active(),
    {
        ProxySession { active: true }
    }

    /// Decide what one event means.  Only an active session takes events,
    /// and it stays active exactly until the first stopping decision.
    pub fn step(&mut self, e: PumpEvent) -> (a: PumpAction)
        requires
            old(self).is_active(),
        ensures
            a == pump_decision(e),
            final(self).is_active() <==> !(a is Stop),
    {
        let a = pump_step(e);
        if let PumpAction::Stop(_) = &a {
            self.active = false;
        }
        a
    }
}

/// Decide what one event means, statelessly.
pub fn pump_step(e: PumpEvent) -> (a: PumpAction)
    ensures
        a == pump_decision(e),
{
    match e {
        PumpEvent::Inbound(FrameIn::Binary(p)) => PumpAction::Forward(p),
        PumpEvent::Inbound(FrameIn::Close) => PumpAction::Stop(ErrorKind::TransportClosed),
        PumpEvent::Inbound(FrameIn::Other) => PumpAction::Idle,
        PumpEvent::InboundFailed => PumpAction::Stop(ErrorKind::IoFailure),
        PumpEvent::Outbound(OutboundRead::Data(p)) => PumpAction::Emit(p),
        PumpEvent::Outbound(OutboundRead::Closed) => PumpAction::Stop(
            ErrorKind::TransportClosed,
        ),
        PumpEvent::Outbound(OutboundRead::WouldBlock) => PumpAction::Idle,
        PumpEvent::Outbound(OutboundRead::Failed) => PumpAction::Stop(ErrorKind::IoFailure),
        PumpEvent::WriteFailed => PumpAction::Stop(ErrorKind::IoFailure),
    }
}

/// Payloads cross the pump verbatim: a Binary frame's bytes become exactly
/// one outbound write, and bytes read outbound become exactly one final
/// Binary frame, in both cases unchanged.
pub proof fn lemma_pump_forwards_verbatim(p: Vec<u8>)
    ensures
        pump_decision(PumpEvent::Inbound(FrameIn::Binary(p))) == PumpAction::Forward(p),
        pump_decision(PumpEvent::Outbound(OutboundRead::Data(p))) == PumpAction::Emit(p),
{
}

/// An inbound Close frame and a zero-length outbound read both end the
/// session cleanly — through the transport-closed path, never as an I/O
/// failure — and a would-block read is absorbed without any action.
pub proof fn lemma_clean_endings()
    ensures
        pump_decision(PumpEvent::Inbound(FrameIn::Close)) == PumpAction::Stop(
            ErrorKind::TransportClosed,
        ),
        pump_decision(PumpEvent::Outbound(OutboundRead::Closed)) == PumpAction::Stop(
            ErrorKind::TransportClosed,
        ),
        pump_decision(PumpEvent::Outbound(OutboundRead::WouldBlock)) == PumpAction::Idle,
{
}

} // verus!
