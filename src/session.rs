use vstd::prelude::*;

use crate::distributor::{
    lemma_deliver_len, lemma_release_clears, spec_messages, Distributor, DistributorModel,
    PendingMessage,
};
use crate::errors::{
    spec_reason_of, DisconnectReasonCode, DistributorError, MqttCodecError,
};

verus! {

/// A packet from the peer, as the codec decoded it.
pub enum IncomingPacket {
    Connect,
    Publish { topic: Vec<u8>, payload: Vec<u8>, qos: u8 },
    Subscribe { filter: Vec<u8>, max_qos: u8 },
    Unsubscribe { filter: Vec<u8> },
    PingReq,
    Disconnect,
}

/// What the connection's driver hands the session.
pub enum SessionEvent {
    Packet(IncomingPacket),
    Codec(MqttCodecError),
    KeepAliveExpired,
}

#[derive(Clone, Copy, Debug, PartialEq, Eq, Structural)]
pub enum SessionState {
    AwaitingConnect,
    /// Connected, owning the given connection slot.
    Established(usize),
    /// The slot is released; a DISCONNECT with this reason is owed to the peer.
    Closing(DisconnectReasonCode),
    Closed,
}

/// What the driver must do after an event.
#[derive(Clone, Copy, Debug, PartialEq, Eq, Structural)]
pub enum SessionAction {
    Nothing,
    SendConnAck,
    SendSubAck,
    SendUnsubAck,
    SendPingResp,
    SendDisconnect(DisconnectReasonCode),
    CloseTransport,
}

/// Leaving an established session for a fatal reason: the slot is released
/// at once and a DISCONNECT with the reason is owed.
pub open spec fn spec_fail(d: DistributorModel, slot: usize, reason: DisconnectReasonCode) -> (
    SessionState,
    DistributorModel,
    SessionAction,
) {
    (SessionState::Closing(reason), d.release_connection(slot), SessionAction::SendDisconnect(reason))
}

/// The session's transition on one event, with its effect on the
/// distributor and the action owed to the transport.
pub open spec fn spec_step(st: SessionState, d: DistributorModel, ev: SessionEvent) -> (
    SessionState,
    DistributorModel,
    SessionAction,
) {
    match st {
        SessionState::AwaitingConnect => match ev {
            SessionEvent::Packet(IncomingPacket::Connect) => {
                let (d2, r) = d.register_connection();
                match r {
                    Ok(s) => (SessionState::Established(s), d2, SessionAction::SendConnAck),
                    Err(e) => (
                        SessionState::Closing(spec_reason_of(e)),
                        d2,
                        SessionAction::SendDisconnect(spec_reason_of(e)),
                    ),
                }
            },
            SessionEvent::Packet(_) => (
                SessionState::Closing(DisconnectReasonCode::ProtocolError),
                d,
                SessionAction::SendDisconnect(DisconnectReasonCode::ProtocolError),
            ),
            SessionEvent::Codec(MqttCodecError::Incomplete) => (st, d, SessionAction::Nothing),
            SessionEvent::Codec(MqttCodecError::ConnectionReset) => (
                SessionState::Closed,
                d,
                SessionAction::CloseTransport,
            ),
            SessionEvent::Codec(_) => (
                SessionState::Closing(DisconnectReasonCode::ProtocolError),
                d,
                SessionAction::SendDisconnect(DisconnectReasonCode::ProtocolError),
            ),
            SessionEvent::KeepAliveExpired => (
                SessionState::Closing(DisconnectReasonCode::KeepAliveTimeout),
                d,
                SessionAction::SendDisconnect(DisconnectReasonCode::KeepAliveTimeout),
            ),
        },
        SessionState::Established(s) => match ev {
            SessionEvent::Packet(IncomingPacket::Connect) => spec_fail(
                d,
                s,
                spec_reason_of(DistributorError::UnexpectedPacket),
            ),
            SessionEvent::Packet(IncomingPacket::Publish { topic, payload, qos }) => {
                let (d2, r) = d.publish(topic@, payload@, qos);
                match r {
                    Ok(()) => (st, d2, SessionAction::Nothing),
                    Err(e) => spec_fail(d2, s, spec_reason_of(e)),
                }
            },
            SessionEvent::Packet(IncomingPacket::Subscribe { filter, max_qos }) => {
                let (d2, r) = d.subscribe(s, filter@, max_qos);
                match r {
                    Ok(()) => (st, d2, SessionAction::SendSubAck),
                    Err(e) => spec_fail(d2, s, spec_reason_of(e)),
                }
            },
            SessionEvent::Packet(IncomingPacket::Unsubscribe { filter }) => (
                st,
                d.unsubscribe(s, filter@),
                SessionAction::SendUnsubAck,
            ),
            SessionEvent::Packet(IncomingPacket::PingReq) => (st, d, SessionAction::SendPingResp),
            SessionEvent::Packet(IncomingPacket::Disconnect) => (
                SessionState::Closed,
                d.release_connection(s),
                SessionAction::CloseTransport,
            ),
            SessionEvent::Codec(MqttCodecError::Incomplete) => (st, d, SessionAction::Nothing),
            SessionEvent::Codec(MqttCodecError::ConnectionReset) => (
                SessionState::Closed,
                d.release_connection(s),
                SessionAction::CloseTransport,
            ),
            SessionEvent::Codec(_) => spec_fail(d, s, DisconnectReasonCode::ProtocolError),
            SessionEvent::KeepAliveExpired => spec_fail(d, s, DisconnectReasonCode::KeepAliveTimeout),
        },
        _ => (st, d, SessionAction::Nothing),
    }
}

/// However an established session ends (a DISCONNECT, a reset, a codec or
/// distributor failure, an expired keep-alive), its slot is released: no
/// subscription of it is left, its queue is empty and the slot is free.
pub proof fn lemma_session_end_releases(slot: usize, d: DistributorModel, ev: SessionEvent)
    requires
        d.wf(),
        slot < d.live.len(),
    ensures
        ({
            let (st2, d2, _) = spec_step(SessionState::Established(slot), d, ev);
            !(st2 is Established) ==> {
                &&& !d2.registry.has_subscription_of(slot)
                &&& !d2.live[slot as int]
                &&& d2.queues[slot as int].len() == 0
            }
        }),
{
    lemma_release_clears(d, slot);
    match ev {
        SessionEvent::Packet(IncomingPacket::Publish { topic, payload, qos }) => {
            let d2 = d.publish(topic@, payload@, qos).0;
            lemma_deliver_len(d.queues, d.live, d.depth, d.registry.matching(topic@), topic@, payload@, qos);
            lemma_release_clears(d2, slot);
        },
        SessionEvent::Packet(IncomingPacket::Subscribe { filter, max_qos }) => {
            lemma_release_clears(d.subscribe(slot, filter@, max_qos).0, slot);
        },
        _ => {},
    }
}

/// The protocol state of one accepted connection.
pub struct Session {
    state: SessionState,
}

impl Session {
    /// Whether the session fits the distributor it runs against: an
    /// established session owns a slot of it.
    pub open spec fn fits(self, d: DistributorModel) -> bool {
        self.spec_state() matches SessionState::Established(s) ==> s < d.live.len()
    }

    pub closed spec fn spec_state(self) -> SessionState {
        self.state
    }

    /// A session that waits for CONNECT.
    pub fn new() -> (r: Session)
        ensures
            r.spec_state() == SessionState::AwaitingConnect,
    {
        Session { state: SessionState::AwaitingConnect }
    }

    pub fn state(&self) -> (r: SessionState)
        ensures
            r == self.spec_state(),
    {
        self.state
    }

    fn fail(&mut self, dist: &mut Distributor, slot: usize, reason: DisconnectReasonCode) -> (r:
        SessionAction)
        requires
            old(dist)@.wf(),
            slot < old(dist)@.live.len(),
        ensures
            final(dist)@.wf(),
            (final(self).spec_state(), final(dist)@, r) == spec_fail(old(dist)@, slot, reason),
    {
        dist.release_connection(slot);
        self.state = SessionState::Closing(reason);
        SessionAction::SendDisconnect(reason)
    }

    /// Handles one event: forwards packets to the distributor, and on any
    /// failure releases the slot and owes the peer a DISCONNECT with the
    /// failure's reason.
    pub fn handle(&mut self, dist: &mut Distributor, event: SessionEvent) -> (r: SessionAction)
        requires
            old(dist)@.wf(),
            old(self).fits(old(dist)@),
        ensures
            final(dist)@.wf(),
            final(self).fits(final(dist)@),
            (final(self).spec_state(), final(dist)@, r) == spec_step(
                old(self).spec_state(),
                old(dist)@,
                event,
            ),
    {
        match self.state {
            SessionState::AwaitingConnect => match event {
                SessionEvent::Packet(IncomingPacket::Connect) => match dist.register_connection() {
                    Ok(s) => {
                        self.state = SessionState::Established(s);
                        SessionAction::SendConnAck
                    },
                    Err(e) => {
                        let reason = DisconnectReasonCode::from(e);
                        self.state = SessionState::Closing(reason);
                        SessionAction::SendDisconnect(reason)
                    },
                },
                SessionEvent::Packet(_) => {
                    self.state = SessionState::Closing(DisconnectReasonCode::ProtocolError);
                    SessionAction::SendDisconnect(DisconnectReasonCode::ProtocolError)
                },
                SessionEvent::Codec(MqttCodecError::Incomplete) => SessionAction::Nothing,
                SessionEvent::Codec(MqttCodecError::ConnectionReset) => {
                    self.state = SessionState::Closed;
                    SessionAction::CloseTransport
                },
                SessionEvent::Codec(_) => {
                    self.state = SessionState::Closing(DisconnectReasonCode::ProtocolError);
                    SessionAction::SendDisconnect(DisconnectReasonCode::ProtocolError)
                },
                SessionEvent::KeepAliveExpired => {
                    self.state = SessionState::Closing(DisconnectReasonCode::KeepAliveTimeout);
                    SessionAction::SendDisconnect(DisconnectReasonCode::KeepAliveTimeout)
                },
            },
            SessionState::Established(s) => match event {
                SessionEvent::Packet(IncomingPacket::Connect) => self.fail(
                    dist,
                    s,
                    DisconnectReasonCode::from(DistributorError::UnexpectedPacket),
                ),
                SessionEvent::Packet(IncomingPacket::Publish { topic, payload, qos }) => {
                    match dist.publish(&topic, &payload, qos) {
                        Ok(()) => SessionAction::Nothing,
                        Err(e) => self.fail(dist, s, DisconnectReasonCode::from(e)),
                    }
                },
                SessionEvent::Packet(IncomingPacket::Subscribe { filter, max_qos }) => {
                    match dist.subscribe(s, &filter, max_qos) {
                        Ok(()) => SessionAction::SendSubAck,
                        Err(e) => self.fail(dist, s, DisconnectReasonCode::from(e)),
                    }
                },
                SessionEvent::Packet(IncomingPacket::Unsubscribe { filter }) => {
                    dist.unsubscribe(s, &filter);
                    SessionAction::SendUnsubAck
                },
                SessionEvent::Packet(IncomingPacket::PingReq) => SessionAction::SendPingResp,
                SessionEvent::Packet(IncomingPacket::Disconnect) => {
                    dist.release_connection(s);
                    self.state = SessionState::Closed;
                    SessionAction::CloseTransport
                },
                SessionEvent::Codec(MqttCodecError::Incomplete) => SessionAction::Nothing,
                SessionEvent::Codec(MqttCodecError::ConnectionReset) => {
                    dist.release_connection(s);
                    self.state = SessionState::Closed;
                    SessionAction::CloseTransport
                },
                SessionEvent::Codec(_) => self.fail(dist, s, DisconnectReasonCode::ProtocolError),
                SessionEvent::KeepAliveExpired => self.fail(
                    dist,
                    s,
                    DisconnectReasonCode::KeepAliveTimeout,
                ),
            },
            _ => SessionAction::Nothing,
        }
    }

    /// After the owed DISCONNECT was written, or failed to be: the session
    /// is over.
    pub fn finish(&mut self)
        ensures
            old(self).spec_state() matches SessionState::Closing(_) ==> final(self).spec_state()
                == SessionState::Closed,
            !(old(self).spec_state() matches SessionState::Closing(_)) ==> final(self).spec_state()
                == old(self).spec_state(),
    {
        if let SessionState::Closing(_) = self.state {
            self.state = SessionState::Closed;
        }
    }

    /// The messages waiting for this session, removed from its queue; none
    /// unless the session is established.
    pub fn take_outgoing(&self, dist: &mut Distributor) -> (r: Vec<PendingMessage>)
        requires
            old(dist)@.wf(),
            self.fits(old(dist)@),
        ensures
            final(dist)@.wf(),
            self.spec_state() matches SessionState::Established(s) ==> spec_messages(r@)
                == old(dist)@.queues[s as int] && final(dist)@ == old(dist)@.drain(s),
            !(self.spec_state() is Established) ==> r@.len() == 0 && final(dist)@ == old(dist)@,
    {
        match self.state {
            SessionState::Established(s) => dist.drain_outgoing(s),
            _ => Vec::new(),
        }
    }
}

} // verus!
