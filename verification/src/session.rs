//! The session engine: one end of a point-to-point link.
//!
//! A session owns a codec, the receive and transmit counters, the
//! transmit history and the connection state.  It performs no input or
//! output.  Each entry point takes what the host has for it (an octet
//! from the transport, a payload from the application) and returns what
//! the host must do next: the octets to put on the wire, the payload to
//! hand to the application, and whether the connection has just been
//! established.
//!
//! The session is modelled by [`SessionState`] and its transitions
//! [`SessionState::connect`], [`SessionState::deliver`] and
//! [`SessionState::write`]; the entry points of [`Context`] are proved
//! to take exactly those transitions.

use vstd::prelude::*;
use crate::codec::{Codec, CodecState};
use crate::history::{History, HistoryState, HISTORY_SIZE};
use crate::packet::{
    Frame, SfpError, SfpPacket, SfpResult, SEQ_MAX, SEQ_SYN0, SEQ_SYN1, SEQ_SYN2, SEQ_SYN_DIS,
};
use crate::wire::encoded;

verus! {

/// Where the three-way handshake stands.
#[allow(non_camel_case_types)]
#[derive(Clone, Copy, PartialEq, Eq, Structural, Debug)]
pub enum ConnectState {
    /// No connection, and none being made.
    DISCONNECTED,
    /// The first step has been sent; the second is awaited.
    SENT_SYN0,
    /// The second step has been sent; the third is awaited.
    SENT_SYN1,
    /// The handshake is complete.
    CONNECTED,
}

/// What the host must do after an entry point has returned.
#[derive(PartialEq, Eq, Debug)]
pub struct Reaction {
    /// A payload to hand to the application.
    pub delivered: Option<Vec<u8>>,
    /// The wire image of a frame to put on the transport.
    pub outbound: Option<Vec<u8>>,
    /// The connection has been established by this call.
    pub established: bool,
}

/// The mathematical value of a [`Reaction`].
pub struct Effects {
    pub delivered: Option<Seq<u8>>,
    pub outbound: Option<Seq<u8>>,
    pub established: bool,
}

impl Effects {
    /// Nothing to do.
    pub open spec fn nothing() -> Effects {
        Effects { delivered: None, outbound: None, established: false }
    }

    /// Hand `payload` to the application.
    pub open spec fn hand_over(payload: Seq<u8>) -> Effects {
        Effects { delivered: Some(payload), outbound: None, established: false }
    }

    /// Put `frame` on the wire.
    pub open spec fn emit(frame: Frame) -> Effects {
        Effects { delivered: None, outbound: Some(encoded(frame)), established: false }
    }
}

impl View for Reaction {
    type V = Effects;

    open spec fn view(&self) -> Effects {
        Effects {
            delivered: match self.delivered {
                Some(payload) => Some(payload@),
                None => None,
            },
            outbound: match self.outbound {
                Some(wire) => Some(wire@),
                None => None,
            },
            established: self.established,
        }
    }
}

/// The sequence number after `seq`: one more, and zero after the largest.
pub open spec fn next_seq(seq: u8) -> u8 {
    if seq >= SEQ_MAX {
        0
    } else {
        (seq + 1) as u8
    }
}

/// The state of a session.
pub struct SessionState {
    /// The decoder.
    pub codec: CodecState,
    /// Sequence number expected next from the peer.
    pub rx_seq: u8,
    /// Sequence number of the next user frame to send.
    pub tx_seq: u8,
    /// The user frames sent last.
    pub history: HistoryState,
    /// Where the handshake stands.
    pub connect_state: ConnectState,
}

impl SessionState {
    /// A new session: disconnected, counters at zero, nothing received
    /// and nothing sent.
    pub open spec fn initial(capacity: nat) -> SessionState {
        SessionState {
            codec: CodecState::initial(),
            rx_seq: 0,
            tx_seq: 0,
            history: HistoryState::empty(capacity),
            connect_state: ConnectState::DISCONNECTED,
        }
    }

    /// Both counters fit in six bits and the history is within its
    /// capacity.
    pub open spec fn wf(self) -> bool {
        &&& self.rx_seq <= SEQ_MAX
        &&& self.tx_seq <= SEQ_MAX
        &&& self.history.wf()
    }

    /// Starting the handshake, from any state: counters and decoder start
    /// afresh, the first step goes out and its answer is awaited.  The
    /// history stays, so that it can then hold two frames with one
    /// number: one written before, one after.
    pub open spec fn connect(self) -> (SessionState, Seq<u8>) {
        (
            SessionState {
                codec: CodecState::initial(),
                rx_seq: 0,
                tx_seq: 0,
                connect_state: ConnectState::SENT_SYN0,
                ..self
            },
            encoded(Frame::Syn { seq: SEQ_SYN0 }),
        )
    }

    /// A write by the application.  Connected, the payload goes out as a
    /// user frame with the next transmit number, enters the history, and
    /// the number advances.  Otherwise the write is refused and nothing
    /// changes.
    pub open spec fn write(self, payload: Seq<u8>) -> (SessionState, Result<Seq<u8>, SfpError>) {
        if self.connect_state == ConnectState::CONNECTED {
            (
                SessionState {
                    tx_seq: next_seq(self.tx_seq),
                    history: self.history.push(self.tx_seq, payload),
                    ..self
                },
                Ok(encoded(Frame::Usr { seq: self.tx_seq, payload })),
            )
        } else {
            (self, Err(SfpError::NotConnected))
        }
    }

    /// What a control frame with step `step` does.
    ///
    /// | step | new state | effect |
    /// |---|---|---|
    /// | first | second step sent | the second step goes out |
    /// | second | connected | the third step goes out; the connection is established |
    /// | third, while the second step was sent | connected | none |
    /// | third, otherwise | unchanged | none |
    /// | disconnect | disconnected | none |
    /// | any other | unchanged | `InvalidSyn` |
    pub open spec fn handle_syn(self, step: u8) -> (SessionState, Result<Effects, SfpError>) {
        if step == SEQ_SYN0 {
            (
                SessionState { connect_state: ConnectState::SENT_SYN1, ..self },
                Ok(Effects::emit(Frame::Syn { seq: SEQ_SYN1 })),
            )
        } else if step == SEQ_SYN1 {
            (
                SessionState { connect_state: ConnectState::CONNECTED, ..self },
                Ok(
                    Effects {
                        delivered: None,
                        outbound: Some(encoded(Frame::Syn { seq: SEQ_SYN2 })),
                        established: true,
                    },
                ),
            )
        } else if step == SEQ_SYN2 {
            if self.connect_state == ConnectState::SENT_SYN1 {
                (
                    SessionState { connect_state: ConnectState::CONNECTED, ..self },
                    Ok(Effects::nothing()),
                )
            } else {
                (self, Ok(Effects::nothing()))
            }
        } else if step == SEQ_SYN_DIS {
            (
                SessionState { connect_state: ConnectState::DISCONNECTED, ..self },
                Ok(Effects::nothing()),
            )
        } else {
            (self, Err(SfpError::InvalidSyn))
        }
    }

    /// What a framing error does: connected, a negative acknowledgement
    /// with the number expected next goes out; otherwise nothing happens.
    pub open spec fn reject(self) -> Effects {
        if self.connect_state == ConnectState::CONNECTED {
            Effects::emit(Frame::Nak { seq: self.rx_seq })
        } else {
            Effects::nothing()
        }
    }

    /// What a frame or framing error completed by the decoder does.
    ///
    /// - A user frame with the number expected next is handed to the
    ///   application and the number advances; with any other number it
    ///   is dropped and a negative acknowledgement with the number
    ///   expected next goes out.
    /// - A retransmission is treated alike, but with another number it
    ///   is dropped without an answer.
    /// - A negative acknowledgement has the frame of that number sent
    ///   again as a retransmission, if the history holds it; if not,
    ///   the outcome is `HistoryMiss`.
    /// - A control frame drives the handshake.
    /// - A framing error is answered as [`SessionState::reject`] says.
    pub open spec fn route(self, event: Result<Frame, SfpError>) -> (
        SessionState,
        Result<Effects, SfpError>,
    ) {
        match event {
            Ok(Frame::Usr { seq, payload }) => {
                if seq == self.rx_seq {
                    (SessionState { rx_seq: next_seq(seq), ..self }, Ok(Effects::hand_over(payload)))
                } else {
                    (self, Ok(Effects::emit(Frame::Nak { seq: self.rx_seq })))
                }
            },
            Ok(Frame::Rtx { seq, payload }) => {
                if seq == self.rx_seq {
                    (SessionState { rx_seq: next_seq(seq), ..self }, Ok(Effects::hand_over(payload)))
                } else {
                    (self, Ok(Effects::nothing()))
                }
            },
            Ok(Frame::Nak { seq }) => {
                match self.history.lookup(seq) {
                    Some(payload) => (self, Ok(Effects::emit(Frame::Rtx { seq, payload }))),
                    None => (self, Err(SfpError::HistoryMiss)),
                }
            },
            Ok(Frame::Syn { seq }) => self.handle_syn(seq),
            Err(_) => (self, Ok(self.reject())),
        }
    }

    /// The transition for one octet from the transport: the decoder
    /// takes the octet, and what it completes, if anything, is routed.
    pub open spec fn deliver(self, octet: u8) -> (SessionState, Result<Effects, SfpError>) {
        let decoded = self.codec.step(octet);
        let session = SessionState { codec: decoded.0, ..self };
        match decoded.1 {
            Some(event) => session.route(event),
            None => (session, Ok(Effects::nothing())),
        }
    }
}

/// The sequence number after `seq`.
pub fn next_seq_num(seq: u8) -> (next: u8)
    ensures
        next == next_seq(seq),
        next <= SEQ_MAX,
        seq <= SEQ_MAX ==> next == (seq + 1) % 64,
{
    if seq >= SEQ_MAX {
        0
    } else {
        seq + 1
    }
}

/// One end of a link.
pub struct Context {
    codec: Codec,
    rx_seq: u8,
    tx_seq: u8,
    history: History,
    connect_state: ConnectState,
}

impl View for Context {
    type V = SessionState;

    closed spec fn view(&self) -> SessionState {
        SessionState {
            codec: self.codec@,
            rx_seq: self.rx_seq,
            tx_seq: self.tx_seq,
            history: self.history@,
            connect_state: self.connect_state,
        }
    }
}

impl Reaction {
    /// Nothing to do.
    fn nothing() -> (reaction: Reaction)
        ensures
            reaction@ == Effects::nothing(),
    {
        Reaction { delivered: None, outbound: None, established: false }
    }

    /// Put `wire` on the transport.
    fn emit(wire: Vec<u8>) -> (reaction: Reaction)
        ensures
            reaction@ == (Effects { delivered: None, outbound: Some(wire@), established: false }),
    {
        Reaction { delivered: None, outbound: Some(wire), established: false }
    }

    /// Hand `payload` to the application.
    fn hand_over(payload: Vec<u8>) -> (reaction: Reaction)
        ensures
            reaction@ == Effects::hand_over(payload@),
    {
        Reaction { delivered: Some(payload), outbound: None, established: false }
    }
}

impl Context {
    /// A disconnected session whose history holds [`HISTORY_SIZE`]
    /// frames.
    pub fn new() -> (session: Context)
        ensures
            session@ == SessionState::initial(HISTORY_SIZE as nat),
            session@.wf(),
    {
        Context::with_history_size(HISTORY_SIZE)
    }

    /// A disconnected session whose history holds `capacity` frames.
    ///
    /// Two frames held at once can bear the same sequence number: when
    /// the capacity is above 64, and with any capacity after
    /// [`Context::connect`], which starts the numbers afresh and keeps
    /// the history.  A retransmission then serves the older of the two.
    pub fn with_history_size(capacity: usize) -> (session: Context)
        ensures
            session@ == SessionState::initial(capacity as nat),
            session@.wf(),
    {
        Context {
            codec: Codec::new(),
            rx_seq: 0,
            tx_seq: 0,
            history: History::new(capacity),
            connect_state: ConnectState::DISCONNECTED,
        }
    }

    /// Begins the handshake and returns the wire image of its first
    /// step.  May be called in any state, also to start over; the state
    /// is then to be watched through [`Context::connect_state`].
    ///
    /// The counters start at zero again and the history stays.  Frames
    /// written before the call are therefore still served to a negative
    /// acknowledgement, and until they are evicted they come before
    /// frames that bear the same numbers after it.
    pub fn connect(&mut self) -> (wire: Vec<u8>)
        ensures
            final(self)@ == old(self)@.connect().0,
            wire@ == old(self)@.connect().1,
    {
        self.codec.reset();
        self.rx_seq = 0;
        self.tx_seq = 0;
        self.connect_state = ConnectState::SENT_SYN0;
        self.write_packet(SfpPacket::Syn { seq: SEQ_SYN0 })
    }

    /// Where the handshake stands.
    pub fn connect_state(&self) -> (state: &ConnectState)
        ensures
            *state == self@.connect_state,
    {
        &self.connect_state
    }

    /// Takes one octet from the transport and says what the host must do
    /// about it.  An error means that the peer asked for what cannot be
    /// done: a retransmission that the history no longer holds, or an
    /// unknown step of the handshake.  Framing errors are no errors here:
    /// they are answered on the wire.
    pub fn deliver(&mut self, octet: u8) -> (outcome: SfpResult<Reaction>)
        ensures
            final(self)@ == old(self)@.deliver(octet).0,
            match outcome {
                Ok(reaction) => old(self)@.deliver(octet).1 == Ok::<Effects, SfpError>(
                    reaction@,
                ),
                Err(error) => old(self)@.deliver(octet).1 == Err::<Effects, SfpError>(error),
            },
    {
        match self.codec.deliver(octet) {
            Some(Ok(packet)) => {
                match packet {
                    SfpPacket::Usr { seq, buf } => {
                        if self.rx_seq == seq {
                            self.rx_seq = next_seq_num(seq);
                            Ok(Reaction::hand_over(buf))
                        } else {
                            let expected = self.rx_seq;
                            let wire = self.write_packet(SfpPacket::Nak { seq: expected });
                            Ok(Reaction::emit(wire))
                        }
                    },
                    SfpPacket::Rtx { seq, buf } => {
                        if self.rx_seq == seq {
                            self.rx_seq = next_seq_num(seq);
                            Ok(Reaction::hand_over(buf))
                        } else {
                            Ok(Reaction::nothing())
                        }
                    },
                    SfpPacket::Nak { seq } => {
                        let packet = match self.history.find(seq) {
                            Some(payload) => SfpPacket::Rtx { seq, buf: payload.clone() },
                            None => {
                                return Err(SfpError::HistoryMiss);
                            },
                        };
                        let wire = self.write_packet(packet);
                        Ok(Reaction::emit(wire))
                    },
                    SfpPacket::Syn { seq } => self.handle_syn(seq),
                }
            },
            Some(Err(_)) => {
                match self.send_nak() {
                    Ok(wire) => Ok(Reaction::emit(wire)),
                    Err(_) => Ok(Reaction::nothing()),
                }
            },
            None => Ok(Reaction::nothing()),
        }
    }

    /// Drives the handshake by a control frame with step `seq`.
    fn handle_syn(&mut self, seq: u8) -> (outcome: SfpResult<Reaction>)
        ensures
            final(self)@ == old(self)@.handle_syn(seq).0,
            match outcome {
                Ok(reaction) => old(self)@.handle_syn(seq).1 == Ok::<Effects, SfpError>(
                    reaction@,
                ),
                Err(error) => old(self)@.handle_syn(seq).1 == Err::<Effects, SfpError>(error),
            },
    {
        if seq == SEQ_SYN0 {
            self.connect_state = ConnectState::SENT_SYN1;
            let wire = self.write_packet(SfpPacket::Syn { seq: SEQ_SYN1 });
            Ok(Reaction::emit(wire))
        } else if seq == SEQ_SYN1 {
            self.connect_state = ConnectState::CONNECTED;
            let wire = self.write_packet(SfpPacket::Syn { seq: SEQ_SYN2 });
            Ok(Reaction { delivered: None, outbound: Some(wire), established: true })
        } else if seq == SEQ_SYN2 {
            if self.connect_state == ConnectState::SENT_SYN1 {
                self.connect_state = ConnectState::CONNECTED;
            }
            Ok(Reaction::nothing())
        } else if seq == SEQ_SYN_DIS {
            self.connect_state = ConnectState::DISCONNECTED;
            Ok(Reaction::nothing())
        } else {
            Err(SfpError::InvalidSyn)
        }
    }

    /// Sends `buf` to the peer as a user frame and returns its wire
    /// image.  Refused with `NotConnected`, and without any change, unless
    /// the session is connected.
    pub fn write(&mut self, buf: Vec<u8>) -> (outcome: SfpResult<Vec<u8>>)
        ensures
            final(self)@ == old(self)@.write(buf@).0,
            match outcome {
                Ok(wire) => old(self)@.write(buf@).1 == Ok::<Seq<u8>, SfpError>(wire@),
                Err(error) => old(self)@.write(buf@).1 == Err::<Seq<u8>, SfpError>(error),
            },
    {
        if self.connect_state != ConnectState::CONNECTED {
            return Err(SfpError::NotConnected);
        }
        let tx_seq = self.tx_seq;
        let packet = SfpPacket::Usr { seq: tx_seq, buf: buf.clone() };
        self.history.push(tx_seq, buf);
        let wire = self.write_packet(packet);
        self.tx_seq = next_seq_num(self.tx_seq);
        Ok(wire)
    }

    /// The wire image of `packet`, for the host to put on the transport.
    fn write_packet(&mut self, packet: SfpPacket) -> (wire: Vec<u8>)
        ensures
            final(self)@ == old(self)@,
            wire@ == encoded(packet@),
    {
        self.codec.encode(packet).unwrap()
    }

    /// The wire image of a negative acknowledgement with the number
    /// expected next, if the session is connected.
    fn send_nak(&mut self) -> (outcome: SfpResult<Vec<u8>>)
        ensures
            final(self)@ == old(self)@,
            match outcome {
                Ok(wire) => old(self)@.reject() == (Effects {
                    delivered: None,
                    outbound: Some(wire@),
                    established: false,
                }),
                Err(_) => old(self)@.reject() == Effects::nothing(),
            },
    {
        if self.connect_state != ConnectState::CONNECTED {
            return Err(SfpError::NotConnected);
        }
        let packet = SfpPacket::Nak { seq: self.rx_seq };
        Ok(self.write_packet(packet))
    }
}

} // verus!
