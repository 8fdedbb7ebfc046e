//! What holds of a session: which numbers its frames bear, how it
//! answers a gap, a negative acknowledgement and a damaged frame, what
//! its history retains, and that two sessions shake hands.
//!
//! All of it is stated over the transitions that the entry points of
//! [`crate::session::Context`] take.

use vstd::prelude::*;
use crate::codec::CodecState;
use crate::codec_laws::{lemma_damaged_octet_detected, lemma_decode_encoded};
use crate::history::{lemma_first_with_found, lemma_first_with_none, HistoryState};
use crate::packet::{Frame, SfpError, SEQ_MAX, SEQ_SYN0, SEQ_SYN1, SEQ_SYN2, SEQ_SYN_DIS};
use crate::session::{next_seq, ConnectState, Effects, SessionState};
use crate::wire::{
    encoded, is_reserved, lemma_control_frame_images, lemma_user_frame_images, SFP_ESC,
};

verus! {

/// The sequence number `count` steps after `from`.
pub open spec fn seq_after(from: u8, count: int) -> u8 {
    ((from + count) % 64) as u8
}

/// The history entries of the user frames that carry `payloads` when the
/// first of them bears number `from`.
pub open spec fn sent(from: u8, payloads: Seq<Seq<u8>>) -> Seq<(u8, Seq<u8>)> {
    Seq::new(payloads.len(), |i: int| (seq_after(from, i), payloads[i]))
}

/// The last `capacity` of `entries`, or all of them if there are fewer.
pub open spec fn latest(entries: Seq<(u8, Seq<u8>)>, capacity: nat) -> Seq<(u8, Seq<u8>)> {
    if entries.len() > capacity {
        entries.skip(entries.len() - capacity)
    } else {
        entries
    }
}

impl SessionState {
    /// The state after a run of octets from the transport, and the
    /// outcome of each frame or framing error that the decoder completed
    /// on the way, in order.
    pub open spec fn feed(self, octets: Seq<u8>) -> (SessionState, Seq<Result<Effects, SfpError>>)
        decreases octets.len(),
    {
        if octets.len() == 0 {
            (self, Seq::empty())
        } else {
            let before = self.feed(octets.drop_last());
            let last = before.0.deliver(octets.last());
            if before.0.codec.step(octets.last()).1 is Some {
                (last.0, before.1.push(last.1))
            } else {
                (last.0, before.1)
            }
        }
    }

    /// The state after the application has written `payloads` one after
    /// the other, and the outcome of each write.
    pub open spec fn writes(self, payloads: Seq<Seq<u8>>) -> (
        SessionState,
        Seq<Result<Seq<u8>, SfpError>>,
    )
        decreases payloads.len(),
    {
        if payloads.len() == 0 {
            (self, Seq::empty())
        } else {
            let before = self.writes(payloads.drop_last());
            let last = before.0.write(payloads.last());
            (last.0, before.1.push(last.1))
        }
    }

    /// The session with its decoder as new.
    pub open spec fn rested(self) -> SessionState {
        SessionState { codec: CodecState::initial(), ..self }
    }
}

/// Every transition keeps a session well-formed: the counters stay within
/// six bits and the history within its capacity.
pub proof fn lemma_wf_is_kept(session: SessionState, octet: u8, payload: Seq<u8>)
    requires
        session.wf(),
    ensures
        session.connect().0.wf(),
        session.deliver(octet).0.wf(),
        session.write(payload).0.wf(),
{
}

/// A control frame never enters the history, and neither does anything
/// else that arrives: only a write changes the history.
pub proof fn lemma_history_changes_by_write_only(session: SessionState, octet: u8)
    ensures
        session.connect().0.history == session.history,
        session.deliver(octet).0.history == session.history,
{
}

/// While the decoder completes nothing, a session only passes the
/// octets on to its decoder.
pub proof fn lemma_feed_quiet(session: SessionState, octets: Seq<u8>)
    requires
        session.codec.run(octets).1 =~= Seq::<Result<Frame, SfpError>>::empty(),
    ensures
        session.feed(octets) == (
            SessionState { codec: session.codec.run(octets).0, ..session },
            Seq::<Result<Effects, SfpError>>::empty(),
        ),
    decreases octets.len(),
{
    if octets.len() > 0 {
        let before = session.codec.run(octets.drop_last());
        let last = before.0.step(octets.last());
        match last.1 {
            Some(event) => {
                assert(before.1.push(event).len() > 0);
            },
            None => {},
        }
        lemma_feed_quiet(session, octets.drop_last());
    }
}

/// The wire image of a well-formed frame, fed to a session whose decoder
/// awaits a header, has exactly one outcome: that of routing the frame.
pub proof fn lemma_feed_frame(session: SessionState, frame: Frame)
    requires
        !session.codec.receiving,
        frame.wf(),
    ensures
        session.feed(encoded(frame)) == (
            session.rested().route(Ok(frame)).0,
            seq![session.rested().route(Ok(frame)).1],
        ),
        session.rested().route(Ok(frame)).0.codec == CodecState::initial(),
{
    let wire = encoded(frame);
    lemma_decode_encoded(session.codec, frame);
    lemma_feed_quiet(session, wire.drop_last());
    let outcome = session.rested().route(Ok(frame)).1;
    assert(Seq::<Result<Effects, SfpError>>::empty().push(outcome) =~= seq![outcome]);
}

/// In-order delivery.  A user frame or retransmission that bears the
/// number expected next is handed to the application, nothing goes out,
/// and the number expected next advances by one modulo 64.
pub proof fn lemma_expected_frame_is_delivered(session: SessionState, payload: Seq<u8>)
    requires
        !session.codec.receiving,
        session.rx_seq <= SEQ_MAX,
    ensures
        session.feed(encoded(Frame::Usr { seq: session.rx_seq, payload })) == (
            SessionState { rx_seq: next_seq(session.rx_seq), ..session.rested() },
            seq![Ok::<Effects, SfpError>(Effects::hand_over(payload))],
        ),
        session.feed(encoded(Frame::Rtx { seq: session.rx_seq, payload })) == (
            SessionState { rx_seq: next_seq(session.rx_seq), ..session.rested() },
            seq![Ok::<Effects, SfpError>(Effects::hand_over(payload))],
        ),
        next_seq(session.rx_seq) == (session.rx_seq + 1) % 64,
{
    lemma_feed_frame(session, Frame::Usr { seq: session.rx_seq, payload });
    lemma_feed_frame(session, Frame::Rtx { seq: session.rx_seq, payload });
}

/// A gap is answered by a negative acknowledgement.  A user frame that
/// bears any number but the one expected next has exactly one outcome:
/// one negative acknowledgement goes out, with the number expected
/// next, not the number of the frame.  Nothing is handed over and the
/// number expected next stays.
pub proof fn lemma_gap_is_answered_by_nak(session: SessionState, seq: u8, payload: Seq<u8>)
    requires
        !session.codec.receiving,
        seq <= SEQ_MAX,
        seq != session.rx_seq,
    ensures
        session.feed(encoded(Frame::Usr { seq, payload })) == (
            session.rested(),
            seq![Ok::<Effects, SfpError>(Effects::emit(Frame::Nak { seq: session.rx_seq }))],
        ),
{
    lemma_feed_frame(session, Frame::Usr { seq, payload });
}

/// A retransmission out of turn is dropped without an answer.
pub proof fn lemma_stray_rtx_is_ignored(session: SessionState, seq: u8, payload: Seq<u8>)
    requires
        !session.codec.receiving,
        seq <= SEQ_MAX,
        seq != session.rx_seq,
    ensures
        session.feed(encoded(Frame::Rtx { seq, payload })) == (
            session.rested(),
            seq![Ok::<Effects, SfpError>(Effects::nothing())],
        ),
{
    lemma_feed_frame(session, Frame::Rtx { seq, payload });
}

/// A negative acknowledgement is answered by a retransmission.  If the
/// history holds a frame with the number asked for, exactly one frame
/// goes out: the retransmission with that number and the payload of the
/// oldest such entry.  If it holds none, the outcome is `HistoryMiss`.
/// Either way the session stays as it was.
pub proof fn lemma_nak_is_answered_by_rtx(session: SessionState, seq: u8)
    requires
        !session.codec.receiving,
        seq <= SEQ_MAX,
    ensures
        session.feed(encoded(Frame::Nak { seq })).0 == session.rested(),
        match session.history.lookup(seq) {
            Some(payload) => session.feed(encoded(Frame::Nak { seq })).1 == seq![
                Ok::<Effects, SfpError>(Effects::emit(Frame::Rtx { seq, payload })),
            ],
            None => session.feed(encoded(Frame::Nak { seq })).1 == seq![
                Err::<Effects, SfpError>(SfpError::HistoryMiss),
            ],
        },
{
    lemma_feed_frame(session, Frame::Nak { seq });
}

/// A damaged frame is answered by a negative acknowledgement.  Take the
/// wire image of a well-formed frame with one octet between its flags
/// replaced as [`lemma_damaged_octet_detected`] describes.  A connected
/// session then sends one negative acknowledgement with the number
/// expected next; a session that is not connected does nothing.  No
/// payload is handed over and no counter moves.
pub proof fn lemma_damage_is_answered_by_nak(
    session: SessionState,
    frame: Frame,
    at: int,
    octet: u8,
)
    requires
        !session.codec.receiving,
        frame.wf(),
        0 < at < encoded(frame).len() - 1,
        encoded(frame)[at] != SFP_ESC,
        !is_reserved(octet),
        octet != encoded(frame)[at],
    ensures
        session.feed(encoded(frame).update(at, octet)).1 == seq![
            Ok::<Effects, SfpError>(session.reject()),
        ],
        session.feed(encoded(frame).update(at, octet)).0 == (SessionState {
            codec: session.feed(encoded(frame).update(at, octet)).0.codec,
            ..session
        }),
        !session.feed(encoded(frame).update(at, octet)).0.codec.receiving,
{
    let wire = encoded(frame).update(at, octet);
    lemma_damaged_octet_detected(session.codec, frame, at, octet);
    lemma_feed_quiet(session, wire.drop_last());
    let outcome = Ok::<Effects, SfpError>(session.reject());
    assert(Seq::<Result<Effects, SfpError>>::empty().push(outcome) =~= seq![outcome]);
}

/// Damage is repaired.  Let a connected receiver expect a number whose
/// frame the sender holds in its history, and let that frame reach the
/// receiver damaged as [`lemma_damaged_octet_detected`] describes.
/// Then three frames travel, one as the answer to the other:
///
/// - the receiver refuses the damaged frame with a negative
///   acknowledgement that bears the number it expects;
/// - the sender answers with the retransmission of that number;
/// - the receiver hands the payload over as it was written, and the
///   number it expects advances.
pub proof fn lemma_damage_is_repaired(
    sender: SessionState,
    receiver: SessionState,
    payload: Seq<u8>,
    at: int,
    octet: u8,
)
    requires
        !sender.codec.receiving,
        !receiver.codec.receiving,
        receiver.connect_state == ConnectState::CONNECTED,
        receiver.rx_seq <= SEQ_MAX,
        sender.history.lookup(receiver.rx_seq) == Some(payload),
        0 < at < encoded(Frame::Usr { seq: receiver.rx_seq, payload }).len() - 1,
        encoded(Frame::Usr { seq: receiver.rx_seq, payload })[at] != SFP_ESC,
        !is_reserved(octet),
        octet != encoded(Frame::Usr { seq: receiver.rx_seq, payload })[at],
    ensures
        ({
            let seq = receiver.rx_seq;
            let damaged = encoded(Frame::Usr { seq, payload }).update(at, octet);
            let refused = receiver.feed(damaged);
            let resent = sender.feed(encoded(Frame::Nak { seq }));
            let repaired = refused.0.feed(encoded(Frame::Rtx { seq, payload }));
            &&& refused.1 == seq![Ok::<Effects, SfpError>(Effects::emit(Frame::Nak { seq }))]
            &&& resent.1 == seq![
                Ok::<Effects, SfpError>(Effects::emit(Frame::Rtx { seq, payload })),
            ]
            &&& resent.0 == sender.rested()
            &&& repaired.1 == seq![Ok::<Effects, SfpError>(Effects::hand_over(payload))]
            &&& repaired.0 == (SessionState { rx_seq: next_seq(seq), ..receiver.rested() })
        }),
{
    let seq = receiver.rx_seq;
    let frame = Frame::Usr { seq, payload };
    lemma_damage_is_answered_by_nak(receiver, frame, at, octet);
    lemma_nak_is_answered_by_rtx(sender, seq);
    let refused = receiver.feed(encoded(frame).update(at, octet));
    lemma_expected_frame_is_delivered(refused.0, payload);
}

/// The numbers of the frames written.  A connected session accepts
/// every write.  The frames that go out are user frames with the
/// payloads written, in order, and their numbers count up by one modulo
/// 64 from the transmit number at the start: from zero, after a
/// connect, they are 0, 1, ..., (n - 1) mod 64.  The history then holds
/// the last frames written, as many as its capacity allows, behind what
/// it held before: with room for 32, after 40 writes it holds exactly
/// the last 32.
pub proof fn lemma_writes_count_up(session: SessionState, payloads: Seq<Seq<u8>>)
    requires
        session.connect_state == ConnectState::CONNECTED,
        session.wf(),
    ensures
        session.writes(payloads).1.len() == payloads.len(),
        forall|i: int|
            0 <= i < payloads.len() ==> (#[trigger] session.writes(payloads).1[i]) == Ok::<
                Seq<u8>,
                SfpError,
            >(encoded(Frame::Usr { seq: seq_after(session.tx_seq, i), payload: payloads[i] })),
        session.writes(payloads).0 == (SessionState {
            tx_seq: seq_after(session.tx_seq, payloads.len() as int),
            history: HistoryState {
                entries: latest(
                    session.history.entries + sent(session.tx_seq, payloads),
                    session.history.capacity,
                ),
                capacity: session.history.capacity,
            },
            ..session
        }),
        session.writes(payloads).0.wf(),
    decreases payloads.len(),
{
    let capacity = session.history.capacity;
    if payloads.len() == 0 {
        assert(session.history.entries + sent(session.tx_seq, payloads)
            =~= session.history.entries);
    } else {
        let front = payloads.drop_last();
        lemma_writes_count_up(session, front);
        let before = session.writes(front);
        let last = before.0.write(payloads.last());
        let n = front.len() as int;
        assert(before.0.tx_seq == seq_after(session.tx_seq, n));
        assert(next_seq(before.0.tx_seq) == seq_after(session.tx_seq, n + 1));
        let all_before = session.history.entries + sent(session.tx_seq, front);
        let all = session.history.entries + sent(session.tx_seq, payloads);
        let entry = (seq_after(session.tx_seq, n), payloads.last());
        assert(all =~= all_before.push(entry));
        assert(last.0.history.entries =~= latest(all, capacity)) by {
            if capacity > 0 && all_before.len() >= capacity {
                let k = all_before.len() - capacity;
                assert(latest(all_before, capacity) =~= all_before.skip(k));
                assert(all_before.skip(k).skip(1) =~= all_before.skip(k + 1));
                assert(all_before.skip(k + 1).push(entry) =~= all.skip(k + 1));
            }
        }
        assert forall|i: int| 0 <= i < payloads.len() implies (#[trigger] session.writes(
            payloads,
        ).1[i]) == Ok::<Seq<u8>, SfpError>(
            encoded(Frame::Usr { seq: seq_after(session.tx_seq, i), payload: payloads[i] }),
        ) by {
            if i < n {
                assert(session.writes(payloads).1[i] == before.1[i]);
                assert(front[i] == payloads[i]);
            }
        }
    }
}

/// A session that is not connected refuses every write and stays as it
/// is.
pub proof fn lemma_write_needs_connection(session: SessionState, payload: Seq<u8>)
    requires
        session.connect_state != ConnectState::CONNECTED,
    ensures
        session.write(payload) == (session, Err::<Seq<u8>, SfpError>(SfpError::NotConnected)),
{
}

/// A disconnect notice from the peer disconnects the session, whatever
/// its state was, and leaves counters and history alone.  Every write
/// after it is refused with `NotConnected`.
pub proof fn lemma_disconnect_notice(session: SessionState)
    requires
        !session.codec.receiving,
    ensures
        session.feed(encoded(Frame::Syn { seq: SEQ_SYN_DIS })) == (
            SessionState { connect_state: ConnectState::DISCONNECTED, ..session.rested() },
            seq![Ok::<Effects, SfpError>(Effects::nothing())],
        ),
        forall|payload: Seq<u8>| #[trigger]
            session.feed(encoded(Frame::Syn { seq: SEQ_SYN_DIS })).0.write(payload).1 == Err::<
                Seq<u8>,
                SfpError,
            >(SfpError::NotConnected),
{
    lemma_feed_frame(session, Frame::Syn { seq: SEQ_SYN_DIS });
}

/// A control frame with a step that is none of the four known ones is
/// reported as `InvalidSyn` and changes nothing.
pub proof fn lemma_invalid_syn(session: SessionState, step: u8)
    requires
        !session.codec.receiving,
        SEQ_SYN_DIS < step <= SEQ_MAX,
    ensures
        session.feed(encoded(Frame::Syn { seq: step })) == (
            session.rested(),
            seq![Err::<Effects, SfpError>(SfpError::InvalidSyn)],
        ),
{
    lemma_feed_frame(session, Frame::Syn { seq: step });
}

/// What each step of the handshake does to a session in any state,
/// with the octets that go out.  Counters, history and decoder stay as
/// they are.
pub proof fn lemma_handle_syn_steps(session: SessionState)
    ensures
        session.handle_syn(SEQ_SYN0) == (
            SessionState { connect_state: ConnectState::SENT_SYN1, ..session },
            Ok::<Effects, SfpError>(
                Effects {
                    delivered: None,
                    outbound: Some(seq![0x7eu8, 0xc1u8, 0xfdu8, 0x27u8, 0x7eu8]),
                    established: false,
                },
            ),
        ),
        session.handle_syn(SEQ_SYN1) == (
            SessionState { connect_state: ConnectState::CONNECTED, ..session },
            Ok::<Effects, SfpError>(
                Effects {
                    delivered: None,
                    outbound: Some(seq![0x7eu8, 0xc2u8, 0x66u8, 0x15u8, 0x7eu8]),
                    established: true,
                },
            ),
        ),
        session.connect_state == ConnectState::SENT_SYN1 ==> session.handle_syn(SEQ_SYN2) == (
            SessionState { connect_state: ConnectState::CONNECTED, ..session },
            Ok::<Effects, SfpError>(Effects::nothing()),
        ),
        session.connect_state != ConnectState::SENT_SYN1 ==> session.handle_syn(SEQ_SYN2) == (
            session,
            Ok::<Effects, SfpError>(Effects::nothing()),
        ),
        session.handle_syn(SEQ_SYN_DIS) == (
            SessionState { connect_state: ConnectState::DISCONNECTED, ..session },
            Ok::<Effects, SfpError>(Effects::nothing()),
        ),
        forall|step: u8|
            step > SEQ_SYN_DIS ==> #[trigger] session.handle_syn(step) == (
                session,
                Err::<Effects, SfpError>(SfpError::InvalidSyn),
            ),
{
    lemma_control_frame_images();
}

/// The steps of the handshake, each for itself.  Whatever state a
/// session is in, while its decoder awaits a header:
///
/// - connecting sends the first step, `7E C0 74 36 7E`, and leaves the
///   session awaiting the second;
/// - the first step is answered with the second, `7E C1 FD 27 7E`, and
///   leaves the session awaiting the third;
/// - the second step is answered with the third, `7E C2 66 15 7E`,
///   connects the session and has the host told so, once;
/// - the third step connects a session that awaited it, and changes no
///   other; nothing goes out.
///
/// An arriving step moves neither counter and leaves the history alone.
pub proof fn lemma_handshake_steps(session: SessionState)
    requires
        !session.codec.receiving,
    ensures
        session.connect() == (
            SessionState {
                codec: CodecState::initial(),
                rx_seq: 0,
                tx_seq: 0,
                connect_state: ConnectState::SENT_SYN0,
                history: session.history,
            },
            seq![0x7eu8, 0xc0u8, 0x74u8, 0x36u8, 0x7eu8],
        ),
        session.feed(encoded(Frame::Syn { seq: SEQ_SYN0 })) == (
            SessionState { connect_state: ConnectState::SENT_SYN1, ..session.rested() },
            seq![
                Ok::<Effects, SfpError>(
                    Effects {
                        delivered: None,
                        outbound: Some(seq![0x7eu8, 0xc1u8, 0xfdu8, 0x27u8, 0x7eu8]),
                        established: false,
                    },
                ),
            ],
        ),
        session.feed(encoded(Frame::Syn { seq: SEQ_SYN1 })) == (
            SessionState { connect_state: ConnectState::CONNECTED, ..session.rested() },
            seq![
                Ok::<Effects, SfpError>(
                    Effects {
                        delivered: None,
                        outbound: Some(seq![0x7eu8, 0xc2u8, 0x66u8, 0x15u8, 0x7eu8]),
                        established: true,
                    },
                ),
            ],
        ),
        session.feed(encoded(Frame::Syn { seq: SEQ_SYN2 })) == (
            if session.connect_state == ConnectState::SENT_SYN1 {
                SessionState { connect_state: ConnectState::CONNECTED, ..session.rested() }
            } else {
                session.rested()
            },
            seq![Ok::<Effects, SfpError>(Effects::nothing())],
        ),
{
    lemma_control_frame_images();
    lemma_feed_frame(session, Frame::Syn { seq: SEQ_SYN0 });
    lemma_feed_frame(session, Frame::Syn { seq: SEQ_SYN1 });
    lemma_feed_frame(session, Frame::Syn { seq: SEQ_SYN2 });
}

/// A write arrives.  Let a connected sender write a payload while the
/// receiver expects the sender's transmit number.  The frame that goes
/// out, fed to the receiver, has the payload handed over as it was
/// written, and both numbers advance by one modulo 64.  The first write
/// of the two octets `48 69` after a connect travels as
/// `7E 00 48 69 AD B0 7E`.
pub proof fn lemma_write_is_delivered(
    sender: SessionState,
    receiver: SessionState,
    payload: Seq<u8>,
)
    requires
        sender.connect_state == ConnectState::CONNECTED,
        sender.tx_seq <= SEQ_MAX,
        receiver.rx_seq == sender.tx_seq,
        !receiver.codec.receiving,
    ensures
        sender.write(payload).1 == Ok::<Seq<u8>, SfpError>(
            encoded(Frame::Usr { seq: sender.tx_seq, payload }),
        ),
        sender.write(payload).0.tx_seq == next_seq(sender.tx_seq),
        receiver.feed(encoded(Frame::Usr { seq: sender.tx_seq, payload })) == (
            SessionState { rx_seq: next_seq(receiver.rx_seq), ..receiver.rested() },
            seq![Ok::<Effects, SfpError>(Effects::hand_over(payload))],
        ),
        sender.tx_seq == 0 && payload == seq![0x48u8, 0x69u8] ==> sender.write(payload).1 == Ok::<
            Seq<u8>,
            SfpError,
        >(seq![0x7eu8, 0x00u8, 0x48u8, 0x69u8, 0xadu8, 0xb0u8, 0x7eu8]),
{
    lemma_expected_frame_is_delivered(receiver, payload);
    lemma_user_frame_images();
}

/// Window saturation.  Let a connected session with an empty history of
/// 32 entries and transmit number zero write 40 payloads.  Its history
/// then holds the frames with numbers 8 to 39, in order.  A negative
/// acknowledgement for any of the numbers 0 to 7 comes too late and is
/// a `HistoryMiss`; one for any of 8 to 39 is answered with the
/// retransmission of the payload written under that number.
pub proof fn lemma_window_saturation(session: SessionState, payloads: Seq<Seq<u8>>)
    requires
        session.connect_state == ConnectState::CONNECTED,
        session.rx_seq <= SEQ_MAX,
        session.tx_seq == 0,
        session.history == HistoryState::empty(32),
        !session.codec.receiving,
        payloads.len() == 40,
    ensures
        session.writes(payloads).0.history.entries == sent(0, payloads).skip(8),
        session.writes(payloads).0.history.entries.len() == 32,
        forall|n: u8|
            n < 8 ==> (#[trigger] session.writes(payloads).0.feed(encoded(Frame::Nak { seq: n }))).1
                == seq![Err::<Effects, SfpError>(SfpError::HistoryMiss)],
        forall|n: u8|
            8 <= n < 40 ==> (#[trigger] session.writes(payloads).0.feed(
                encoded(Frame::Nak { seq: n }),
            )).1 == seq![
                Ok::<Effects, SfpError>(
                    Effects::emit(Frame::Rtx { seq: n, payload: payloads[n as int] }),
                ),
            ],
{
    lemma_writes_count_up(session, payloads);
    let after = session.writes(payloads).0;
    let all = sent(0, payloads);
    assert(session.history.entries + all =~= all);
    let held = after.history.entries;
    assert(held =~= all.skip(8));
    assert forall|j: int| 0 <= j < 32 implies (#[trigger] held[j]) == (
        (j + 8) as u8,
        payloads[j + 8],
    ) by {
        assert(held[j] == all[j + 8]);
    }
    assert forall|n: u8| n < 8 implies (#[trigger] after.feed(encoded(Frame::Nak { seq: n }))).1
        == seq![Err::<Effects, SfpError>(SfpError::HistoryMiss)] by {
        lemma_first_with_none(held, n);
        lemma_nak_is_answered_by_rtx(after, n);
    }
    assert forall|n: u8| 8 <= n < 40 implies (#[trigger] after.feed(
        encoded(Frame::Nak { seq: n }),
    )).1 == seq![
        Ok::<Effects, SfpError>(Effects::emit(Frame::Rtx { seq: n, payload: payloads[n as int] })),
    ] by {
        lemma_first_with_found(held, n, n - 8);
        lemma_nak_is_answered_by_rtx(after, n);
    }
}

/// The handshake.  Let `caller` and `peer` be two sessions in any state,
/// the decoder of `peer` awaiting a header, joined by a link that
/// carries octets unharmed.  When `caller` connects, three frames
/// travel, one as the answer to the other, and both sessions end
/// connected:
///
/// 1. `caller` sends the first step and awaits the second;
/// 2. `peer` answers with the second step and awaits the third;
/// 3. `caller` answers with the third step, is connected, and tells its
///    host so;
/// 4. `peer` takes the third step, is connected, and sends nothing.
///
/// The counters of `caller` start at zero; those of `peer` and both
/// histories stay as they were.  The two sessions are arbitrary, so the
/// same holds with their parts exchanged.
pub proof fn lemma_handshake(caller: SessionState, peer: SessionState)
    requires
        !peer.codec.receiving,
    ensures
        ({
            let first = caller.connect();
            let second = peer.feed(first.1);
            let third = first.0.feed(encoded(Frame::Syn { seq: SEQ_SYN1 }));
            let fourth = second.0.feed(encoded(Frame::Syn { seq: SEQ_SYN2 }));
            &&& first.1 == encoded(Frame::Syn { seq: SEQ_SYN0 })
            &&& first.0.connect_state == ConnectState::SENT_SYN0
            &&& second.1 == seq![
                Ok::<Effects, SfpError>(Effects::emit(Frame::Syn { seq: SEQ_SYN1 })),
            ]
            &&& second.0.connect_state == ConnectState::SENT_SYN1
            &&& third.1 == seq![
                Ok::<Effects, SfpError>(
                    Effects {
                        delivered: None,
                        outbound: Some(encoded(Frame::Syn { seq: SEQ_SYN2 })),
                        established: true,
                    },
                ),
            ]
            &&& fourth.1 == seq![Ok::<Effects, SfpError>(Effects::nothing())]
            &&& third.0 == (SessionState {
                codec: CodecState::initial(),
                rx_seq: 0,
                tx_seq: 0,
                connect_state: ConnectState::CONNECTED,
                history: caller.history,
            })
            &&& fourth.0 == (SessionState {
                connect_state: ConnectState::CONNECTED,
                ..peer.rested()
            })
        }),
{
    let first = caller.connect();
    lemma_feed_frame(peer, Frame::Syn { seq: SEQ_SYN0 });
    let second = peer.feed(first.1);
    lemma_feed_frame(first.0, Frame::Syn { seq: SEQ_SYN1 });
    lemma_feed_frame(second.0, Frame::Syn { seq: SEQ_SYN2 });
}

} // verus!
