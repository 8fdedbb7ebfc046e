use sfp::session::next_seq_num;
use sfp::{Codec, ConnectState, Context, Reaction, SfpError, SfpPacket};

fn wire_of(packet: SfpPacket) -> Vec<u8> {
    Codec::new().encode(packet).unwrap()
}

fn packets_in(octets: &[u8]) -> Vec<SfpPacket> {
    let mut codec = Codec::new();
    let mut packets = Vec::new();
    for &octet in octets {
        if let Some(event) = codec.deliver(octet) {
            packets.push(event.unwrap());
        }
    }
    packets
}

fn idle() -> Reaction {
    Reaction { delivered: None, outbound: None, established: false }
}

fn emits(packet: SfpPacket) -> Reaction {
    Reaction { delivered: None, outbound: Some(wire_of(packet)), established: false }
}

fn hands_over(payload: &[u8]) -> Reaction {
    Reaction { delivered: Some(payload.to_vec()), outbound: None, established: false }
}

/// Feeds `octets` and returns the outcome of the last one; all before it
/// must leave the host nothing to do.
fn feed(session: &mut Context, octets: &[u8]) -> Result<Reaction, SfpError> {
    let (last, front) = octets.split_last().unwrap();
    for &octet in front {
        assert_eq!(session.deliver(octet), Ok(idle()));
    }
    session.deliver(*last)
}

fn connected() -> Context {
    let mut session = Context::new();
    let outcome = feed(&mut session, &wire_of(SfpPacket::Syn { seq: 1 })).unwrap();
    assert!(outcome.established);
    assert_eq!(*session.connect_state(), ConnectState::CONNECTED);
    session
}

#[test]
fn new_session_is_disconnected() {
    let session = Context::new();
    assert_eq!(*session.connect_state(), ConnectState::DISCONNECTED);
}

#[test]
fn next_seq_num_wraps_after_63() {
    assert_eq!(next_seq_num(0), 1);
    assert_eq!(next_seq_num(1), 2);
    assert_eq!(next_seq_num(62), 63);
    assert_eq!(next_seq_num(63), 0);
    assert_eq!(next_seq_num(64), 0);
    assert_eq!(next_seq_num(255), 0);
}

#[test]
fn connect_sends_the_first_step() {
    let mut session = Context::new();
    let wire = session.connect();
    assert_eq!(wire, vec![0x7e, 0xc0, 0x74, 0x36, 0x7e]);
    assert_eq!(*session.connect_state(), ConnectState::SENT_SYN0);
}

#[test]
fn handshake_step_by_step() {
    let mut a = Context::new();
    let mut b = Context::new();
    let syn0 = a.connect();
    assert_eq!(packets_in(&syn0), vec![SfpPacket::Syn { seq: 0 }]);

    let at_b = feed(&mut b, &syn0).unwrap();
    assert_eq!(at_b, emits(SfpPacket::Syn { seq: 1 }));
    assert_eq!(*b.connect_state(), ConnectState::SENT_SYN1);

    let at_a = feed(&mut a, &at_b.outbound.unwrap()).unwrap();
    assert_eq!(
        at_a,
        Reaction {
            delivered: None,
            outbound: Some(wire_of(SfpPacket::Syn { seq: 2 })),
            established: true,
        }
    );
    assert_eq!(*a.connect_state(), ConnectState::CONNECTED);

    let at_b = feed(&mut b, &at_a.outbound.unwrap()).unwrap();
    assert_eq!(at_b, idle());
    assert_eq!(*b.connect_state(), ConnectState::CONNECTED);
}

#[test]
fn third_step_counts_only_after_the_second_was_sent() {
    let syn2 = wire_of(SfpPacket::Syn { seq: 2 });
    let mut session = Context::new();
    assert_eq!(feed(&mut session, &syn2), Ok(idle()));
    assert_eq!(*session.connect_state(), ConnectState::DISCONNECTED);
    session.connect();
    assert_eq!(feed(&mut session, &syn2), Ok(idle()));
    assert_eq!(*session.connect_state(), ConnectState::SENT_SYN0);
    let mut session = connected();
    assert_eq!(feed(&mut session, &syn2), Ok(idle()));
    assert_eq!(*session.connect_state(), ConnectState::CONNECTED);
}

#[test]
fn single_write_is_delivered() {
    let mut a = connected();
    let mut b = connected();
    let wire = a.write(vec![0x48, 0x69]).unwrap();
    assert_eq!(wire, vec![0x7e, 0x00, 0x48, 0x69, 0xad, 0xb0, 0x7e]);
    assert_eq!(feed(&mut b, &wire), Ok(hands_over(&[0x48, 0x69])));
}

#[test]
fn write_escapes_a_flag() {
    let mut a = connected();
    for n in 0..5u8 {
        a.write(vec![n]).unwrap();
    }
    let wire = a.write(vec![0x7e]).unwrap();
    assert_eq!(wire[1], 0x05);
    assert_eq!(&wire[2..4], &[0x7d, 0x5e]);
    assert_eq!(packets_in(&wire), vec![SfpPacket::Usr { seq: 5, buf: vec![0x7e] }]);
}

#[test]
fn write_needs_a_connection() {
    let mut session = Context::new();
    assert_eq!(session.write(vec![1, 2, 3]), Err(SfpError::NotConnected));
    session.connect();
    assert_eq!(session.write(vec![1, 2, 3]), Err(SfpError::NotConnected));
    // The refused writes took no number.
    let outcome = feed(&mut session, &wire_of(SfpPacket::Syn { seq: 1 })).unwrap();
    assert!(outcome.established);
    let wire = session.write(vec![9]).unwrap();
    assert_eq!(packets_in(&wire), vec![SfpPacket::Usr { seq: 0, buf: vec![9] }]);
}

#[test]
fn written_numbers_count_up_modulo_64() {
    let mut session = connected();
    for n in 0..150usize {
        let payload = vec![(n % 256) as u8, (n / 256) as u8];
        let wire = session.write(payload.clone()).unwrap();
        assert_eq!(packets_in(&wire), vec![SfpPacket::Usr { seq: (n % 64) as u8, buf: payload }]);
    }
}

#[test]
fn received_numbers_count_up_modulo_64() {
    let mut session = connected();
    for n in 0..130usize {
        let seq = (n % 64) as u8;
        let payload = vec![seq, 0x7e, 0x7d];
        let wire = wire_of(SfpPacket::Usr { seq, buf: payload.clone() });
        assert_eq!(feed(&mut session, &wire), Ok(hands_over(&payload)));
    }
}

#[test]
fn gap_is_answered_by_nak() {
    let mut session = connected();
    for seq in 0..3u8 {
        let wire = wire_of(SfpPacket::Usr { seq, buf: vec![seq] });
        assert_eq!(feed(&mut session, &wire), Ok(hands_over(&[seq])));
    }
    // Number 3 is expected; every other number is refused with NAK(3).
    for seq in (0..64u8).filter(|&seq| seq != 3) {
        let wire = wire_of(SfpPacket::Usr { seq, buf: vec![0xaa] });
        assert_eq!(feed(&mut session, &wire), Ok(emits(SfpPacket::Nak { seq: 3 })));
    }
    // The number expected has not moved.
    let wire = wire_of(SfpPacket::Usr { seq: 3, buf: vec![0xbb] });
    assert_eq!(feed(&mut session, &wire), Ok(hands_over(&[0xbb])));
}

#[test]
fn retransmission_in_turn_is_delivered() {
    let mut session = connected();
    let wire = wire_of(SfpPacket::Rtx { seq: 0, buf: vec![1, 2] });
    assert_eq!(feed(&mut session, &wire), Ok(hands_over(&[1, 2])));
    let wire = wire_of(SfpPacket::Usr { seq: 1, buf: vec![3] });
    assert_eq!(feed(&mut session, &wire), Ok(hands_over(&[3])));
}

#[test]
fn retransmission_out_of_turn_is_ignored() {
    let mut session = connected();
    let wire = wire_of(SfpPacket::Rtx { seq: 9, buf: vec![1, 2] });
    assert_eq!(feed(&mut session, &wire), Ok(idle()));
    let wire = wire_of(SfpPacket::Usr { seq: 0, buf: vec![3] });
    assert_eq!(feed(&mut session, &wire), Ok(hands_over(&[3])));
}

#[test]
fn nak_is_answered_by_rtx() {
    let mut session = connected();
    for n in 0..10u8 {
        session.write(vec![n, n + 100]).unwrap();
    }
    for n in [4u8, 0, 9, 4] {
        let outcome = feed(&mut session, &wire_of(SfpPacket::Nak { seq: n }));
        assert_eq!(outcome, Ok(emits(SfpPacket::Rtx { seq: n, buf: vec![n, n + 100] })));
    }
    // Retransmissions take no number and enter no history.
    let wire = session.write(vec![0xee]).unwrap();
    assert_eq!(packets_in(&wire), vec![SfpPacket::Usr { seq: 10, buf: vec![0xee] }]);
}

#[test]
fn nak_for_a_number_never_sent_is_a_history_miss() {
    let mut session = connected();
    let outcome = feed(&mut session, &wire_of(SfpPacket::Nak { seq: 0 }));
    assert_eq!(outcome, Err(SfpError::HistoryMiss));
    session.write(vec![1]).unwrap();
    let outcome = feed(&mut session, &wire_of(SfpPacket::Nak { seq: 1 }));
    assert_eq!(outcome, Err(SfpError::HistoryMiss));
    let outcome = feed(&mut session, &wire_of(SfpPacket::Nak { seq: 0 }));
    assert_eq!(outcome, Ok(emits(SfpPacket::Rtx { seq: 0, buf: vec![1] })));
}

#[test]
fn history_keeps_the_last_32_of_40_writes() {
    let mut session = connected();
    for n in 0..40u8 {
        session.write(vec![n]).unwrap();
    }
    for n in 0..8u8 {
        let outcome = feed(&mut session, &wire_of(SfpPacket::Nak { seq: n }));
        assert_eq!(outcome, Err(SfpError::HistoryMiss));
    }
    for n in 8..40u8 {
        let outcome = feed(&mut session, &wire_of(SfpPacket::Nak { seq: n }));
        assert_eq!(outcome, Ok(emits(SfpPacket::Rtx { seq: n, buf: vec![n] })));
    }
    for n in 40..64u8 {
        let outcome = feed(&mut session, &wire_of(SfpPacket::Nak { seq: n }));
        assert_eq!(outcome, Err(SfpError::HistoryMiss));
    }
}

#[test]
fn delayed_nak_after_window_saturation_is_a_history_miss() {
    let mut session = connected();
    for n in 0..=39u8 {
        session.write(vec![n]).unwrap();
    }
    let outcome = feed(&mut session, &wire_of(SfpPacket::Nak { seq: 7 }));
    assert_eq!(outcome, Err(SfpError::HistoryMiss));
    // The miss has changed nothing.
    let outcome = feed(&mut session, &wire_of(SfpPacket::Nak { seq: 8 }));
    assert_eq!(outcome, Ok(emits(SfpPacket::Rtx { seq: 8, buf: vec![8] })));
    assert_eq!(*session.connect_state(), ConnectState::CONNECTED);
}

#[test]
fn history_size_can_be_chosen() {
    let mut session = Context::with_history_size(3);
    feed(&mut session, &wire_of(SfpPacket::Syn { seq: 1 })).unwrap();
    for n in 0..5u8 {
        session.write(vec![n]).unwrap();
    }
    for n in 0..2u8 {
        let outcome = feed(&mut session, &wire_of(SfpPacket::Nak { seq: n }));
        assert_eq!(outcome, Err(SfpError::HistoryMiss));
    }
    for n in 2..5u8 {
        let outcome = feed(&mut session, &wire_of(SfpPacket::Nak { seq: n }));
        assert_eq!(outcome, Ok(emits(SfpPacket::Rtx { seq: n, buf: vec![n] })));
    }
    let mut session = Context::with_history_size(0);
    feed(&mut session, &wire_of(SfpPacket::Syn { seq: 1 })).unwrap();
    session.write(vec![1]).unwrap();
    let outcome = feed(&mut session, &wire_of(SfpPacket::Nak { seq: 0 }));
    assert_eq!(outcome, Err(SfpError::HistoryMiss));
}

#[test]
fn corruption_is_answered_by_nak_and_repaired_by_rtx() {
    let mut sender = connected();
    let mut receiver = connected();
    let wire = sender.write(vec![0x48, 0x69]).unwrap();
    let mut damaged = wire.clone();
    damaged[2] ^= 0x04;

    // The receiver refuses the damaged frame with the number it expects.
    let outcome = feed(&mut receiver, &damaged).unwrap();
    assert_eq!(outcome, emits(SfpPacket::Nak { seq: 0 }));

    // The sender answers with the retransmission.
    let outcome = feed(&mut sender, &outcome.outbound.unwrap()).unwrap();
    assert_eq!(outcome, emits(SfpPacket::Rtx { seq: 0, buf: vec![0x48, 0x69] }));

    // The receiver takes it and moves on.
    let outcome = feed(&mut receiver, &outcome.outbound.unwrap()).unwrap();
    assert_eq!(outcome, hands_over(&[0x48, 0x69]));
    let wire = sender.write(vec![0x21]).unwrap();
    assert_eq!(feed(&mut receiver, &wire), Ok(hands_over(&[0x21])));
}

#[test]
fn framing_errors_are_swallowed_while_not_connected() {
    let mut session = Context::new();
    let mut damaged = wire_of(SfpPacket::Syn { seq: 0 });
    damaged[2] ^= 0x10;
    assert_eq!(feed(&mut session, &damaged), Ok(idle()));
    assert_eq!(feed(&mut session, &[0x7e, 0x01, 0x7e]), Ok(idle()));
    assert_eq!(*session.connect_state(), ConnectState::DISCONNECTED);
    // The handshake still goes through.
    let mut session = Context::new();
    assert_eq!(feed(&mut session, &damaged), Ok(idle()));
    let outcome = feed(&mut session, &wire_of(SfpPacket::Syn { seq: 0 }));
    assert_eq!(outcome, Ok(emits(SfpPacket::Syn { seq: 1 })));
}

#[test]
fn short_frame_is_answered_by_nak_when_connected() {
    let mut session = connected();
    let wire = wire_of(SfpPacket::Usr { seq: 0, buf: vec![5] });
    assert_eq!(feed(&mut session, &wire), Ok(hands_over(&[5])));
    assert_eq!(feed(&mut session, &[0x7e, 0x01, 0x7e]), Ok(emits(SfpPacket::Nak { seq: 1 })));
}

#[test]
fn disconnect_notice_disconnects() {
    let mut session = connected();
    session.write(vec![1]).unwrap();
    let outcome = feed(&mut session, &wire_of(SfpPacket::Syn { seq: 3 }));
    assert_eq!(outcome, Ok(idle()));
    assert_eq!(*session.connect_state(), ConnectState::DISCONNECTED);
    assert_eq!(session.write(vec![2]), Err(SfpError::NotConnected));
    // The history is still there.
    let outcome = feed(&mut session, &wire_of(SfpPacket::Nak { seq: 0 }));
    assert_eq!(outcome, Ok(emits(SfpPacket::Rtx { seq: 0, buf: vec![1] })));
}

#[test]
fn unknown_step_is_an_invalid_syn() {
    for step in 4..64u8 {
        let mut session = connected();
        let outcome = feed(&mut session, &wire_of(SfpPacket::Syn { seq: step }));
        assert_eq!(outcome, Err(SfpError::InvalidSyn));
        assert_eq!(*session.connect_state(), ConnectState::CONNECTED);
    }
}

#[test]
fn connect_starts_the_numbers_afresh() {
    let mut session = connected();
    for n in 0..5u8 {
        session.write(vec![n]).unwrap();
        let wire = wire_of(SfpPacket::Usr { seq: n, buf: vec![n] });
        feed(&mut session, &wire).unwrap();
    }
    // Half a frame is pending when the session connects again.
    assert_eq!(session.deliver(0x7e), Ok(idle()));
    assert_eq!(session.deliver(0x05), Ok(idle()));
    session.connect();
    assert_eq!(*session.connect_state(), ConnectState::SENT_SYN0);
    let outcome = feed(&mut session, &wire_of(SfpPacket::Syn { seq: 1 })[1..]).unwrap();
    assert!(outcome.established);
    let wire = session.write(vec![0xaa]).unwrap();
    assert_eq!(packets_in(&wire), vec![SfpPacket::Usr { seq: 0, buf: vec![0xaa] }]);
    let wire = wire_of(SfpPacket::Usr { seq: 0, buf: vec![0xbb] });
    assert_eq!(feed(&mut session, &wire), Ok(hands_over(&[0xbb])));
}

#[test]
fn reconnect_keeps_the_history_and_serves_the_older_frame() {
    let mut session = connected();
    session.write(vec![0x01]).unwrap();
    session.connect();
    let outcome = feed(&mut session, &wire_of(SfpPacket::Syn { seq: 1 })).unwrap();
    assert!(outcome.established);
    let wire = session.write(vec![0x02]).unwrap();
    assert_eq!(packets_in(&wire), vec![SfpPacket::Usr { seq: 0, buf: vec![0x02] }]);
    // Two frames with number zero are held; the older is served.
    let outcome = feed(&mut session, &wire_of(SfpPacket::Nak { seq: 0 }));
    assert_eq!(outcome, Ok(emits(SfpPacket::Rtx { seq: 0, buf: vec![0x01] })));
}

#[test]
fn short_frame_does_not_cost_the_next_frame() {
    let mut session = connected();
    assert_eq!(feed(&mut session, &[0x7e, 0x00, 0x7e]), Ok(emits(SfpPacket::Nak { seq: 0 })));
    let wire = wire_of(SfpPacket::Usr { seq: 0, buf: vec![0x48, 0x69] });
    assert_eq!(feed(&mut session, &wire), Ok(hands_over(&[0x48, 0x69])));
}
