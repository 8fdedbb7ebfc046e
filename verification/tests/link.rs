use std::collections::VecDeque;

use sfp::{ConnectState, Context, Reaction};

/// One end of a link in memory: a session, the octets on their way to it,
/// and what it has handed to its application.
struct End {
    session: Context,
    inbox: VecDeque<u8>,
    received: Vec<Vec<u8>>,
    established: usize,
}

fn end() -> End {
    End { session: Context::new(), inbox: VecDeque::new(), received: Vec::new(), established: 0 }
}

/// Reads up to 1024 octets from the inbox of `at`, as a host reads from
/// its transport, and carries out what the session returns.  Returns the
/// number of octets read.
fn serve(at: &mut End, peer: &mut End) -> usize {
    let mut buf = [0u8; 1024];
    let mut size = 0;
    while size < buf.len() {
        match at.inbox.pop_front() {
            Some(octet) => {
                buf[size] = octet;
                size += 1;
            }
            None => break,
        }
    }
    for i in 0..size {
        let Reaction { delivered, outbound, established } = at.session.deliver(buf[i]).unwrap();
        if let Some(payload) = delivered {
            at.received.push(payload);
        }
        if let Some(wire) = outbound {
            peer.inbox.extend(wire);
        }
        if established {
            at.established += 1;
        }
    }
    size
}

fn settle(a: &mut End, b: &mut End) {
    while serve(a, b) + serve(b, a) > 0 {}
}

#[test]
fn hello() {
    let testdata = "This is a test string.";
    let mut server = end();
    let mut client = end();

    // The client connects.
    server.inbox.extend(client.session.connect());
    settle(&mut server, &mut client);
    assert_eq!(*client.session.connect_state(), ConnectState::CONNECTED);
    assert_eq!(*server.session.connect_state(), ConnectState::CONNECTED);
    assert_eq!(client.established, 1);

    // The client writes and the server receives.
    server.inbox.extend(client.session.write(testdata.as_bytes().to_vec()).unwrap());
    settle(&mut server, &mut client);
    assert_eq!(server.received.len(), 1);
    let received = server.received.pop().unwrap();
    assert!(received == testdata.to_string().into_bytes());
}

#[test]
fn handshake_from_either_side() {
    for client_first in [true, false] {
        let mut a = end();
        let mut b = end();
        if client_first {
            b.inbox.extend(a.session.connect());
        } else {
            a.inbox.extend(b.session.connect());
        }
        settle(&mut a, &mut b);
        assert_eq!(*a.session.connect_state(), ConnectState::CONNECTED);
        assert_eq!(*b.session.connect_state(), ConnectState::CONNECTED);
        assert_eq!(a.established + b.established, 1);
    }
}

#[test]
fn handshake_from_both_sides_at_once() {
    let mut a = end();
    let mut b = end();
    let from_a = a.session.connect();
    let from_b = b.session.connect();
    b.inbox.extend(from_a);
    a.inbox.extend(from_b);
    settle(&mut a, &mut b);
    assert_eq!(*a.session.connect_state(), ConnectState::CONNECTED);
    assert_eq!(*b.session.connect_state(), ConnectState::CONNECTED);
}

#[test]
fn traffic_both_ways() {
    let mut a = end();
    let mut b = end();
    b.inbox.extend(a.session.connect());
    settle(&mut a, &mut b);
    let mut sent_by_a = Vec::new();
    let mut sent_by_b = Vec::new();
    for n in 0..200usize {
        let payload: Vec<u8> = (0..n % 17).map(|i| (n * 31 + i * 7) as u8).collect();
        b.inbox.extend(a.session.write(payload.clone()).unwrap());
        sent_by_a.push(payload);
        if n % 3 == 0 {
            let payload = vec![0x7e, n as u8, 0x7d];
            a.inbox.extend(b.session.write(payload.clone()).unwrap());
            sent_by_b.push(payload);
        }
        if n % 5 == 0 {
            settle(&mut a, &mut b);
        }
    }
    settle(&mut a, &mut b);
    assert_eq!(b.received, sent_by_a);
    assert_eq!(a.received, sent_by_b);
}

#[test]
fn lost_frame_is_repaired() {
    let mut a = end();
    let mut b = end();
    b.inbox.extend(a.session.connect());
    settle(&mut a, &mut b);
    // The first frame is damaged on the way, the second arrives intact.
    let mut first = a.session.write(vec![1, 1, 1]).unwrap();
    first[3] ^= 0x40;
    b.inbox.extend(first);
    settle(&mut a, &mut b);
    assert_eq!(b.received, vec![vec![1, 1, 1]]);
    b.inbox.extend(a.session.write(vec![2, 2]).unwrap());
    settle(&mut a, &mut b);
    assert_eq!(b.received, vec![vec![1, 1, 1], vec![2, 2]]);
}
