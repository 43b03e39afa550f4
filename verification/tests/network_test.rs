//! Connections, frames and handshakes.

use crossbag::clock::Timestamp;
use crossbag::config::CrossBagConfig;
use crossbag::daemon::SyncAction;
use crossbag::frame::{frame_message, framed, payload_len, MEETING_LIMIT, PEER_LIMIT};
use crossbag::identity::NodeId;
use crossbag::meeting::{Event, MeetingError};
use crossbag::network::{
    forward_to_daemon, ConnectionState, GreetingAction, GreetingSession, NetworkCommand,
    NetworkManager, PeerStream,
};
use crossbag::protocol::{
    FileIndex, FileRequest, Handshake, HandshakeAck, Heartbeat, Message, PROTOCOL_VERSION,
};
use std::sync::Arc;

fn config() -> CrossBagConfig {
    let mut c = CrossBagConfig::for_node(NodeId { bytes: [7; 16] }, "home".into(), "i".into());
    c.put_peer("a".into(), "A".into(), "10.0.0.1:1".into());
    c.put_peer("b".into(), "B".into(), "10.0.0.2:2".into());
    c
}

fn manager() -> NetworkManager {
    let mut m = NetworkManager::new(Arc::new(config()));
    assert!(!m.keeps_connecting());
    m.start();
    m
}

fn request(pair: &str) -> Message {
    Message::FileRequest(FileRequest {
        pair_id: pair.to_string(),
        files: vec!["x".into(), "y".into()],
    })
}

fn handshake(version: u32) -> Message {
    Message::Handshake(Handshake {
        protocol_version: version,
        node_id: NodeId { bytes: [9; 16] },
        node_name: "peer".into(),
        hostname: "host".into(),
    })
}

fn ack(accepted: bool, message: Option<&str>) -> Message {
    Message::HandshakeAck(HandshakeAck {
        accepted,
        node_id: NodeId { bytes: [9; 16] },
        node_name: "peer".into(),
        message: message.map(|m| m.to_string()),
    })
}

fn state(m: &NetworkManager, id: &str) -> String {
    format!("{:?}", m.get_connection_states().get(id).unwrap())
}

#[test]
fn frames() {
    assert_eq!(framed(b""), vec![0, 0, 0, 0]);
    assert_eq!(framed(b"abc"), vec![0, 0, 0, 3, b'a', b'b', b'c']);
    let long = vec![1u8; 70_000];
    assert_eq!(framed(&long)[..4], [0, 1, 0x11, 0x70]);
    assert_eq!(payload_len(&[0, 1, 0x11, 0x70], PEER_LIMIT), Ok(70_000));
    assert_eq!(payload_len(&[0x06, 0x40, 0, 0], PEER_LIMIT), Ok(PEER_LIMIT));
    assert_eq!(
        payload_len(&[0x06, 0x40, 0, 1], PEER_LIMIT),
        Err(PEER_LIMIT + 1)
    );
    assert_eq!(payload_len(&[0xFF; 4], MEETING_LIMIT), Err(u32::MAX));
    assert_eq!(MEETING_LIMIT, 10 * 1024 * 1024);
    assert_eq!(PEER_LIMIT, 100 * 1024 * 1024);

    let stream = [framed(b"one"), framed(b"two!")].concat();
    let n = payload_len(&[stream[0], stream[1], stream[2], stream[3]], PEER_LIMIT).unwrap();
    assert_eq!(stream[4..4 + n as usize], *b"one");
    assert_eq!(stream[4 + n as usize..], framed(b"two!"));
}

#[test]
fn connections_come_and_go() {
    let mut m = manager();
    assert!(m.keeps_connecting());
    assert_eq!(m.peers_to_connect(), vec!["a", "b"]);
    assert_eq!(state(&m, "a"), "Disconnected");
    m.connecting("a");
    assert_eq!(state(&m, "a"), "Connecting");
    assert_eq!(m.peers_to_connect(), vec!["a", "b"]);
    m.connected("a");
    assert_eq!(m.peers_to_connect(), vec!["b"]);
    assert_eq!(m.connected_peers(), vec!["a"]);
    m.failed("b", "refused".into());
    assert_eq!(state(&m, "b"), "Failed(\"refused\")");
    m.connected("stranger");
    assert_eq!(m.get_connection_states().len(), 2);

    // When reading ends the peer can still be written to.
    m.reader_closed("a");
    assert_eq!(state(&m, "a"), "Disconnected");
    assert!(m.send_to_peer("a", &request("p")).is_ok());
    m.writer_closed("a");
    assert_eq!(
        m.send_to_peer("a", &request("p")).unwrap_err().text(),
        "Peer a not connected"
    );

    m.add_peer_connection("c".into(), "C".into(), "10.0.0.3:3".into());
    assert_eq!(m.connected_peers(), vec!["c"]);
    m.stop();
    assert!(!m.keeps_connecting());
    assert!(m.connected_peers().is_empty());
    assert_eq!(state(&m, "c"), "Disconnected");
    assert!(m.send_to_peer("c", &request("p")).is_err());
    assert_eq!(m.get_connection_states().len(), 3);
    assert!(ConnectionState::Connected.is_connected());
    assert!(!ConnectionState::Connecting.copy().is_connected());
}

#[test]
fn messages_are_routed() {
    let mut m = manager();
    m.connected("b");
    let bytes = frame_message(&request("p")).unwrap();
    assert_eq!(m.send_to_peer("b", &request("p")).unwrap(), bytes);
    assert!(m.send_to_peer("x", &request("p")).is_err());

    let d = m.route(&NetworkCommand::SendToPeer {
        peer_id: "b".into(),
        message: request("p"),
    });
    assert_eq!(d.peers, vec!["b"]);
    assert_eq!(d.frame, bytes);
    let d = m.route(&NetworkCommand::SendToPeer {
        peer_id: "a".into(),
        message: request("p"),
    });
    assert!(d.peers.is_empty());
    m.connected("a");
    let d = m.route(&NetworkCommand::Broadcast(request("p")));
    assert_eq!(d.peers, vec!["a", "b"]);
    assert_eq!(d.frame, bytes);
}

#[test]
fn what_is_forwarded() {
    match forward_to_daemon(request("docs"), "a") {
        Some(SyncAction::RemoteFileRequest {
            pair_id,
            peer_id,
            files,
        }) => {
            assert_eq!(pair_id, "docs");
            assert_eq!(peer_id, "a");
            assert_eq!(files, vec!["x", "y"]);
        }
        a => panic!("{:?}", a),
    }
    let index = Message::FileIndex(FileIndex {
        pair_id: "docs".into(),
        files: vec![],
        timestamp: Timestamp::now(),
    });
    match forward_to_daemon(index, "a") {
        Some(SyncAction::RemoteIndex { pair_id, index, .. }) => {
            assert_eq!(pair_id, "docs");
            assert_eq!(index.pair_id, "docs");
        }
        a => panic!("{:?}", a),
    }
    let beat = Message::Heartbeat(Heartbeat {
        node_id: NodeId { bytes: [0; 16] },
        timestamp: Timestamp::now(),
    });
    assert!(forward_to_daemon(beat, "a").is_none());
}

/// Hands a frame to a stream, header first. What it sends and whether it hands
/// something on, and how much it reads then.
fn feed(s: &mut PeerStream, m: &Message) -> (Option<Vec<u8>>, bool, Option<u32>) {
    let bytes = frame_message(m).unwrap();
    let step = s.step(Some(bytes[..4].to_vec()));
    assert_eq!(step.read, Some(bytes.len() as u32 - 4));
    assert!(step.send.is_none() && step.deliver.is_none());
    let step = s.step(Some(bytes[4..].to_vec()));
    (step.send, step.deliver.is_some(), step.read)
}

#[test]
fn a_stream_with_a_handshake() {
    let c = config();
    let mut s = PeerStream::incoming(&c, "10.0.0.9:99".into());
    let (send, deliver, read) = feed(&mut s, &handshake(PROTOCOL_VERSION));
    let reply = send.unwrap();
    match Message::from_bytes(&reply[4..]).unwrap() {
        Message::HandshakeAck(a) => {
            assert!(a.accepted);
            assert_eq!(a.node_name, "home");
            assert_eq!(a.node_id.bytes, [7; 16]);
            assert!(a.message.is_none());
        }
        m => panic!("{:?}", m),
    }
    assert!(!deliver);
    assert_eq!(read, Some(4));
    assert_eq!(feed(&mut s, &request("docs")), (None, true, Some(4)));
    assert_eq!(feed(&mut s, &ack(true, None)), (None, false, Some(4)));
    // What cannot be read is passed over once the stream has begun.
    s.step(Some(vec![0, 0, 0, 1]));
    let step = s.step(Some(vec![0xFF]));
    assert!(step.deliver.is_none());
    assert_eq!(step.read, Some(4));
    // Too long a message ends it.
    assert_eq!(s.step(Some(vec![0xFF; 4])).read, None);
    assert_eq!(s.step(Some(vec![0; 4])).read, None);
}

#[test]
fn a_stream_of_another_version() {
    let mut s = PeerStream::incoming(&config(), "p".into());
    let (send, _, read) = feed(&mut s, &handshake(PROTOCOL_VERSION + 1));
    match Message::from_bytes(&send.unwrap()[4..]).unwrap() {
        Message::HandshakeAck(a) => {
            assert!(!a.accepted);
            assert_eq!(a.message.as_deref(), Some("Protocol version mismatch"));
        }
        m => panic!("{:?}", m),
    }
    assert_eq!(read, None);
}

#[test]
fn a_stream_without_a_handshake() {
    let c = config();
    let mut s = PeerStream::incoming(&c, "p".into());
    assert_eq!(feed(&mut s, &request("docs")), (None, true, Some(4)));

    // Nonsense at the start ends it.
    let mut s = PeerStream::incoming(&c, "p".into());
    assert_eq!(s.step(Some(vec![0, 0, 0, 1])).read, Some(1));
    assert_eq!(s.step(Some(vec![0xFF])).read, None);

    // So does a connection that breaks.
    let mut s = PeerStream::established(&c, "p".into());
    assert_eq!(feed(&mut s, &request("docs")), (None, true, Some(4)));
    assert_eq!(s.step(None).read, None);
}

fn greet(reply: &Message) -> GreetingAction {
    let (mut g, first) = GreetingSession::start(&config(), Some("box".into()));
    match first {
        GreetingAction::Send(b) => match Message::from_bytes(&b[4..]).unwrap() {
            Message::Handshake(h) => {
                assert_eq!(h.protocol_version, PROTOCOL_VERSION);
                assert_eq!(h.node_name, "home");
                assert_eq!(h.hostname, "box");
            }
            m => panic!("{:?}", m),
        },
        a => panic!("{:?}", a),
    }
    assert!(matches!(g.step(Event::Sent), GreetingAction::Read(4)));
    let bytes = frame_message(reply).unwrap();
    match g.step(Event::Read(bytes[..4].to_vec())) {
        GreetingAction::Read(n) => assert_eq!(n as usize, bytes.len() - 4),
        a => panic!("{:?}", a),
    }
    g.step(Event::Read(bytes[4..].to_vec()))
}

fn failure(a: GreetingAction) -> String {
    match a {
        GreetingAction::Fail(e) => e.text(),
        a => panic!("{:?}", a),
    }
}

#[test]
fn greetings() {
    assert!(matches!(greet(&ack(true, None)), GreetingAction::Done));
    assert_eq!(
        failure(greet(&ack(false, Some("no \"thanks\"")))),
        format!("Handshake rejected: {:?}", Some("no \"thanks\""))
    );
    assert_eq!(
        failure(greet(&ack(false, None))),
        format!("Handshake rejected: {:?}", None::<String>)
    );
    assert_eq!(
        failure(greet(&request("p"))),
        format!(
            "Expected HandshakeAck, got {:?}",
            std::mem::discriminant(&request("p"))
        )
    );

    let start = || GreetingSession::start(&config(), None).0;
    let mut g = start();
    assert_eq!(
        failure(g.step(Event::SendFailed)),
        "Failed to send handshake"
    );
    assert!(matches!(
        g.step(Event::Sent),
        GreetingAction::Fail(MeetingError::OutOfTurn)
    ));
    let mut g = start();
    g.step(Event::Sent);
    assert_eq!(
        failure(g.step(Event::ReadFailed)),
        "Failed to read handshake ack length"
    );
    let mut g = start();
    g.step(Event::Sent);
    assert_eq!(
        failure(g.step(Event::Read(vec![1, 0, 0, 0]))),
        "Handshake ack too large: 16777216 bytes"
    );
    let mut g = start();
    g.step(Event::Sent);
    g.step(Event::Read(vec![0, 0, 0, 1]));
    assert_eq!(
        failure(g.step(Event::Read(vec![0xFF]))),
        "Failed to decode handshake ack"
    );
    let mut g = start();
    g.step(Event::Sent);
    g.step(Event::Read(vec![0, 0, 0, 1]));
    assert_eq!(
        failure(g.step(Event::ReadFailed)),
        "Failed to read handshake ack body"
    );

    // The name of this machine goes out with the handshake.
    match GreetingSession::connect_and_handshake(&config()).1 {
        GreetingAction::Send(b) => match Message::from_bytes(&b[4..]).unwrap() {
            Message::Handshake(h) => {
                assert_eq!(h.hostname, hostname::get().unwrap().to_string_lossy())
            }
            m => panic!("{:?}", m),
        },
        a => panic!("{:?}", a),
    }
}

/// What one node sends, the daemon of the other gets.
#[test]
fn both_ends_of_a_connection() {
    let mut m = manager();
    m.connected("a");
    let d = m.route(&NetworkCommand::SendToPeer {
        peer_id: "a".into(),
        message: request("docs"),
    });
    let mut s = PeerStream::established(&config(), "home".into());
    let n = s.step(Some(d.frame[..4].to_vec())).read.unwrap();
    assert_eq!(n as usize, d.frame.len() - 4);
    match s.step(Some(d.frame[4..].to_vec())).deliver {
        Some(SyncAction::RemoteFileRequest { pair_id, .. }) => assert_eq!(pair_id, "docs"),
        a => panic!("{:?}", a),
    }
}
