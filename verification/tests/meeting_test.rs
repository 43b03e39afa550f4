//! Two nodes that meet by a pairing code.

use crossbag::config::CrossBagConfig;
use crossbag::frame::frame_message;
use crossbag::identity::NodeId;
use crossbag::ipv4::Ipv4;
use crossbag::meeting::{
    Action, ConnectorSession, Due, Event, ListenerSession, MeetingError, PairingConnector, Part,
    ADDRESS_TRIES,
};
use crossbag::pairing::{PairingCode, PairingListener, PeerInfo};
use crossbag::protocol::{
    Handshake, HandshakeAck, Message, PairRequest, PairResponse, PROTOCOL_VERSION,
};
use std::sync::Arc;

const TOKEN: [u8; 4] = [1, 2, 3, 4];

fn config(name: &str, id: u8) -> CrossBagConfig {
    CrossBagConfig::for_node(NodeId { bytes: [id; 16] }, name.to_string(), "i".to_string())
}

fn code(token: [u8; 4]) -> PairingCode {
    PairingCode::with_token([0; 4], 11010, "net", "", token)
}

fn address() -> Ipv4 {
    Ipv4 { a: 10, b: 144, c: 144, d: 1 }
}

/// Where the peer connects from.
fn remote() -> Ipv4 {
    Ipv4 { a: 10, b: 144, c: 144, d: 2 }
}

fn ask(version: u32, token: [u8; 4]) -> Message {
    Message::PairRequest(PairRequest {
        protocol_version: version,
        auth_token: token,
        node_id: NodeId { bytes: [2; 16] },
        node_name: "beta".into(),
        hostname: "box".into(),
    })
}

/// Runs the two ends of a connection against each other until both are done.
/// `found` is how often the listener has to ask for its address.
fn meet(typed: [u8; 4], found: u32) -> (Result<PeerInfo, String>, Result<PeerInfo, String>) {
    let (mut listener, mut to_do) =
        ListenerSession::new(&config("alpha", 1), TOKEN, Some(remote()));
    let connector = PairingConnector::new(Arc::new(config("beta", 2)));
    let (mut session, mut next) = connector.start(&code(typed), Some("box".into()));
    let mut to_listener: Vec<u8> = Vec::new();
    let mut to_connector: Vec<u8> = Vec::new();
    let mut asked = 0;
    let mut one: Option<Result<PeerInfo, String>> = None;
    let mut two: Option<Result<PeerInfo, String>> = None;
    for _ in 0..100 {
        if one.is_none() {
            match &to_do {
                Action::Read(n) => {
                    let n = *n as usize;
                    if to_listener.len() >= n {
                        let bytes = to_listener.drain(..n).collect();
                        to_do = listener.step(Event::Read(bytes));
                    } else if two.is_some() {
                        to_do = listener.step(Event::ReadFailed);
                    }
                }
                Action::Send(b) => {
                    to_connector.extend_from_slice(b);
                    to_do = listener.step(Event::Sent);
                }
                Action::AskAddress => {
                    asked += 1;
                    let ip = if asked >= found { Some(address()) } else { None };
                    to_do = listener.step(Event::Address(ip));
                }
                Action::Wait => to_do = listener.step(Event::Waited),
                Action::Finish(p) => one = Some(Ok(p.clone())),
                Action::Fail(e) => one = Some(Err(e.text())),
            }
        }
        if two.is_none() {
            match &next {
                Action::Read(n) => {
                    let n = *n as usize;
                    if to_connector.len() >= n {
                        let bytes = to_connector.drain(..n).collect();
                        next = session.step(Event::Read(bytes));
                    } else if one.is_some() {
                        next = session.step(Event::ReadFailed);
                    }
                }
                Action::Send(b) => {
                    to_listener.extend_from_slice(b);
                    next = session.step(Event::Sent);
                }
                Action::Finish(p) => two = Some(Ok(p.clone())),
                Action::Fail(e) => two = Some(Err(e.text())),
                a => panic!("{:?}", a),
            }
        }
    }
    (one.unwrap(), two.unwrap())
}

#[test]
fn the_right_token_pairs() {
    let (one, two) = meet(TOKEN, 1);
    let seen = one.unwrap();
    assert_eq!(seen.node_id.bytes, [2; 16]);
    assert_eq!(seen.node_name, "beta");
    assert_eq!(seen.hostname, "box");
    assert_eq!(seen.virtual_ip, "10.144.144.2");
    let seen = two.unwrap();
    assert_eq!(seen.node_id.bytes, [1; 16]);
    assert_eq!(seen.node_name, "alpha");
    assert_eq!(seen.hostname, "");
    assert_eq!(seen.virtual_ip, "10.144.144.1");
}

#[test]
fn the_address_is_asked_for_again() {
    assert_eq!(ADDRESS_TRIES, 10);
    let (one, two) = meet(TOKEN, 10);
    assert_eq!(one.unwrap().virtual_ip, "10.144.144.2");
    assert_eq!(two.unwrap().virtual_ip, "10.144.144.1");
    // After ten failures the nodes pair without.
    let (one, two) = meet(TOKEN, 11);
    assert_eq!(one.unwrap().virtual_ip, "10.144.144.2");
    assert_eq!(two.unwrap().virtual_ip, "");
}

#[test]
fn a_wrong_token_is_refused() {
    let (one, two) = meet([4, 3, 2, 1], 1);
    assert_eq!(one.unwrap_err(), "Auth token mismatch");
    assert_eq!(two.unwrap_err(), "Pairing rejected: Auth token mismatch");
}

/// Hands a message to a listener that waits for one.
fn tell(l: &mut ListenerSession, m: &Message) -> Action {
    let bytes = frame_message(m).unwrap();
    match l.step(Event::Read(bytes[..4].to_vec())) {
        Action::Read(n) => assert_eq!(n as usize, bytes.len() - 4),
        a => panic!("{:?}", a),
    }
    l.step(Event::Read(bytes[4..].to_vec()))
}

fn listener() -> ListenerSession {
    listener_of(Some(remote()))
}

fn listener_of(remote: Option<Ipv4>) -> ListenerSession {
    let (l, first) = ListenerSession::new(&config("alpha", 1), TOKEN, remote);
    assert!(matches!(first, Action::Read(4)));
    l
}

fn response(a: &Action) -> PairResponse {
    match a {
        Action::Send(b) => match Message::from_bytes(&b[4..]).unwrap() {
            Message::PairResponse(r) => r,
            m => panic!("{:?}", m),
        },
        a => panic!("{:?}", a),
    }
}

fn error(a: Action) -> MeetingError {
    match a {
        Action::Fail(e) => e,
        a => panic!("{:?}", a),
    }
}

#[test]
fn another_version_is_refused() {
    let mut l = listener();
    let r = response(&tell(&mut l, &ask(PROTOCOL_VERSION + 1, TOKEN)));
    assert!(!r.accepted);
    assert_eq!(r.message.as_deref(), Some("Protocol version mismatch"));
    assert_eq!(r.node_name, "alpha");
    assert!(r.virtual_ip.is_none());
    assert_eq!(
        error(l.step(Event::Sent)).text(),
        "Protocol version mismatch"
    );
    // The token counts first.
    let mut l = listener();
    let r = response(&tell(&mut l, &ask(PROTOCOL_VERSION + 1, [0; 4])));
    assert_eq!(r.message.as_deref(), Some("Auth token mismatch"));
    assert!(matches!(
        error(l.step(Event::SendFailed)),
        MeetingError::SendFailed
    ));
}

#[test]
fn bad_requests_end_the_meeting() {
    let mut l = listener();
    let e = error(l.step(Event::ReadFailed));
    assert!(matches!(
        e,
        MeetingError::ReadFailed(Due::PairRequest, Part::Length)
    ));
    assert_eq!(e.text(), "Failed to read pairing message length");
    assert!(matches!(
        error(l.step(Event::Read(vec![0; 4]))),
        MeetingError::OutOfTurn
    ));
    let mut l = listener();
    let e = error(l.step(Event::Read(vec![0xFF; 4])));
    assert_eq!(e.text(), "Pairing message too large: 4294967295 bytes");
    let mut l = listener();
    l.step(Event::Read(vec![0, 0, 0, 2]));
    assert_eq!(
        error(l.step(Event::Read(vec![1, 2]))).text(),
        "Failed to decode pairing message"
    );
    let mut l = listener();
    l.step(Event::Read(vec![0, 0, 0, 2]));
    assert_eq!(
        error(l.step(Event::ReadFailed)).text(),
        "Failed to read pairing message body"
    );
    let mut l = listener();
    let other = Message::PairResponse(PairResponse {
        accepted: true,
        node_id: NodeId { bytes: [0; 16] },
        node_name: "".into(),
        virtual_ip: None,
        message: None,
    });
    assert_eq!(
        error(tell(&mut l, &other)).text(),
        format!(
            "Expected PairRequest, got {:?}",
            std::mem::discriminant(&other)
        )
    );
}

fn accepted() -> ListenerSession {
    accepted_of(Some(remote()))
}

fn accepted_of(remote: Option<Ipv4>) -> ListenerSession {
    let mut l = listener_of(remote);
    assert!(matches!(
        tell(&mut l, &ask(PROTOCOL_VERSION, TOKEN)),
        Action::AskAddress
    ));
    let r = response(&l.step(Event::Address(Some(address()))));
    assert!(r.accepted);
    assert_eq!(r.virtual_ip.as_deref(), Some("10.144.144.1"));
    assert!(matches!(l.step(Event::Sent), Action::Read(4)));
    l
}

#[test]
fn pairing_without_a_handshake() {
    // The peer is gone, or sends too much: it is paired, at no address.
    let mut l = accepted();
    match l.step(Event::ReadFailed) {
        Action::Finish(p) => {
            assert_eq!(p.node_name, "beta");
            assert_eq!(p.virtual_ip, "");
        }
        a => panic!("{:?}", a),
    }
    let mut l = accepted();
    match l.step(Event::Read(vec![0xFF; 4])) {
        Action::Finish(p) => assert_eq!(p.virtual_ip, ""),
        a => panic!("{:?}", a),
    }
    // It sends something else: it is paired.
    let mut l = accepted();
    match tell(&mut l, &ask(PROTOCOL_VERSION, TOKEN)) {
        Action::Finish(p) => assert_eq!(p.virtual_ip, "10.144.144.2"),
        a => panic!("{:?}", a),
    }
}

#[test]
fn a_peer_is_never_at_the_own_address() {
    for (from, at) in [
        (Some(remote()), "10.144.144.2"),
        (Some(address()), ""),
        (None, ""),
    ] {
        let mut l = accepted_of(from);
        let hello = Message::Handshake(Handshake {
            protocol_version: PROTOCOL_VERSION,
            node_id: NodeId { bytes: [2; 16] },
            node_name: "beta".into(),
            hostname: "box".into(),
        });
        assert!(matches!(tell(&mut l, &hello), Action::Send(_)));
        match l.step(Event::Sent) {
            Action::Finish(p) => assert_eq!(p.virtual_ip, at),
            a => panic!("{:?}", a),
        }
    }
}

fn connector() -> ConnectorSession {
    let (mut c, first) = ConnectorSession::new(&config("beta", 2), &code(TOKEN), "box".into());
    match first {
        Action::Send(b) => match Message::from_bytes(&b[4..]).unwrap() {
            Message::PairRequest(r) => {
                assert_eq!(r.auth_token, TOKEN);
                assert_eq!(r.protocol_version, PROTOCOL_VERSION);
                assert_eq!(r.node_name, "beta");
            }
            m => panic!("{:?}", m),
        },
        a => panic!("{:?}", a),
    }
    assert!(matches!(c.step(Event::Sent), Action::Read(4)));
    c
}

fn hear(c: &mut ConnectorSession, m: &Message) -> Action {
    let bytes = frame_message(m).unwrap();
    c.step(Event::Read(bytes[..4].to_vec()));
    c.step(Event::Read(bytes[4..].to_vec()))
}

fn reply(accepted: bool, message: Option<&str>) -> Message {
    Message::PairResponse(PairResponse {
        accepted,
        node_id: NodeId { bytes: [1; 16] },
        node_name: "alpha".into(),
        virtual_ip: Some("10.1.1.1".into()),
        message: message.map(|m| m.to_string()),
    })
}

fn hello(accepted: bool) -> Message {
    Message::HandshakeAck(HandshakeAck {
        accepted,
        node_id: NodeId { bytes: [1; 16] },
        node_name: "alpha".into(),
        message: Some("why".into()),
    })
}

#[test]
fn answers_to_a_request() {
    let mut c = connector();
    let a = hear(&mut c, &reply(true, None));
    assert!(matches!(a, Action::Send(_)));
    c.step(Event::Sent);
    match hear(&mut c, &hello(true)) {
        Action::Finish(p) => assert_eq!(p.virtual_ip, "10.1.1.1"),
        a => panic!("{:?}", a),
    }
    // A handshake that is refused.
    let mut c = connector();
    hear(&mut c, &reply(true, None));
    c.step(Event::Sent);
    assert_eq!(
        error(hear(&mut c, &hello(false))).text(),
        "Handshake rejected: Some(\"why\")"
    );
    // Any other answer to the handshake is let pass.
    let mut c = connector();
    hear(&mut c, &reply(true, None));
    c.step(Event::Sent);
    assert!(matches!(
        hear(&mut c, &reply(true, None)),
        Action::Finish(_)
    ));

    let mut c = connector();
    assert_eq!(
        error(hear(&mut c, &reply(false, None))).text(),
        "Pairing rejected: Unknown reason"
    );
    let mut c = connector();
    assert_eq!(
        error(hear(&mut c, &hello(true))).text(),
        format!(
            "Expected PairResponse, got {:?}",
            std::mem::discriminant(&hello(true))
        )
    );
    let mut c = connector();
    assert_eq!(
        error(c.step(Event::ReadFailed)).text(),
        "Failed to read PairResponse length"
    );
    let mut c = connector();
    assert_eq!(
        error(c.step(Event::Read(vec![1, 0, 0, 0]))).text(),
        "PairResponse too large: 16777216 bytes"
    );
    let mut c = connector();
    c.step(Event::Read(vec![0, 0, 0, 1]));
    assert_eq!(
        error(c.step(Event::Read(vec![0]))).text(),
        "Failed to decode PairResponse"
    );
    let mut c = connector();
    c.step(Event::Read(vec![0, 0, 0, 1]));
    assert_eq!(
        error(c.step(Event::ReadFailed)).text(),
        "Failed to read PairResponse body"
    );
    let greeted = || {
        let mut c = connector();
        hear(&mut c, &reply(true, None));
        c.step(Event::Sent);
        c
    };
    assert_eq!(
        error(greeted().step(Event::ReadFailed)).text(),
        "Failed to read HandshakeAck length"
    );
    assert_eq!(
        error(greeted().step(Event::Read(vec![1, 0, 0, 0]))).text(),
        "HandshakeAck too large"
    );
    let mut c = greeted();
    c.step(Event::Read(vec![0, 0, 0, 1]));
    assert_eq!(
        error(c.step(Event::ReadFailed)).text(),
        "Failed to read HandshakeAck body"
    );
}

#[test]
fn where_to_connect() {
    let c = PairingConnector::new(Arc::new(config("beta", 2)));
    let other = Ipv4 { a: 10, b: 0, c: 0, d: 5 };
    assert_eq!(
        c.peer_address(Some(other), Some(address())).as_deref(),
        Some("10.0.0.5:9527")
    );
    assert_eq!(
        c.peer_address(None, Some(address())).as_deref(),
        Some("10.144.144.1:9527")
    );
    assert_eq!(c.peer_address(None, None), None);
    match c.connect(&code(TOKEN)).1 {
        Action::Send(b) => match Message::from_bytes(&b[4..]).unwrap() {
            Message::PairRequest(r) => {
                assert_eq!(r.hostname, hostname::get().unwrap().to_string_lossy())
            }
            m => panic!("{:?}", m),
        },
        a => panic!("{:?}", a),
    }
}

/// The code that one node shows, typed on the other, pairs the two.
#[test]
fn a_shown_code_pairs() {
    let mut shown = PairingListener::new(Arc::new(config("alpha", 1)));
    let typed = shown.generate_code([0; 4]).unwrap().to_lowercase();
    let code = PairingCode::decode(&typed).unwrap();
    let (mut l, _) = ListenerSession::new(&config("alpha", 1), shown.auth_token(), None);
    assert!(matches!(
        tell(&mut l, &ask(PROTOCOL_VERSION, code.auth_token())),
        Action::AskAddress
    ));
}
