//! How two nodes get to know each other by a pairing code.
//!
//! Each side is a machine: it is told what happened on the connection and says
//! what to do next. The node that shows the code listens; the node that was
//! given the code connects.

use vstd::prelude::*;

use crate::codec;
use crate::config;
use crate::config::CrossBagConfig;
use crate::digest::same_bytes;
use crate::frame;
use crate::frame::{frame_message, payload_len, MEETING_LIMIT};
use crate::identity::NodeId;
use crate::ipv4;
use crate::ipv4::{ip_text, Ipv4};
use crate::numbers;
use crate::numbers::decimal_text;
use crate::pairing::{PairingCode, PeerInfo};
use crate::protocol;
use crate::protocol::{
    Handshake, HandshakeAck, Message, PairRequest, PairResponse, PROTOCOL_VERSION,
};
use crate::text;

verus! {

/// How often a node asks for its own virtual address before it goes on without.
pub const ADDRESS_TRIES: u32 = 10;

/// What happened.
#[derive(Debug, Clone)]
pub enum Event {
    /// The bytes that were asked for.
    Read(Vec<u8>),
    ReadFailed,
    /// What was to be sent is sent.
    Sent,
    SendFailed,
    /// The virtual address of this node, if it could be had.
    Address(Option<Ipv4>),
    /// The pause is over.
    Waited,
}

/// What to do next.
#[derive(Debug, Clone)]
pub enum Action {
    /// Read as many bytes.
    Read(u32),
    Send(Vec<u8>),
    /// Ask for the virtual address of this node.
    AskAddress,
    /// Pause for a second.
    Wait,
    /// The nodes are paired.
    Finish(PeerInfo),
    /// They are not.
    Fail(MeetingError),
}

/// The message that is due.
#[derive(Debug, Clone, Copy, PartialEq, Eq, Structural)]
pub enum Due {
    PairRequest,
    PairResponse,
    /// The answer to the handshake that follows a pairing.
    HandshakeAck,
    /// The answer to the handshake with a peer that is known.
    PeerAck,
}

/// The part of a frame.
#[derive(Debug, Clone, Copy, PartialEq, Eq, Structural)]
pub enum Part {
    Length,
    Body,
}

/// Why two nodes were not paired.
#[derive(Debug, Clone)]
pub enum MeetingError {
    /// This part of the message that was due could not be read.
    ReadFailed(Due, Part),
    SendFailed,
    /// The handshake could not be sent.
    HandshakeNotSent,
    /// The peer announced a message of this many bytes.
    TooLarge(Due, u32),
    /// The peer sent no message.
    Undecodable(Due),
    /// The peer sent a message of this kind, which was not due.
    UnexpectedMessage(Due, u32),
    TokenMismatch,
    VersionMismatch,
    /// The peer refused to be paired, and why.
    Rejected(String),
    /// The peer refused the handshake, and why if it said.
    HandshakeRejected(Option<String>),
    /// The machine was told something that it had not asked for.
    OutOfTurn,
}

#[verifier::ext_equal]
pub ghost struct PeerInfoView {
    pub node_id: Seq<u8>,
    pub node_name: Seq<char>,
    pub hostname: Seq<char>,
    pub virtual_ip: Seq<char>,
}

#[verifier::ext_equal]
pub ghost enum EventView {
    Read(Seq<u8>),
    ReadFailed,
    Sent,
    SendFailed,
    Address(Option<Ipv4>),
    Waited,
}

#[verifier::ext_equal]
pub ghost enum ActionView {
    Read(u32),
    Send(Seq<u8>),
    AskAddress,
    Wait,
    Finish(PeerInfoView),
    Fail(ErrorView),
}

#[verifier::ext_equal]
pub ghost enum ErrorView {
    ReadFailed(Due, Part),
    SendFailed,
    HandshakeNotSent,
    TooLarge(Due, u32),
    Undecodable(Due),
    UnexpectedMessage(Due, u32),
    TokenMismatch,
    VersionMismatch,
    Rejected(Seq<char>),
    HandshakeRejected(Option<Seq<char>>),
    OutOfTurn,
}

impl View for PeerInfo {
    type V = PeerInfoView;

    open spec fn view(&self) -> PeerInfoView {
        PeerInfoView {
            node_id: self.node_id@,
            node_name: self.node_name@,
            hostname: self.hostname@,
            virtual_ip: self.virtual_ip@,
        }
    }
}

impl View for Event {
    type V = EventView;

    open spec fn view(&self) -> EventView {
        match *self {
            Event::Read(b) => EventView::Read(b@),
            Event::ReadFailed => EventView::ReadFailed,
            Event::Sent => EventView::Sent,
            Event::SendFailed => EventView::SendFailed,
            Event::Address(ip) => EventView::Address(ip),
            Event::Waited => EventView::Waited,
        }
    }
}

impl View for Action {
    type V = ActionView;

    open spec fn view(&self) -> ActionView {
        match *self {
            Action::Read(n) => ActionView::Read(n),
            Action::Send(b) => ActionView::Send(b@),
            Action::AskAddress => ActionView::AskAddress,
            Action::Wait => ActionView::Wait,
            Action::Finish(p) => ActionView::Finish(p@),
            Action::Fail(e) => ActionView::Fail(e@),
        }
    }
}

impl View for MeetingError {
    type V = ErrorView;

    open spec fn view(&self) -> ErrorView {
        match *self {
            MeetingError::ReadFailed(due, part) => ErrorView::ReadFailed(due, part),
            MeetingError::SendFailed => ErrorView::SendFailed,
            MeetingError::HandshakeNotSent => ErrorView::HandshakeNotSent,
            MeetingError::TooLarge(due, n) => ErrorView::TooLarge(due, n),
            MeetingError::Undecodable(due) => ErrorView::Undecodable(due),
            MeetingError::UnexpectedMessage(due, kind) => ErrorView::UnexpectedMessage(due, kind),
            MeetingError::TokenMismatch => ErrorView::TokenMismatch,
            MeetingError::VersionMismatch => ErrorView::VersionMismatch,
            MeetingError::Rejected(s) => ErrorView::Rejected(s@),
            MeetingError::HandshakeRejected(s) => ErrorView::HandshakeRejected(
                text::option_text(s),
            ),
            MeetingError::OutOfTurn => ErrorView::OutOfTurn,
        }
    }
}

/// Who a node is.
#[verifier::ext_equal]
pub ghost struct SelfView {
    pub node_id: Seq<u8>,
    pub node_name: Seq<char>,
}

/// The frame of a message, to be sent.
pub open spec fn send(m: protocol::MessageView) -> ActionView {
    ActionView::Send(frame::frame_bytes(codec::message_bytes(m)))
}

/// The answer to a request that is refused.
pub open spec fn refusal(me: SelfView, why: Seq<char>) -> protocol::MessageView {
    protocol::MessageView::PairResponse(
        protocol::PairResponseView {
            accepted: false,
            node_id: me.node_id,
            node_name: me.node_name,
            virtual_ip: None,
            message: Some(why),
        },
    )
}

/// The answer to a request that is granted.
pub open spec fn acceptance(me: SelfView, ip: Option<Ipv4>) -> protocol::MessageView {
    protocol::MessageView::PairResponse(
        protocol::PairResponseView {
            accepted: true,
            node_id: me.node_id,
            node_name: me.node_name,
            virtual_ip: match ip {
                Some(ip) => Some(ipv4::dotted(ip)),
                None => None,
            },
            message: None,
        },
    )
}

/// The answer to a handshake.
pub open spec fn handshake_answer(me: SelfView) -> protocol::MessageView {
    protocol::MessageView::HandshakeAck(
        protocol::HandshakeAckView {
            accepted: true,
            node_id: me.node_id,
            node_name: me.node_name,
            message: None,
        },
    )
}

/// How far a listener has come.
#[verifier::ext_equal]
pub ghost enum ListenerStageView {
    RequestHeader,
    RequestBody,
    /// A refusal is on its way.
    Refusing(ErrorView),
    /// The own address was asked for, after as many failures.
    Finding(PeerInfoView, u32),
    Pausing(PeerInfoView, u32),
    /// The acceptance is on its way. The peer's address is noted.
    Answering(PeerInfoView, Option<Ipv4>),
    HandshakeHeader(PeerInfoView, Option<Ipv4>),
    HandshakeBody(PeerInfoView, Option<Ipv4>),
    /// The answer to the handshake is on its way.
    Acking(PeerInfoView, Option<Ipv4>),
    Over,
}

/// The peer, at no address.
pub open spec fn unplaced(peer: PeerInfoView) -> PeerInfoView {
    PeerInfoView { virtual_ip: Seq::empty(), ..peer }
}

/// The address of a peer that has connected from `remote`, on a node whose own
/// address is `own`: none where the two are one.
pub open spec fn elsewhere(remote: Option<Ipv4>, own: Option<Ipv4>) -> Option<Ipv4> {
    if remote == own {
        None
    } else {
        remote
    }
}

/// The peer, at this address.
pub open spec fn placed(peer: PeerInfoView, ip: Option<Ipv4>) -> PeerInfoView {
    PeerInfoView {
        virtual_ip: match ip {
            Some(ip) => ipv4::dotted(ip),
            None => Seq::empty(),
        },
        ..peer
    }
}

/// The peer that a request names.
pub open spec fn requester(r: protocol::PairRequestView) -> PeerInfoView {
    PeerInfoView {
        node_id: r.node_id,
        node_name: r.node_name,
        hostname: r.hostname,
        virtual_ip: Seq::empty(),
    }
}

/// The bytes are a request with the right token and of the right version.
pub open spec fn is_good_request(token: Seq<u8>, b: Seq<u8>) -> bool {
    codec::message_of(b) matches Some(protocol::MessageView::PairRequest(r)) && r.auth_token
        == token && r.protocol_version == PROTOCOL_VERSION
}

/// What a listener makes of the first message.
pub open spec fn judged(me: SelfView, token: Seq<u8>, b: Seq<u8>) -> (
    ListenerStageView,
    ActionView,
) {
    match codec::message_of(b) {
        None => (
            ListenerStageView::Over,
            ActionView::Fail(ErrorView::Undecodable(Due::PairRequest)),
        ),
        Some(protocol::MessageView::PairRequest(r)) => if r.auth_token != token {
            (
                ListenerStageView::Refusing(ErrorView::TokenMismatch),
                send(refusal(me, "Auth token mismatch"@)),
            )
        } else if r.protocol_version != PROTOCOL_VERSION {
            (
                ListenerStageView::Refusing(ErrorView::VersionMismatch),
                send(refusal(me, "Protocol version mismatch"@)),
            )
        } else {
            (ListenerStageView::Finding(requester(r), 0), ActionView::AskAddress)
        },
        Some(m) => (
            ListenerStageView::Over,
            ActionView::Fail(ErrorView::UnexpectedMessage(Due::PairRequest, codec::kind_of(m))),
        ),
    }
}

/// What a listener does next: the stage that it comes to, and the action.
#[verifier::opaque]
pub open spec fn listener_next(
    me: SelfView,
    token: Seq<u8>,
    remote: Option<Ipv4>,
    stage: ListenerStageView,
    event: EventView,
) -> (ListenerStageView, ActionView) {
    let out_of_turn = (ListenerStageView::Over, ActionView::Fail(ErrorView::OutOfTurn));
    let unsendable = (ListenerStageView::Over, ActionView::Fail(ErrorView::SendFailed));
    match stage {
        ListenerStageView::RequestHeader => match event {
            EventView::Read(b) => if b.len() != 4 {
                out_of_turn
            } else if frame::be_value(b) > MEETING_LIMIT {
                (
                    ListenerStageView::Over,
                    ActionView::Fail(
                        ErrorView::TooLarge(Due::PairRequest, frame::be_value(b) as u32),
                    ),
                )
            } else {
                (ListenerStageView::RequestBody, ActionView::Read(frame::be_value(b) as u32))
            },
            EventView::ReadFailed => (
                ListenerStageView::Over,
                ActionView::Fail(ErrorView::ReadFailed(Due::PairRequest, Part::Length)),
            ),
            _ => out_of_turn,
        },
        ListenerStageView::RequestBody => match event {
            EventView::Read(b) => judged(me, token, b),
            EventView::ReadFailed => (
                ListenerStageView::Over,
                ActionView::Fail(ErrorView::ReadFailed(Due::PairRequest, Part::Body)),
            ),
            _ => out_of_turn,
        },
        ListenerStageView::Refusing(why) => match event {
            EventView::Sent => (ListenerStageView::Over, ActionView::Fail(why)),
            EventView::SendFailed => unsendable,
            _ => out_of_turn,
        },
        ListenerStageView::Finding(peer, tries) => match event {
            EventView::Address(Some(ip)) => (
                ListenerStageView::Answering(peer, elsewhere(remote, Some(ip))),
                send(acceptance(me, Some(ip))),
            ),
            EventView::Address(None) => if tries + 1 < ADDRESS_TRIES {
                (ListenerStageView::Pausing(peer, (tries + 1) as u32), ActionView::Wait)
            } else {
                (
                    ListenerStageView::Answering(peer, elsewhere(remote, None)),
                    send(acceptance(me, None)),
                )
            },
            _ => out_of_turn,
        },
        ListenerStageView::Pausing(peer, tries) => match event {
            EventView::Waited => (ListenerStageView::Finding(peer, tries), ActionView::AskAddress),
            _ => out_of_turn,
        },
        ListenerStageView::Answering(peer, ip) => match event {
            EventView::Sent => (ListenerStageView::HandshakeHeader(peer, ip), ActionView::Read(4)),
            EventView::SendFailed => unsendable,
            _ => out_of_turn,
        },
        ListenerStageView::HandshakeHeader(peer, ip) => match event {
            EventView::Read(b) => if b.len() != 4 {
                out_of_turn
            } else if frame::be_value(b) > MEETING_LIMIT {
                (ListenerStageView::Over, ActionView::Finish(unplaced(peer)))
            } else {
                (
                    ListenerStageView::HandshakeBody(peer, ip),
                    ActionView::Read(frame::be_value(b) as u32),
                )
            },
            EventView::ReadFailed => (
                ListenerStageView::Over,
                ActionView::Finish(unplaced(peer)),
            ),
            _ => out_of_turn,
        },
        ListenerStageView::HandshakeBody(peer, ip) => match event {
            EventView::Read(b) => match codec::message_of(b) {
                Some(protocol::MessageView::Handshake(_)) => (
                    ListenerStageView::Acking(peer, ip),
                    send(handshake_answer(me)),
                ),
                _ => (ListenerStageView::Over, ActionView::Finish(placed(peer, ip))),
            },
            EventView::ReadFailed => (
                ListenerStageView::Over,
                ActionView::Finish(unplaced(peer)),
            ),
            _ => out_of_turn,
        },
        ListenerStageView::Acking(peer, ip) => match event {
            EventView::Sent => (ListenerStageView::Over, ActionView::Finish(placed(peer, ip))),
            EventView::SendFailed => unsendable,
            _ => out_of_turn,
        },
        ListenerStageView::Over => out_of_turn,
    }
}

/// How far a listener has come.
enum ListenerStage {
    RequestHeader,
    RequestBody,
    RefusingToken,
    RefusingVersion,
    Finding(PeerInfo, u32),
    Pausing(PeerInfo, u32),
    Answering(PeerInfo, Option<Ipv4>),
    HandshakeHeader(PeerInfo, Option<Ipv4>),
    HandshakeBody(PeerInfo, Option<Ipv4>),
    Acking(PeerInfo, Option<Ipv4>),
    Over,
}

impl View for ListenerStage {
    type V = ListenerStageView;

    closed spec fn view(&self) -> ListenerStageView {
        match *self {
            ListenerStage::RequestHeader => ListenerStageView::RequestHeader,
            ListenerStage::RequestBody => ListenerStageView::RequestBody,
            ListenerStage::RefusingToken => ListenerStageView::Refusing(ErrorView::TokenMismatch),
            ListenerStage::RefusingVersion => ListenerStageView::Refusing(
                ErrorView::VersionMismatch,
            ),
            ListenerStage::Finding(p, n) => ListenerStageView::Finding(p@, n),
            ListenerStage::Pausing(p, n) => ListenerStageView::Pausing(p@, n),
            ListenerStage::Answering(p, ip) => ListenerStageView::Answering(p@, ip),
            ListenerStage::HandshakeHeader(p, ip) => ListenerStageView::HandshakeHeader(p@, ip),
            ListenerStage::HandshakeBody(p, ip) => ListenerStageView::HandshakeBody(p@, ip),
            ListenerStage::Acking(p, ip) => ListenerStageView::Acking(p@, ip),
            ListenerStage::Over => ListenerStageView::Over,
        }
    }
}

/// A header in four bytes.
fn header_of(b: &Vec<u8>) -> (res: Option<[u8; 4]>)
    ensures
        res is Some == (b@.len() == 4),
        res matches Some(h) ==> h@ == b@,
{
    if b.len() == 4 {
        let h = [b[0], b[1], b[2], b[3]];
        assert(h@ =~= b@);
        Some(h)
    } else {
        None
    }
}

/// The side that shows the code, on one connection.
pub struct ListenerSession {
    node_id: NodeId,
    node_name: String,
    token: [u8; 4],
    remote: Option<Ipv4>,
    stage: ListenerStage,
}

/// The frame of a message, to be sent.
fn sending(m: &Message) -> (res: Action)
    ensures
        res@ == send(m@),
{
    let framed = frame_message(m);
    match framed {
        Ok(b) => Action::Send(b),
        Err(_) => Action::Fail(MeetingError::SendFailed),
    }
}

fn not_here(remote: Option<Ipv4>, own: Option<Ipv4>) -> (res: Option<Ipv4>)
    ensures
        res == elsewhere(remote, own),
{
    match (remote, own) {
        (Some(r), Some(o)) => if r == o {
            None
        } else {
            Some(r)
        },
        _ => remote,
    }
}

fn placed_at(peer: PeerInfo, ip: Option<Ipv4>) -> (res: PeerInfo)
    ensures
        res@ == placed(peer@, ip),
{
    PeerInfo {
        node_id: peer.node_id,
        node_name: peer.node_name,
        hostname: peer.hostname,
        virtual_ip: match ip {
            Some(ip) => ip_text(ip),
            None => String::new(),
        },
    }
}

impl ListenerSession {
    /// Who this node is.
    pub closed spec fn me(&self) -> SelfView {
        SelfView { node_id: self.node_id@, node_name: self.node_name@ }
    }

    /// The token that the peer has to name.
    pub closed spec fn token(&self) -> Seq<u8> {
        self.token@
    }

    /// The address that the peer has connected from, if it is known.
    pub closed spec fn remote(&self) -> Option<Ipv4> {
        self.remote
    }

    pub closed spec fn stage(&self) -> ListenerStageView {
        self.stage@
    }

    /// A peer has connected, from the address `remote`: its request is to be
    /// read.
    pub fn new(config: &CrossBagConfig, token: [u8; 4], remote: Option<Ipv4>) -> (res: (
        ListenerSession,
        Action,
    ))
        ensures
            res.0.me() == (SelfView {
                node_id: config.node.node_id@,
                node_name: config.node.name@,
            }),
            res.0.token() == token@,
            res.0.remote() == remote,
            res.0.stage() == ListenerStageView::RequestHeader,
            res.1@ == ActionView::Read(4),
    {
        (
            ListenerSession {
                node_id: config.node.node_id,
                node_name: config.node.name.clone(),
                token,
                remote,
                stage: ListenerStage::RequestHeader,
            },
            Action::Read(4),
        )
    }

    fn refusing(&self, why: &str) -> (res: Action)
        ensures
            res@ == send(refusal(self.me(), why@)),
    {
        let m = Message::PairResponse(
            PairResponse {
                accepted: false,
                node_id: self.node_id,
                node_name: self.node_name.clone(),
                virtual_ip: None,
                message: Some(why.to_owned()),
            },
        );
        assert(m@ == refusal(self.me(), why@));
        sending(&m)
    }

    fn accepting(&self, ip: Option<Ipv4>) -> (res: Action)
        ensures
            res@ == send(acceptance(self.me(), ip)),
    {
        let m = Message::PairResponse(
            PairResponse {
                accepted: true,
                node_id: self.node_id,
                node_name: self.node_name.clone(),
                virtual_ip: match ip {
                    Some(ip) => Some(ip_text(ip)),
                    None => None,
                },
                message: None,
            },
        );
        assert(m@ == acceptance(self.me(), ip));
        sending(&m)
    }

    fn acking(&self) -> (res: Action)
        ensures
            res@ == send(handshake_answer(self.me())),
    {
        let m = Message::HandshakeAck(
            HandshakeAck {
                accepted: true,
                node_id: self.node_id,
                node_name: self.node_name.clone(),
                message: None,
            },
        );
        assert(m@ == handshake_answer(self.me()));
        sending(&m)
    }

    /// What to make of the first message.
    fn judge(&self, b: &Vec<u8>) -> (res: (ListenerStage, Action))
        ensures
            (res.0@, res.1@) == judged(self.me(), self.token(), b@),
    {
        match Message::from_bytes(b.as_slice()) {
            Err(_) => (
                ListenerStage::Over,
                Action::Fail(MeetingError::Undecodable(Due::PairRequest)),
            ),
            Ok(Message::PairRequest(r)) => {
                if !same_bytes(r.auth_token.as_slice(), self.token.as_slice()) {
                    (ListenerStage::RefusingToken, self.refusing("Auth token mismatch"))
                } else if r.protocol_version != PROTOCOL_VERSION {
                    (ListenerStage::RefusingVersion, self.refusing("Protocol version mismatch"))
                } else {
                    let peer = PeerInfo {
                        node_id: r.node_id,
                        node_name: r.node_name,
                        hostname: r.hostname,
                        virtual_ip: String::new(),
                    };
                    (ListenerStage::Finding(peer, 0), Action::AskAddress)
                }
            },
            Ok(m) => (
                ListenerStage::Over,
                Action::Fail(MeetingError::UnexpectedMessage(Due::PairRequest, m.kind())),
            ),
        }
    }

    /// Goes one step on.
    pub fn step(&mut self, event: Event) -> (res: Action)
        ensures
            (final(self).stage(), res@) == listener_next(
                old(self).me(),
                old(self).token(),
                old(self).remote(),
                old(self).stage(),
                event@,
            ),
            final(self).me() == old(self).me(),
            final(self).token() == old(self).token(),
            final(self).remote() == old(self).remote(),
    {
        proof {
            reveal(listener_next);
        }
        let mut stage = ListenerStage::Over;
        std::mem::swap(&mut stage, &mut self.stage);
        let (next, action) = match (stage, event) {
            (ListenerStage::RequestHeader, Event::Read(b)) => match header_of(&b) {
                None => (ListenerStage::Over, Action::Fail(MeetingError::OutOfTurn)),
                Some(h) => match payload_len(&h, MEETING_LIMIT) {
                    Err(n) => (
                        ListenerStage::Over,
                        Action::Fail(MeetingError::TooLarge(Due::PairRequest, n)),
                    ),
                    Ok(n) => (ListenerStage::RequestBody, Action::Read(n)),
                },
            },
            (ListenerStage::RequestHeader, Event::ReadFailed) => (
                ListenerStage::Over,
                Action::Fail(MeetingError::ReadFailed(Due::PairRequest, Part::Length)),
            ),
            (ListenerStage::RequestBody, Event::ReadFailed) => (
                ListenerStage::Over,
                Action::Fail(MeetingError::ReadFailed(Due::PairRequest, Part::Body)),
            ),
            (ListenerStage::RequestBody, Event::Read(b)) => self.judge(&b),
            (ListenerStage::RefusingToken, Event::Sent) => (
                ListenerStage::Over,
                Action::Fail(MeetingError::TokenMismatch),
            ),
            (ListenerStage::RefusingVersion, Event::Sent) => (
                ListenerStage::Over,
                Action::Fail(MeetingError::VersionMismatch),
            ),
            (ListenerStage::RefusingToken, Event::SendFailed)
            | (ListenerStage::RefusingVersion, Event::SendFailed)
            | (ListenerStage::Answering(_, _), Event::SendFailed)
            | (ListenerStage::Acking(_, _), Event::SendFailed) => (
                ListenerStage::Over,
                Action::Fail(MeetingError::SendFailed),
            ),
            (ListenerStage::Finding(peer, tries), Event::Address(ip)) => match ip {
                Some(ip) => (
                    ListenerStage::Answering(peer, not_here(self.remote, Some(ip))),
                    self.accepting(Some(ip)),
                ),
                None => if tries < ADDRESS_TRIES - 1 {
                    (ListenerStage::Pausing(peer, tries + 1), Action::Wait)
                } else {
                    (
                        ListenerStage::Answering(peer, not_here(self.remote, None)),
                        self.accepting(None),
                    )
                },
            },
            (ListenerStage::Pausing(peer, tries), Event::Waited) => (
                ListenerStage::Finding(peer, tries),
                Action::AskAddress,
            ),
            (ListenerStage::Answering(peer, ip), Event::Sent) => (
                ListenerStage::HandshakeHeader(peer, ip),
                Action::Read(4),
            ),
            (ListenerStage::HandshakeHeader(peer, ip), Event::Read(b)) => match header_of(&b) {
                None => (ListenerStage::Over, Action::Fail(MeetingError::OutOfTurn)),
                Some(h) => match payload_len(&h, MEETING_LIMIT) {
                    Err(_) => (ListenerStage::Over, Action::Finish(placed_at(peer, None))),
                    Ok(n) => (ListenerStage::HandshakeBody(peer, ip), Action::Read(n)),
                },
            },
            (ListenerStage::HandshakeHeader(peer, _), Event::ReadFailed)
            | (ListenerStage::HandshakeBody(peer, _), Event::ReadFailed) => (
                ListenerStage::Over,
                Action::Finish(placed_at(peer, None)),
            ),
            (ListenerStage::HandshakeBody(peer, ip), Event::Read(b)) => {
                match Message::from_bytes(b.as_slice()) {
                    Ok(Message::Handshake(_)) => (ListenerStage::Acking(peer, ip), self.acking()),
                    _ => (ListenerStage::Over, Action::Finish(placed_at(peer, ip))),
                }
            },
            (ListenerStage::Acking(peer, ip), Event::Sent) => (
                ListenerStage::Over,
                Action::Finish(placed_at(peer, ip)),
            ),
            _ => (ListenerStage::Over, Action::Fail(MeetingError::OutOfTurn)),
        };
        self.stage = next;
        action
    }
}

/// The actions of a listener that is told `events` one after the other.
pub open spec fn listener_run(
    me: SelfView,
    token: Seq<u8>,
    remote: Option<Ipv4>,
    stage: ListenerStageView,
    events: Seq<EventView>,
) -> Seq<ActionView>
    decreases events.len(),
{
    if events.len() == 0 {
        Seq::empty()
    } else {
        let (next, action) = listener_next(me, token, remote, stage, events[0]);
        seq![action] + listener_run(me, token, remote, next, events.drop_first())
    }
}

/// A stage that no peer reaches without a good request.
pub open spec fn past_request(stage: ListenerStageView) -> bool {
    match stage {
        ListenerStageView::RequestHeader
        | ListenerStageView::RequestBody
        | ListenerStageView::Refusing(_)
        | ListenerStageView::Over => false,
        _ => true,
    }
}

proof fn lemma_run_len(
    me: SelfView,
    token: Seq<u8>,
    remote: Option<Ipv4>,
    stage: ListenerStageView,
    events: Seq<EventView>,
)
    ensures
        listener_run(me, token, remote, stage, events).len() == events.len(),
    decreases events.len(),
{
    if events.len() > 0 {
        let next = listener_next(me, token, remote, stage, events[0]).0;
        lemma_run_len(me, token, remote, next, events.drop_first());
    }
}

proof fn lemma_request_step(
    me: SelfView,
    token: Seq<u8>,
    remote: Option<Ipv4>,
    stage: ListenerStageView,
    event: EventView,
)
    requires
        !past_request(stage),
    ensures
        !(listener_next(me, token, remote, stage, event).1 is Finish),
        past_request(listener_next(me, token, remote, stage, event).0) ==> (
        event matches EventView::Read(b) && is_good_request(token, b)),
{
    reveal(listener_next);
}

proof fn lemma_finish_needs_request(
    me: SelfView,
    token: Seq<u8>,
    remote: Option<Ipv4>,
    stage: ListenerStageView,
    events: Seq<EventView>,
    i: int,
)
    requires
        !past_request(stage),
        0 <= i < events.len(),
        listener_run(me, token, remote, stage, events)[i] is Finish,
    ensures
        exists|k: int|
            0 <= k < i && (#[trigger] events[k] matches EventView::Read(b) && is_good_request(
                token,
                b,
            )),
    decreases events.len(),
{
    let (next, action) = listener_next(me, token, remote, stage, events[0]);
    let rest = events.drop_first();
    assert(listener_run(me, token, remote, stage, events) =~= seq![action] + listener_run(
        me,
        token,
        remote,
        next,
        rest,
    ));
    lemma_request_step(me, token, remote, stage, events[0]);
    lemma_run_len(me, token, remote, next, rest);
    assert(i > 0);
    if !past_request(next) {
        assert(listener_run(me, token, remote, next, rest)[i - 1] is Finish);
        lemma_finish_needs_request(me, token, remote, next, rest, i - 1);
        let k = choose|k: int|
            0 <= k < i - 1 && (#[trigger] rest[k] matches EventView::Read(b) && is_good_request(
                token,
                b,
            ));
        assert(events[k + 1] == rest[k]);
    }
}

/// Whatever happens on a connection, the listener pairs with nobody who did not
/// send a request with the right token and of the right version.
pub proof fn only_the_right_token_pairs(
    me: SelfView,
    token: Seq<u8>,
    remote: Option<Ipv4>,
    events: Seq<EventView>,
    i: int,
)
    requires
        0 <= i < events.len(),
        listener_run(me, token, remote, ListenerStageView::RequestHeader, events)[i] is Finish,
    ensures
        exists|k: int|
            0 <= k < i && (#[trigger] events[k] matches EventView::Read(b) && is_good_request(
                token,
                b,
            )),
{
    lemma_finish_needs_request(me, token, remote, ListenerStageView::RequestHeader, events, i);
}

/// A request that is refused is answered with the reason before the connection
/// is given up, and the request is not granted.
pub proof fn refused_requests_are_answered(
    me: SelfView,
    token: Seq<u8>,
    remote: Option<Ipv4>,
    b: Seq<u8>,
)
    requires
        codec::message_of(b) matches Some(protocol::MessageView::PairRequest(_)),
        !is_good_request(token, b),
    ensures
        ({
            let (stage, action) = listener_next(
                me,
                token,
                remote,
                ListenerStageView::RequestBody,
                EventView::Read(b),
            );
            &&& action == send(refusal(me, "Auth token mismatch"@)) || action == send(
                refusal(me, "Protocol version mismatch"@),
            )
            &&& listener_next(me, token, remote, stage, EventView::Sent).1 is Fail
            &&& listener_next(me, token, remote, stage, EventView::Sent).0
                == ListenerStageView::Over
        }),
{
    reveal(listener_next);
}

/// A stage past the answer in which the peer is not placed at `own`, or the end.
spec fn keeps_off(stage: ListenerStageView, own: Ipv4) -> bool {
    match stage {
        ListenerStageView::Answering(_, ip)
        | ListenerStageView::HandshakeHeader(_, ip)
        | ListenerStageView::HandshakeBody(_, ip)
        | ListenerStageView::Acking(_, ip) => ip != Some(own),
        ListenerStageView::Over => true,
        _ => false,
    }
}

proof fn lemma_kept_off(
    me: SelfView,
    token: Seq<u8>,
    remote: Option<Ipv4>,
    stage: ListenerStageView,
    events: Seq<EventView>,
    own: Ipv4,
    i: int,
)
    requires
        keeps_off(stage, own),
        0 <= i < events.len(),
    ensures
        listener_run(me, token, remote, stage, events)[i] matches ActionView::Finish(peer)
            ==> peer.virtual_ip != ipv4::dotted(own),
    decreases events.len(),
{
    let (next, action) = listener_next(me, token, remote, stage, events[0]);
    let rest = events.drop_first();
    assert(keeps_off(next, own) && (action matches ActionView::Finish(peer) ==> peer.virtual_ip
        != ipv4::dotted(own))) by {
        reveal(listener_next);
        assert(ipv4::dotted(own).len() > 0);
        assert forall|other: Ipv4| #[trigger] ipv4::dotted(other) == ipv4::dotted(own) implies other
            == own by {
            ipv4::dotted_is_injective(other, own);
        }
    }
    assert(listener_run(me, token, remote, stage, events) =~= seq![action] + listener_run(
        me,
        token,
        remote,
        next,
        rest,
    ));
    lemma_run_len(me, token, remote, next, rest);
    if i > 0 {
        lemma_kept_off(me, token, remote, next, rest, own, i - 1);
    }
}

proof fn lemma_told(
    me: SelfView,
    token: Seq<u8>,
    remote: Option<Ipv4>,
    stage: ListenerStageView,
    events: Seq<EventView>,
    own: Ipv4,
    k: int,
    i: int,
)
    requires
        0 <= k < i < events.len(),
        events[k] == EventView::Address(Some(own)),
    ensures
        listener_run(me, token, remote, stage, events)[i] matches ActionView::Finish(peer)
            ==> peer.virtual_ip != ipv4::dotted(own),
    decreases events.len(),
{
    let (next, action) = listener_next(me, token, remote, stage, events[0]);
    let rest = events.drop_first();
    assert(listener_run(me, token, remote, stage, events) =~= seq![action] + listener_run(
        me,
        token,
        remote,
        next,
        rest,
    ));
    lemma_run_len(me, token, remote, next, rest);
    if k == 0 {
        assert(keeps_off(next, own)) by {
            reveal(listener_next);
        }
        lemma_kept_off(me, token, remote, next, rest, own, i - 1);
    } else {
        assert(rest[k - 1] == events[k]);
        lemma_told(me, token, remote, next, rest, own, k - 1, i - 1);
    }
}

/// Whatever happens on a connection, a listener that was told its own address
/// does not take it for that of the peer.
pub proof fn peers_are_elsewhere(
    me: SelfView,
    token: Seq<u8>,
    remote: Option<Ipv4>,
    events: Seq<EventView>,
    own: Ipv4,
    k: int,
    i: int,
)
    requires
        0 <= k < i < events.len(),
        events[k] == EventView::Address(Some(own)),
    ensures
        listener_run(me, token, remote, ListenerStageView::RequestHeader, events)[i] matches
            ActionView::Finish(peer) ==> peer.virtual_ip != ipv4::dotted(own),
{
    lemma_told(me, token, remote, ListenerStageView::RequestHeader, events, own, k, i);
}

/// How far a connecting node has come.
#[verifier::ext_equal]
pub ghost enum ConnectorStageView {
    /// The request is on its way.
    Asking,
    ResponseHeader,
    ResponseBody,
    /// The handshake is on its way.
    Greeting(PeerInfoView),
    AckHeader(PeerInfoView),
    AckBody(PeerInfoView),
    Over,
}

/// The request of a node.
pub open spec fn request(me: SelfView, hostname: Seq<char>, token: Seq<u8>) ->
    protocol::MessageView {
    protocol::MessageView::PairRequest(
        protocol::PairRequestView {
            protocol_version: PROTOCOL_VERSION,
            auth_token: token,
            node_id: me.node_id,
            node_name: me.node_name,
            hostname,
        },
    )
}

/// The handshake of a node.
pub open spec fn greeting(me: SelfView, hostname: Seq<char>) -> protocol::MessageView {
    protocol::MessageView::Handshake(
        protocol::HandshakeView {
            protocol_version: PROTOCOL_VERSION,
            node_id: me.node_id,
            node_name: me.node_name,
            hostname,
        },
    )
}

/// What a connecting node makes of the answer to its request.
pub open spec fn answered(me: SelfView, hostname: Seq<char>, b: Seq<u8>) -> (
    ConnectorStageView,
    ActionView,
) {
    match codec::message_of(b) {
        None => (
            ConnectorStageView::Over,
            ActionView::Fail(ErrorView::Undecodable(Due::PairResponse)),
        ),
        Some(protocol::MessageView::PairResponse(r)) => if r.accepted {
            (
                ConnectorStageView::Greeting(
                    PeerInfoView {
                        node_id: r.node_id,
                        node_name: r.node_name,
                        hostname: Seq::empty(),
                        virtual_ip: match r.virtual_ip {
                            Some(ip) => ip,
                            None => Seq::empty(),
                        },
                    },
                ),
                send(greeting(me, hostname)),
            )
        } else {
            (
                ConnectorStageView::Over,
                ActionView::Fail(
                    ErrorView::Rejected(
                        match r.message {
                            Some(why) => why,
                            None => "Unknown reason"@,
                        },
                    ),
                ),
            )
        },
        Some(m) => (
            ConnectorStageView::Over,
            ActionView::Fail(ErrorView::UnexpectedMessage(Due::PairResponse, codec::kind_of(m))),
        ),
    }
}

/// What a connecting node does next: the stage that it comes to, and the action.
pub open spec fn connector_next(
    me: SelfView,
    hostname: Seq<char>,
    stage: ConnectorStageView,
    event: EventView,
) -> (ConnectorStageView, ActionView) {
    let out_of_turn = (ConnectorStageView::Over, ActionView::Fail(ErrorView::OutOfTurn));
    let unsendable = (ConnectorStageView::Over, ActionView::Fail(ErrorView::SendFailed));
    match stage {
        ConnectorStageView::Asking => match event {
            EventView::Sent => (ConnectorStageView::ResponseHeader, ActionView::Read(4)),
            EventView::SendFailed => unsendable,
            _ => out_of_turn,
        },
        ConnectorStageView::ResponseHeader => match event {
            EventView::Read(b) => if b.len() != 4 {
                out_of_turn
            } else if frame::be_value(b) > MEETING_LIMIT {
                (
                    ConnectorStageView::Over,
                    ActionView::Fail(
                        ErrorView::TooLarge(Due::PairResponse, frame::be_value(b) as u32),
                    ),
                )
            } else {
                (ConnectorStageView::ResponseBody, ActionView::Read(frame::be_value(b) as u32))
            },
            EventView::ReadFailed => (
                ConnectorStageView::Over,
                ActionView::Fail(ErrorView::ReadFailed(Due::PairResponse, Part::Length)),
            ),
            _ => out_of_turn,
        },
        ConnectorStageView::ResponseBody => match event {
            EventView::Read(b) => answered(me, hostname, b),
            EventView::ReadFailed => (
                ConnectorStageView::Over,
                ActionView::Fail(ErrorView::ReadFailed(Due::PairResponse, Part::Body)),
            ),
            _ => out_of_turn,
        },
        ConnectorStageView::Greeting(peer) => match event {
            EventView::Sent => (ConnectorStageView::AckHeader(peer), ActionView::Read(4)),
            EventView::SendFailed => unsendable,
            _ => out_of_turn,
        },
        ConnectorStageView::AckHeader(peer) => match event {
            EventView::Read(b) => if b.len() != 4 {
                out_of_turn
            } else if frame::be_value(b) > MEETING_LIMIT {
                (
                    ConnectorStageView::Over,
                    ActionView::Fail(
                        ErrorView::TooLarge(Due::HandshakeAck, frame::be_value(b) as u32),
                    ),
                )
            } else {
                (ConnectorStageView::AckBody(peer), ActionView::Read(frame::be_value(b) as u32))
            },
            EventView::ReadFailed => (
                ConnectorStageView::Over,
                ActionView::Fail(ErrorView::ReadFailed(Due::HandshakeAck, Part::Length)),
            ),
            _ => out_of_turn,
        },
        ConnectorStageView::AckBody(peer) => match event {
            EventView::Read(b) => match codec::message_of(b) {
                Some(protocol::MessageView::HandshakeAck(a)) => if a.accepted {
                    (ConnectorStageView::Over, ActionView::Finish(peer))
                } else {
                    (
                        ConnectorStageView::Over,
                        ActionView::Fail(ErrorView::HandshakeRejected(a.message)),
                    )
                },
                _ => (ConnectorStageView::Over, ActionView::Finish(peer)),
            },
            EventView::ReadFailed => (
                ConnectorStageView::Over,
                ActionView::Fail(ErrorView::ReadFailed(Due::HandshakeAck, Part::Body)),
            ),
            _ => out_of_turn,
        },
        ConnectorStageView::Over => out_of_turn,
    }
}

enum ConnectorStage {
    Asking,
    ResponseHeader,
    ResponseBody,
    Greeting(PeerInfo),
    AckHeader(PeerInfo),
    AckBody(PeerInfo),
    Over,
}

impl View for ConnectorStage {
    type V = ConnectorStageView;

    closed spec fn view(&self) -> ConnectorStageView {
        match *self {
            ConnectorStage::Asking => ConnectorStageView::Asking,
            ConnectorStage::ResponseHeader => ConnectorStageView::ResponseHeader,
            ConnectorStage::ResponseBody => ConnectorStageView::ResponseBody,
            ConnectorStage::Greeting(p) => ConnectorStageView::Greeting(p@),
            ConnectorStage::AckHeader(p) => ConnectorStageView::AckHeader(p@),
            ConnectorStage::AckBody(p) => ConnectorStageView::AckBody(p@),
            ConnectorStage::Over => ConnectorStageView::Over,
        }
    }
}

/// The side that was given the code, on its connection.
pub struct ConnectorSession {
    node_id: NodeId,
    node_name: String,
    hostname: String,
    stage: ConnectorStage,
}

impl ConnectorSession {
    /// Who this node is.
    pub closed spec fn me(&self) -> SelfView {
        SelfView { node_id: self.node_id@, node_name: self.node_name@ }
    }

    /// The name of this machine.
    pub closed spec fn hostname(&self) -> Seq<char> {
        self.hostname@
    }

    pub closed spec fn stage(&self) -> ConnectorStageView {
        self.stage@
    }

    /// The connection stands: the request, with the token of the code, is to be
    /// sent.
    pub fn new(config: &CrossBagConfig, code: &PairingCode, hostname: String) -> (res: (
        ConnectorSession,
        Action,
    ))
        ensures
            res.0.me() == (SelfView {
                node_id: config.node.node_id@,
                node_name: config.node.name@,
            }),
            res.0.hostname() == hostname@,
            res.0.stage() == ConnectorStageView::Asking,
            res.1@ == send(request(res.0.me(), hostname@, code.auth_token@)),
    {
        let m = Message::PairRequest(
            PairRequest {
                protocol_version: PROTOCOL_VERSION,
                auth_token: code.auth_token(),
                node_id: config.node.node_id,
                node_name: config.node.name.clone(),
                hostname: hostname.clone(),
            },
        );
        let action = sending(&m);
        let session = ConnectorSession {
            node_id: config.node.node_id,
            node_name: config.node.name.clone(),
            hostname,
            stage: ConnectorStage::Asking,
        };
        assert(m@ == request(session.me(), hostname@, code.auth_token@));
        (session, action)
    }

    fn greet(&self) -> (res: Action)
        ensures
            res@ == send(greeting(self.me(), self.hostname())),
    {
        let m = Message::Handshake(
            Handshake {
                protocol_version: PROTOCOL_VERSION,
                node_id: self.node_id,
                node_name: self.node_name.clone(),
                hostname: self.hostname.clone(),
            },
        );
        assert(m@ == greeting(self.me(), self.hostname()));
        sending(&m)
    }

    /// What to make of the answer to the request.
    fn take_answer(&self, b: &Vec<u8>) -> (res: (ConnectorStage, Action))
        ensures
            (res.0@, res.1@) == answered(self.me(), self.hostname(), b@),
    {
        match Message::from_bytes(b.as_slice()) {
            Err(_) => (
                ConnectorStage::Over,
                Action::Fail(MeetingError::Undecodable(Due::PairResponse)),
            ),
            Ok(Message::PairResponse(r)) => if r.accepted {
                let peer = PeerInfo {
                    node_id: r.node_id,
                    node_name: r.node_name,
                    hostname: String::new(),
                    virtual_ip: match r.virtual_ip {
                        Some(ip) => ip,
                        None => String::new(),
                    },
                };
                (ConnectorStage::Greeting(peer), self.greet())
            } else {
                let why = match r.message {
                    Some(why) => why,
                    None => "Unknown reason".to_owned(),
                };
                (ConnectorStage::Over, Action::Fail(MeetingError::Rejected(why)))
            },
            Ok(m) => (
                ConnectorStage::Over,
                Action::Fail(MeetingError::UnexpectedMessage(Due::PairResponse, m.kind())),
            ),
        }
    }

    /// Goes one step on.
    pub fn step(&mut self, event: Event) -> (res: Action)
        ensures
            (final(self).stage(), res@) == connector_next(
                old(self).me(),
                old(self).hostname(),
                old(self).stage(),
                event@,
            ),
            final(self).me() == old(self).me(),
            final(self).hostname() == old(self).hostname(),
    {
        let mut stage = ConnectorStage::Over;
        std::mem::swap(&mut stage, &mut self.stage);
        let (next, action) = match (stage, event) {
            (ConnectorStage::Asking, Event::Sent) => (
                ConnectorStage::ResponseHeader,
                Action::Read(4),
            ),
            (ConnectorStage::Asking, Event::SendFailed)
            | (ConnectorStage::Greeting(_), Event::SendFailed) => (
                ConnectorStage::Over,
                Action::Fail(MeetingError::SendFailed),
            ),
            (ConnectorStage::ResponseHeader, Event::Read(b)) => match header_of(&b) {
                None => (ConnectorStage::Over, Action::Fail(MeetingError::OutOfTurn)),
                Some(h) => match payload_len(&h, MEETING_LIMIT) {
                    Err(n) => (
                        ConnectorStage::Over,
                        Action::Fail(MeetingError::TooLarge(Due::PairResponse, n)),
                    ),
                    Ok(n) => (ConnectorStage::ResponseBody, Action::Read(n)),
                },
            },
            (ConnectorStage::ResponseHeader, Event::ReadFailed) => (
                ConnectorStage::Over,
                Action::Fail(MeetingError::ReadFailed(Due::PairResponse, Part::Length)),
            ),
            (ConnectorStage::ResponseBody, Event::ReadFailed) => (
                ConnectorStage::Over,
                Action::Fail(MeetingError::ReadFailed(Due::PairResponse, Part::Body)),
            ),
            (ConnectorStage::AckHeader(_), Event::ReadFailed) => (
                ConnectorStage::Over,
                Action::Fail(MeetingError::ReadFailed(Due::HandshakeAck, Part::Length)),
            ),
            (ConnectorStage::AckBody(_), Event::ReadFailed) => (
                ConnectorStage::Over,
                Action::Fail(MeetingError::ReadFailed(Due::HandshakeAck, Part::Body)),
            ),
            (ConnectorStage::ResponseBody, Event::Read(b)) => self.take_answer(&b),
            (ConnectorStage::Greeting(peer), Event::Sent) => (
                ConnectorStage::AckHeader(peer),
                Action::Read(4),
            ),
            (ConnectorStage::AckHeader(peer), Event::Read(b)) => match header_of(&b) {
                None => (ConnectorStage::Over, Action::Fail(MeetingError::OutOfTurn)),
                Some(h) => match payload_len(&h, MEETING_LIMIT) {
                    Err(n) => (
                        ConnectorStage::Over,
                        Action::Fail(MeetingError::TooLarge(Due::HandshakeAck, n)),
                    ),
                    Ok(n) => (ConnectorStage::AckBody(peer), Action::Read(n)),
                },
            },
            (ConnectorStage::AckBody(peer), Event::Read(b)) => {
                match Message::from_bytes(b.as_slice()) {
                    Ok(Message::HandshakeAck(a)) => if a.accepted {
                        (ConnectorStage::Over, Action::Finish(peer))
                    } else {
                        (
                            ConnectorStage::Over,
                            Action::Fail(MeetingError::HandshakeRejected(a.message)),
                        )
                    },
                    _ => (ConnectorStage::Over, Action::Finish(peer)),
                }
            },
            _ => (ConnectorStage::Over, Action::Fail(MeetingError::OutOfTurn)),
        };
        self.stage = next;
        action
    }
}

/// A listener and a connecting node with the token that the listener shows
/// agree: the request is granted, and the answer is taken as granted. Each
/// learns who the other is.
pub proof fn matching_token_is_accepted(
    listener: SelfView,
    connector: SelfView,
    hostname: Seq<char>,
    token: Seq<u8>,
    ip: Option<Ipv4>,
)
    requires
        codec::writable(request(connector, hostname, token)),
        codec::writable(acceptance(listener, ip)),
    ensures
        ({
            let sent = codec::message_bytes(request(connector, hostname, token));
            let answer = codec::message_bytes(acceptance(listener, ip));
            let seen = PeerInfoView {
                node_id: connector.node_id,
                node_name: connector.node_name,
                hostname,
                virtual_ip: Seq::empty(),
            };
            let learned = PeerInfoView {
                node_id: listener.node_id,
                node_name: listener.node_name,
                hostname: Seq::empty(),
                virtual_ip: placed(seen, ip).virtual_ip,
            };
            &&& judged(listener, token, sent) == (
                ListenerStageView::Finding(seen, 0),
                ActionView::AskAddress,
            )
            &&& answered(connector, hostname, answer) == (
                ConnectorStageView::Greeting(learned),
                send(greeting(connector, hostname)),
            )
        }),
{
    let sent = codec::message_bytes(request(connector, hostname, token));
    let answer = codec::message_bytes(acceptance(listener, ip));
    codec::decode_undoes_encode(request(connector, hostname, token), Seq::empty());
    codec::decode_undoes_encode(acceptance(listener, ip), Seq::empty());
    assert(sent + Seq::<u8>::empty() =~= sent);
    assert(answer + Seq::<u8>::empty() =~= answer);
}

/// A connecting node with another token is refused, and told why.
pub proof fn wrong_token_is_refused(
    listener: SelfView,
    connector: SelfView,
    hostname: Seq<char>,
    shown: Seq<u8>,
    typed: Seq<u8>,
)
    requires
        shown != typed,
        codec::writable(request(connector, hostname, typed)),
        codec::writable(refusal(listener, "Auth token mismatch"@)),
    ensures
        ({
            let sent = codec::message_bytes(request(connector, hostname, typed));
            let answer = codec::message_bytes(refusal(listener, "Auth token mismatch"@));
            &&& judged(listener, shown, sent) == (
                ListenerStageView::Refusing(ErrorView::TokenMismatch),
                send(refusal(listener, "Auth token mismatch"@)),
            )
            &&& answered(connector, hostname, answer) == (
                ConnectorStageView::Over,
                ActionView::Fail(ErrorView::Rejected("Auth token mismatch"@)),
            )
        }),
{
    let sent = codec::message_bytes(request(connector, hostname, typed));
    let answer = codec::message_bytes(refusal(listener, "Auth token mismatch"@));
    codec::decode_undoes_encode(request(connector, hostname, typed), Seq::empty());
    codec::decode_undoes_encode(refusal(listener, "Auth token mismatch"@), Seq::empty());
    assert(sent + Seq::<u8>::empty() =~= sent);
    assert(answer + Seq::<u8>::empty() =~= answer);
}

/// The side that was given a code.
pub struct PairingConnector {
    config: std::sync::Arc<CrossBagConfig>,
}

impl PairingConnector {
    /// The configuration of the node.
    pub closed spec fn settings(&self) -> CrossBagConfig {
        *self.config
    }

    pub fn new(config: std::sync::Arc<CrossBagConfig>) -> (res: PairingConnector)
        ensures
            res.settings() == *config,
    {
        PairingConnector { config }
    }

    /// Where to connect: to the peer in the list of nodes, if there is one, else
    /// to the own virtual address. None where neither is known.
    pub fn peer_address(&self, listed: Option<Ipv4>, own: Option<Ipv4>) -> (res: Option<String>)
        ensures
            text::option_text(res) == match (listed, own) {
                (Some(ip), _) | (None, Some(ip)) => Some(
                    config::address_text(ipv4::dotted(ip), self.settings().node.port),
                ),
                (None, None) => None,
            },
    {
        let ip = match (listed, own) {
            (Some(ip), _) => ip,
            (None, Some(ip)) => ip,
            (None, None) => {
                return None;
            },
        };
        let mut res = ip_text(ip);
        res.push(':');
        res.append(&decimal_text(self.config.node.port as u64));
        assert(res@ =~= config::address_text(ipv4::dotted(ip), self.config.node.port));
        Some(res)
    }

    /// Starts the session on a connection, on a machine of this name.
    pub fn start(&self, code: &PairingCode, host: Option<String>) -> (res: (
        ConnectorSession,
        Action,
    ))
        ensures
            res.0.me() == (SelfView {
                node_id: self.settings().node.node_id@,
                node_name: self.settings().node.name@,
            }),
            res.0.hostname() == match host {
                Some(h) => h@,
                None => Seq::<char>::empty(),
            },
            res.0.stage() == ConnectorStageView::Asking,
            res.1@ == send(request(res.0.me(), res.0.hostname(), code.auth_token@)),
    {
        let hostname = match host {
            Some(h) => h,
            None => String::new(),
        };
        ConnectorSession::new(&self.config, code, hostname)
    }

    /// Starts the session on a connection.
    pub fn connect(&self, code: &PairingCode) -> (res: (ConnectorSession, Action))
        ensures
            res.0.me() == (SelfView {
                node_id: self.settings().node.node_id@,
                node_name: self.settings().node.name@,
            }),
            res.0.stage() == ConnectorStageView::Asking,
            res.1@ == send(request(res.0.me(), res.0.hostname(), code.auth_token@)),
    {
        self.start(code, config::host_name())
    }
}

/// What a message that is due is called.
pub open spec fn due_name(due: Due) -> Seq<char> {
    match due {
        Due::PairRequest => "pairing message"@,
        Due::PairResponse => "PairResponse"@,
        Due::HandshakeAck => "HandshakeAck"@,
        Due::PeerAck => "handshake ack"@,
    }
}

/// The type of a message that is due.
pub open spec fn due_type(due: Due) -> Seq<char> {
    match due {
        Due::PairRequest => "PairRequest"@,
        Due::PairResponse => "PairResponse"@,
        Due::HandshakeAck | Due::PeerAck => "HandshakeAck"@,
    }
}

impl Due {
    fn name(self) -> (res: &'static str)
        ensures
            res@ == due_name(self),
    {
        match self {
            Due::PairRequest => "pairing message",
            Due::PairResponse => "PairResponse",
            Due::HandshakeAck => "HandshakeAck",
            Due::PeerAck => "handshake ack",
        }
    }

    fn message_name(self) -> (res: &'static str)
        ensures
            res@ == due_type(self),
    {
        match self {
            Due::PairRequest => "PairRequest",
            Due::PairResponse => "PairResponse",
            Due::HandshakeAck | Due::PeerAck => "HandshakeAck",
        }
    }
}

/// Why a message that was due is too large, in words.
pub open spec fn too_large(due: Due, n: u32) -> Seq<char> {
    match due {
        Due::PairRequest => "Pairing message too large: "@ + numbers::decimal(n as nat)
            + " bytes"@,
        Due::PairResponse => "PairResponse too large: "@ + numbers::decimal(n as nat) + " bytes"@,
        Due::HandshakeAck => "HandshakeAck too large"@,
        Due::PeerAck => "Handshake ack too large: "@ + numbers::decimal(n as nat) + " bytes"@,
    }
}

fn too_large_text(due: Due, n: u32) -> (res: String)
    ensures
        res@ == too_large(due, n),
{
    let head = match due {
        Due::PairRequest => "Pairing message too large: ",
        Due::PairResponse => "PairResponse too large: ",
        Due::HandshakeAck => {
            return "HandshakeAck too large".to_owned();
        },
        Due::PeerAck => "Handshake ack too large: ",
    };
    let mut res = head.to_owned();
    res.append(&decimal_text(n as u64));
    res.append(" bytes");
    res
}

impl MeetingError {
    /// The error in words.
    pub fn text(&self) -> (res: String)
        ensures
            res@ == match *self {
                MeetingError::ReadFailed(due, part) => "Failed to read "@ + due_name(due) + (
                match part {
                    Part::Length => " length"@,
                    Part::Body => " body"@,
                }),
                MeetingError::SendFailed => "Failed to send message"@,
                MeetingError::HandshakeNotSent => "Failed to send handshake"@,
                MeetingError::TooLarge(due, n) => too_large(due, n),
                MeetingError::Undecodable(due) => "Failed to decode "@ + due_name(due),
                MeetingError::UnexpectedMessage(due, kind) => "Expected "@ + due_type(due)
                    + ", got Discriminant("@ + numbers::decimal(kind as nat) + ")"@,
                MeetingError::TokenMismatch => "Auth token mismatch"@,
                MeetingError::VersionMismatch => "Protocol version mismatch"@,
                MeetingError::Rejected(why) => "Pairing rejected: "@ + why@,
                MeetingError::HandshakeRejected(why) => match why {
                    Some(w) => "Handshake rejected: Some("@ + text::debug_text(w@) + ")"@,
                    None => "Handshake rejected: None"@,
                },
                MeetingError::OutOfTurn => "Pairing out of turn"@,
            },
    {
        match self {
            MeetingError::ReadFailed(due, part) => {
                let mut res = "Failed to read ".to_owned();
                res.append(due.name());
                res.append(
                    match part {
                        Part::Length => " length",
                        Part::Body => " body",
                    },
                );
                res
            },
            MeetingError::SendFailed => "Failed to send message".to_owned(),
            MeetingError::HandshakeNotSent => "Failed to send handshake".to_owned(),
            MeetingError::TooLarge(due, n) => too_large_text(*due, *n),
            MeetingError::Undecodable(due) => {
                let mut res = "Failed to decode ".to_owned();
                res.append(due.name());
                res
            },
            MeetingError::UnexpectedMessage(due, kind) => {
                let mut res = "Expected ".to_owned();
                res.append(due.message_name());
                res.append(", got Discriminant(");
                res.append(&decimal_text(*kind as u64));
                res.append(")");
                res
            },
            MeetingError::TokenMismatch => "Auth token mismatch".to_owned(),
            MeetingError::VersionMismatch => "Protocol version mismatch".to_owned(),
            MeetingError::Rejected(why) => {
                let mut res = "Pairing rejected: ".to_owned();
                res.append(why);
                res
            },
            MeetingError::HandshakeRejected(why) => match why {
                Some(w) => {
                    let mut res = "Handshake rejected: Some(".to_owned();
                    res.append(&text::quoted(w));
                    res.append(")");
                    res
                },
                None => "Handshake rejected: None".to_owned(),
            },
            MeetingError::OutOfTurn => "Pairing out of turn".to_owned(),
        }
    }
}

/// The action sends the frame of these bytes.
pub open spec fn sends(a: Action, bytes: Vec<u8>) -> bool {
    a matches Action::Send(b) && b@ == frame::frame_bytes(bytes@)
}

/// A request is granted exactly if it names the token that is shown and is of the
/// version here; then the node asks for its own address, and knows who asked.
pub proof fn the_token_decides(
    session: &mut ListenerSession,
    r: PairRequest,
    bytes: Vec<u8>,
    res: Action,
)
    requires
        call_ensures(Message::to_bytes, (&Message::PairRequest(r),), Ok(bytes)),
        call_ensures(ListenerSession::step, (session, Event::Read(bytes)), res),
        old(session).stage() == ListenerStageView::RequestBody,
    ensures
        ({
            let good = r.auth_token@ == old(session).token() && r.protocol_version
                == PROTOCOL_VERSION;
            &&& res is AskAddress == good
            &&& res is Send == !good
            &&& good ==> (final(session).stage() matches ListenerStageView::Finding(p, tries) && tries
                == 0 && p.node_id == r.node_id.bytes@ && p.node_name == r.node_name@ && p.hostname
                == r.hostname@)
        }),
{
    reveal(listener_next);
    assert(Event::Read(bytes)@ == EventView::Read(bytes@));
    assert(codec::message_of(bytes@) == Some(Message::PairRequest(r)@));
}

/// A request that is not granted is answered with a refusal that says why: the
/// token first, then the version. Once that is sent, the meeting has failed for
/// that reason.
pub proof fn refusals_say_why(
    session: &mut ListenerSession,
    later: &mut ListenerSession,
    r: PairRequest,
    bytes: Vec<u8>,
    res: Action,
    refused: PairResponse,
    answer: Vec<u8>,
    end: Action,
)
    requires
        call_ensures(Message::to_bytes, (&Message::PairRequest(r),), Ok(bytes)),
        call_ensures(ListenerSession::step, (session, Event::Read(bytes)), res),
        old(session).stage() == ListenerStageView::RequestBody,
        r.auth_token@ != old(session).token() || r.protocol_version != PROTOCOL_VERSION,
        call_ensures(Message::to_bytes, (&Message::PairResponse(refused),), Ok(answer)),
        !refused.accepted,
        refused.node_id.bytes@ == old(session).me().node_id,
        refused.node_name@ == old(session).me().node_name,
        refused.virtual_ip is None,
        refused.message matches Some(why) && why@ == if r.auth_token@ != old(session).token() {
            "Auth token mismatch"@
        } else {
            "Protocol version mismatch"@
        },
        call_ensures(ListenerSession::step, (later, Event::Sent), end),
        old(later).stage() == final(session).stage(),
    ensures
        sends(res, answer),
        r.auth_token@ != old(session).token() ==> (end matches Action::Fail(
            MeetingError::TokenMismatch,
        )),
        r.auth_token@ == old(session).token() ==> (end matches Action::Fail(
            MeetingError::VersionMismatch,
        )),
{
    reveal(listener_next);
    assert(Event::Read(bytes)@ == EventView::Read(bytes@));
    assert(Event::Sent@ == EventView::Sent);
    assert(codec::message_of(bytes@) == Some(Message::PairRequest(r)@));
    let m = Message::PairResponse(refused);
    let why = if r.auth_token@ != old(session).token() {
        "Auth token mismatch"@
    } else {
        "Protocol version mismatch"@
    };
    assert(m@ == refusal(old(session).me(), why));
}

/// Anything but a request ends the meeting.
pub proof fn only_requests_are_heard(
    session: &mut ListenerSession,
    m: Message,
    bytes: Vec<u8>,
    res: Action,
)
    requires
        call_ensures(Message::to_bytes, (&m,), Ok(bytes)),
        call_ensures(ListenerSession::step, (session, Event::Read(bytes)), res),
        old(session).stage() == ListenerStageView::RequestBody,
        !(m is PairRequest),
    ensures
        res is Fail,
        final(session).stage() == ListenerStageView::Over,
{
    reveal(listener_next);
    assert(Event::Read(bytes)@ == EventView::Read(bytes@));
    assert(codec::message_of(bytes@) == Some(m@));
}

/// Once the node knows its own address, it accepts, and tells who it is and where;
/// the peer is noted at the place that it connected from, unless that is the own
/// address. Without an address it tries ten times, and then accepts without.
pub proof fn acceptances_tell_the_address(
    session: &mut ListenerSession,
    peer: PeerInfoView,
    tries: u32,
    ip: Option<Ipv4>,
    res: Action,
    accepted: PairResponse,
    answer: Vec<u8>,
    at: Ipv4,
    written: String,
)
    requires
        call_ensures(ListenerSession::step, (session, Event::Address(ip)), res),
        old(session).stage() == ListenerStageView::Finding(peer, tries),
        tries < 10,
        call_ensures(Message::to_bytes, (&Message::PairResponse(accepted),), Ok(answer)),
        accepted.accepted,
        accepted.node_id.bytes@ == old(session).me().node_id,
        accepted.node_name@ == old(session).me().node_name,
        accepted.message is None,
        call_ensures(ip_text, (at,), written),
        ip matches Some(own) ==> own == at && (accepted.virtual_ip matches Some(said) && said@
            == written@),
        ip is None ==> accepted.virtual_ip is None,
    ensures
        ip is None && tries < 9 ==> res is Wait && final(session).stage()
            == ListenerStageView::Pausing(peer, (tries + 1) as u32),
        ip is Some || tries == 9 ==> sends(res, answer) && (final(session).stage() matches ListenerStageView::Answering(p, place) && p == peer && place == if old(session).remote() == ip {
            None
        } else {
            old(session).remote()
        }),
{
    reveal(listener_next);
    assert(Event::Address(ip)@ == EventView::Address(ip));
    let m = Message::PairResponse(accepted);
    assert(m@ == acceptance(old(session).me(), ip));
}

/// After a pause the node asks again.
pub proof fn pauses_lead_to_another_try(
    session: &mut ListenerSession,
    peer: PeerInfoView,
    tries: u32,
    res: Action,
)
    requires
        call_ensures(ListenerSession::step, (session, Event::Waited), res),
        old(session).stage() == ListenerStageView::Pausing(peer, tries),
    ensures
        res is AskAddress,
        final(session).stage() == ListenerStageView::Finding(peer, tries),
{
    reveal(listener_next);
    assert(Event::Waited@ == EventView::Waited);
}

/// A listener that has accepted answers the handshake of the peer, and the two are
/// then paired: the listener knows the peer with the place that was noted.
pub proof fn handshakes_complete_the_pairing(
    session: &mut ListenerSession,
    later: &mut ListenerSession,
    peer: PeerInfoView,
    place: Option<Ipv4>,
    hello: Handshake,
    bytes: Vec<u8>,
    res: Action,
    ack: HandshakeAck,
    answer: Vec<u8>,
    end: Action,
    at: Ipv4,
    written: String,
)
    requires
        call_ensures(Message::to_bytes, (&Message::Handshake(hello),), Ok(bytes)),
        call_ensures(ListenerSession::step, (session, Event::Read(bytes)), res),
        old(session).stage() == ListenerStageView::HandshakeBody(peer, place),
        call_ensures(Message::to_bytes, (&Message::HandshakeAck(ack),), Ok(answer)),
        ack.accepted,
        ack.node_id.bytes@ == old(session).me().node_id,
        ack.node_name@ == old(session).me().node_name,
        ack.message is None,
        call_ensures(ListenerSession::step, (later, Event::Sent), end),
        old(later).stage() == final(session).stage(),
        call_ensures(ip_text, (at,), written),
        place matches Some(ip) ==> ip == at,
    ensures
        sends(res, answer),
        end matches Action::Finish(p) && p.node_id.bytes@ == peer.node_id && p.node_name@
            == peer.node_name && p.hostname@ == peer.hostname && p.virtual_ip@ == if place is Some {
            written@
        } else {
            Seq::<char>::empty()
        },
{
    reveal(listener_next);
    assert(Event::Read(bytes)@ == EventView::Read(bytes@));
    assert(Event::Sent@ == EventView::Sent);
    assert(codec::message_of(bytes@) == Some(Message::Handshake(hello)@));
    let m = Message::HandshakeAck(ack);
    assert(m@ == handshake_answer(old(session).me()));
}

/// A peer that leaves after it was accepted is paired all the same, at no address.
pub proof fn peers_may_leave_early(
    session: &mut ListenerSession,
    peer: PeerInfoView,
    place: Option<Ipv4>,
    res: Action,
)
    requires
        call_ensures(ListenerSession::step, (session, Event::ReadFailed), res),
        old(session).stage() == ListenerStageView::HandshakeHeader(peer, place) || old(session).stage() == ListenerStageView::HandshakeBody(peer, place),
    ensures
        res matches Action::Finish(p) && p.node_id.bytes@ == peer.node_id && p.node_name@
            == peer.node_name && p.hostname@ == peer.hostname && p.virtual_ip@.len() == 0,
{
    reveal(listener_next);
    assert(Event::ReadFailed@ == EventView::ReadFailed);
}

/// While two nodes meet, a header tells how much is read next, unless it is more
/// than 10 MiB.
pub proof fn meeting_headers_are_limited(
    listener: &mut ListenerSession,
    connector: &mut ConnectorSession,
    bytes: Vec<u8>,
    heard: Action,
    answered: Action,
)
    requires
        bytes@.len() == 4,
        call_ensures(ListenerSession::step, (listener, Event::Read(bytes)), heard),
        call_ensures(ConnectorSession::step, (connector, Event::Read(bytes)), answered),
        old(listener).stage() == ListenerStageView::RequestHeader,
        old(connector).stage() == ConnectorStageView::ResponseHeader,
    ensures
        ({
            let n = bytes@[0] * 16777216 + bytes@[1] * 65536 + bytes@[2] * 256 + bytes@[3];
            &&& n <= 10485760 ==> (heard matches Action::Read(k) && k == n) && (
            answered matches Action::Read(k) && k == n) && final(listener).stage()
                == ListenerStageView::RequestBody && final(connector).stage()
                == ConnectorStageView::ResponseBody
            &&& n > 10485760 ==> heard is Fail && answered is Fail
        }),
{
    reveal(listener_next);
    assert(Event::Read(bytes)@ == EventView::Read(bytes@));
}

/// A node that connects asks with the token of the code that it was given, and
/// tells who it is.
pub proof fn connectors_name_the_token(
    connector: &PairingConnector,
    code: &PairingCode,
    host: Option<String>,
    res: (ConnectorSession, Action),
    r: PairRequest,
    bytes: Vec<u8>,
)
    requires
        call_ensures(PairingConnector::start, (connector, code, host), res),
        call_ensures(Message::to_bytes, (&Message::PairRequest(r),), Ok(bytes)),
        r.protocol_version == PROTOCOL_VERSION,
        r.auth_token@ == code.auth_token@,
        r.node_id.bytes@ == connector.settings().node.node_id.bytes@,
        r.node_name@ == connector.settings().node.name@,
        host matches Some(h) ==> r.hostname@ == h@,
        host is None ==> r.hostname@.len() == 0,
    ensures
        sends(res.1, bytes),
        res.0.stage() == ConnectorStageView::Asking,
        res.0.me().node_id == connector.settings().node.node_id.bytes@,
        res.0.me().node_name == connector.settings().node.name@,
        res.0.hostname() == r.hostname@,
{
    let m = Message::PairRequest(r);
    if host is None {
        assert(r.hostname@ =~= Seq::<char>::empty());
    }
    assert(m@ == request(res.0.me(), res.0.hostname(), code.auth_token@));
}

/// A node that is accepted greets, and knows the other by what it told of itself;
/// one that is refused fails with the reason.
pub proof fn answers_decide_the_pairing(
    session: &mut ConnectorSession,
    r: PairResponse,
    bytes: Vec<u8>,
    res: Action,
    hello: Handshake,
    greeting_bytes: Vec<u8>,
)
    requires
        call_ensures(Message::to_bytes, (&Message::PairResponse(r),), Ok(bytes)),
        call_ensures(ConnectorSession::step, (session, Event::Read(bytes)), res),
        old(session).stage() == ConnectorStageView::ResponseBody,
        call_ensures(Message::to_bytes, (&Message::Handshake(hello),), Ok(greeting_bytes)),
        hello.protocol_version == PROTOCOL_VERSION,
        hello.node_id.bytes@ == old(session).me().node_id,
        hello.node_name@ == old(session).me().node_name,
        hello.hostname@ == old(session).hostname(),
    ensures
        r.accepted ==> sends(res, greeting_bytes) && (final(session).stage() matches ConnectorStageView::Greeting(p) && p.node_id == r.node_id.bytes@
            && p.node_name == r.node_name@ && p.virtual_ip == match r.virtual_ip {
            Some(ip) => ip@,
            None => Seq::<char>::empty(),
        }),
        !r.accepted ==> (res matches Action::Fail(MeetingError::Rejected(why)) && why@
            == match r.message {
            Some(said) => said@,
            None => "Unknown reason"@,
        }),
{
    assert(Event::Read(bytes)@ == EventView::Read(bytes@));
    assert(codec::message_of(bytes@) == Some(Message::PairResponse(r)@));
    let m = Message::Handshake(hello);
    assert(m@ == greeting(old(session).me(), old(session).hostname()));
}

/// A node that was accepted is paired unless the other then refuses the
/// handshake.
pub proof fn only_a_refusal_undoes_the_pairing(
    session: &mut ConnectorSession,
    peer: PeerInfoView,
    m: Message,
    bytes: Vec<u8>,
    res: Action,
)
    requires
        call_ensures(Message::to_bytes, (&m,), Ok(bytes)),
        call_ensures(ConnectorSession::step, (session, Event::Read(bytes)), res),
        old(session).stage() == ConnectorStageView::AckBody(peer),
    ensures
        m matches Message::HandshakeAck(a) ==> (!a.accepted ==> (res matches Action::Fail(
            MeetingError::HandshakeRejected(why),
        ) && protocol::same_option(why, a.message))),
        !(m matches Message::HandshakeAck(a) && !a.accepted) ==> (res matches Action::Finish(p)
            && p.node_id.bytes@ == peer.node_id && p.node_name@ == peer.node_name && p.hostname@
            == peer.hostname && p.virtual_ip@ == peer.virtual_ip),
{
    assert(Event::Read(bytes)@ == EventView::Read(bytes@));
    assert(codec::message_of(bytes@) == Some(m@));
    if let Message::HandshakeAck(a) = m {
        if !a.accepted {
            assert(res@ == ActionView::Fail(
                ErrorView::HandshakeRejected(text::option_text(a.message)),
            ));
        }
    }
}

/// A node connects to the peer that the list of nodes names, or to its own virtual
/// address where none is named, at the port of the configuration.
pub proof fn connections_go_to_the_listed_peer(
    connector: &PairingConnector,
    listed: Option<Ipv4>,
    own: Option<Ipv4>,
    res: Option<String>,
    at: Ipv4,
    written: String,
    port: String,
)
    requires
        call_ensures(PairingConnector::peer_address, (connector, listed, own), res),
        call_ensures(ip_text, (at,), written),
        call_ensures(decimal_text, (connector.settings().node.port as u64,), port),
        listed matches Some(ip) ==> at == ip,
        listed is None ==> (own matches Some(ip) ==> at == ip),
    ensures
        res is Some == (listed is Some || own is Some),
        res matches Some(address) ==> address@ == written@ + seq![':'] + port@,
{
}

/// A listener starts with the request of the peer, with the token and the identity
/// that it was given.
pub proof fn listeners_start_with_the_request(
    config: &CrossBagConfig,
    token: [u8; 4],
    remote: Option<Ipv4>,
    res: (ListenerSession, Action),
)
    requires
        call_ensures(ListenerSession::new, (config, token, remote), res),
    ensures
        res.1 matches Action::Read(n) && n == 4,
        res.0.stage() == ListenerStageView::RequestHeader,
        res.0.token() == token@,
        res.0.remote() == remote,
        res.0.me().node_id == config.node.node_id.bytes@,
        res.0.me().node_name == config.node.name@,
{
}

/// Who the listener talks to, once it knows.
spec fn partner(stage: ListenerStageView) -> Option<PeerInfoView> {
    match stage {
        ListenerStageView::Finding(p, _) | ListenerStageView::Pausing(p, _) => Some(p),
        ListenerStageView::Answering(p, _)
        | ListenerStageView::HandshakeHeader(p, _)
        | ListenerStageView::HandshakeBody(p, _)
        | ListenerStageView::Acking(p, _) => Some(p),
        _ => None,
    }
}

/// The two are one node.
pub open spec fn same_node(a: PeerInfoView, b: PeerInfoView) -> bool {
    a.node_id == b.node_id && a.node_name == b.node_name && a.hostname == b.hostname
}

/// The event is a request of the node with the token and of the version here.
pub open spec fn asks_rightly(event: EventView, token: Seq<u8>, peer: PeerInfoView) -> bool {
    event matches EventView::Read(b) && (codec::message_of(
        b,
    ) matches Some(protocol::MessageView::PairRequest(r)) && r.auth_token == token
        && r.protocol_version == PROTOCOL_VERSION && r.node_id == peer.node_id && r.node_name
        == peer.node_name && r.hostname == peer.hostname)
}

proof fn lemma_partner_step(
    me: SelfView,
    token: Seq<u8>,
    remote: Option<Ipv4>,
    stage: ListenerStageView,
    event: EventView,
)
    ensures
        ({
            let (next, action) = listener_next(me, token, remote, stage, event);
            &&& partner(stage) matches Some(p) ==> (partner(next) matches Some(q) ==> q == p) && (
            action matches ActionView::Finish(q) ==> same_node(q, p))
            &&& partner(stage) is None ==> !(action is Finish) && (partner(next) matches Some(q)
                ==> asks_rightly(event, token, q))
        }),
{
    reveal(listener_next);
}

proof fn lemma_partner_asked(
    me: SelfView,
    token: Seq<u8>,
    remote: Option<Ipv4>,
    stage: ListenerStageView,
    events: Seq<EventView>,
    i: int,
)
    requires
        0 <= i < events.len(),
    ensures
        listener_run(me, token, remote, stage, events)[i] matches ActionView::Finish(peer) ==> match
        partner(stage) {
            Some(p) => same_node(peer, p),
            None => exists|k: int|
                0 <= k < i && asks_rightly(#[trigger] events[k], token, peer),
        },
    decreases events.len(),
{
    let (next, action) = listener_next(me, token, remote, stage, events[0]);
    let rest = events.drop_first();
    assert(listener_run(me, token, remote, stage, events) =~= seq![action] + listener_run(
        me,
        token,
        remote,
        next,
        rest,
    ));
    lemma_partner_step(me, token, remote, stage, events[0]);
    lemma_run_len(me, token, remote, next, rest);
    if i > 0 {
        lemma_partner_asked(me, token, remote, next, rest, i - 1);
        if let ActionView::Finish(peer) = listener_run(me, token, remote, stage, events)[i] {
            if partner(stage) is None {
                if let Some(q) = partner(next) {
                    assert(asks_rightly(events[0], token, peer));
                } else {
                    let k = choose|k: int|
                        0 <= k < i - 1 && asks_rightly(#[trigger] rest[k], token, peer);
                    assert(events[k + 1] == rest[k]);
                }
            } else if partner(next) is None {
                lemma_no_partner(me, token, remote, stage, events[0]);
                lemma_over(me, token, remote, rest, i - 1);
            }
        }
    }
}

proof fn lemma_no_partner(
    me: SelfView,
    token: Seq<u8>,
    remote: Option<Ipv4>,
    stage: ListenerStageView,
    event: EventView,
)
    requires
        partner(stage) is Some,
        partner(listener_next(me, token, remote, stage, event).0) is None,
    ensures
        listener_next(me, token, remote, stage, event).0 == ListenerStageView::Over,
{
    reveal(listener_next);
}

proof fn lemma_over(
    me: SelfView,
    token: Seq<u8>,
    remote: Option<Ipv4>,
    events: Seq<EventView>,
    i: int,
)
    requires
        0 <= i < events.len(),
    ensures
        !(listener_run(me, token, remote, ListenerStageView::Over, events)[i] is Finish),
    decreases events.len(),
{
    let (next, action) = listener_next(me, token, remote, ListenerStageView::Over, events[0]);
    let rest = events.drop_first();
    assert(next == ListenerStageView::Over && !(action is Finish)) by {
        reveal(listener_next);
    }
    assert(listener_run(me, token, remote, ListenerStageView::Over, events) =~= seq![action]
        + listener_run(me, token, remote, next, rest));
    lemma_run_len(me, token, remote, next, rest);
    if i > 0 {
        lemma_over(me, token, remote, rest, i - 1);
    }
}

/// Whatever happens on a connection, the node that a listener is paired with is one
/// that asked with the token that is shown and in the version here, under the
/// name that it gave.
pub proof fn who_is_paired_has_asked(
    me: SelfView,
    token: Seq<u8>,
    remote: Option<Ipv4>,
    events: Seq<EventView>,
    i: int,
    peer: PeerInfoView,
)
    requires
        0 <= i < events.len(),
        listener_run(me, token, remote, ListenerStageView::RequestHeader, events)[i]
            == ActionView::Finish(peer),
    ensures
        exists|k: int| 0 <= k < i && asks_rightly(#[trigger] events[k], token, peer),
{
    lemma_partner_asked(me, token, remote, ListenerStageView::RequestHeader, events, i);
}

} // verus!
