//! The peers: who is connected, what is sent to whom, and what becomes of what
//! they send.

use vstd::prelude::*;

use crate::codec;
use crate::config;
use crate::config::CrossBagConfig;
use crate::daemon;
use crate::daemon::SyncAction;
use crate::frame;
use crate::frame::{frame_message, payload_len, MEETING_LIMIT, PEER_LIMIT};
use crate::identity::NodeId;
use crate::meeting;
use crate::meeting::{Due, Part};
use crate::protocol;
use crate::protocol::{Handshake, HandshakeAck, Message, PROTOCOL_VERSION};
use crate::table::Table;
use crate::text;
use std::sync::Arc;

verus! {

/// What the daemon tells the network to send.
#[derive(Debug)]
pub enum NetworkCommand {
    SendToPeer { peer_id: String, message: Message },
    /// To every peer that can be written to.
    Broadcast(Message),
}

#[verifier::ext_equal]
pub ghost enum CommandView {
    SendToPeer { peer_id: Seq<char>, message: protocol::MessageView },
    Broadcast(protocol::MessageView),
}

impl View for NetworkCommand {
    type V = CommandView;

    open spec fn view(&self) -> CommandView {
        match *self {
            NetworkCommand::SendToPeer { peer_id, message } => CommandView::SendToPeer {
                peer_id: peer_id@,
                message: message@,
            },
            NetworkCommand::Broadcast(message) => CommandView::Broadcast(message@),
        }
    }
}

/// The commands.
pub open spec fn command_views(v: Seq<NetworkCommand>) -> Seq<CommandView> {
    v.map_values(|c: NetworkCommand| c@)
}

/// How a connection stands.
#[derive(Debug, Clone)]
pub enum ConnectionState {
    Disconnected,
    Connecting,
    Connected,
    /// The last attempt failed, and why.
    Failed(String),
}

#[verifier::ext_equal]
pub ghost enum StateView {
    Disconnected,
    Connecting,
    Connected,
    Failed(Seq<char>),
}

impl View for ConnectionState {
    type V = StateView;

    open spec fn view(&self) -> StateView {
        match *self {
            ConnectionState::Disconnected => StateView::Disconnected,
            ConnectionState::Connecting => StateView::Connecting,
            ConnectionState::Connected => StateView::Connected,
            ConnectionState::Failed(e) => StateView::Failed(e@),
        }
    }
}

impl ConnectionState {
    /// A copy of the state.
    pub fn copy(&self) -> (res: ConnectionState)
        ensures
            res@ == self@,
    {
        match self {
            ConnectionState::Disconnected => ConnectionState::Disconnected,
            ConnectionState::Connecting => ConnectionState::Connecting,
            ConnectionState::Connected => ConnectionState::Connected,
            ConnectionState::Failed(e) => ConnectionState::Failed(e.clone()),
        }
    }

    /// Whether the peer is connected.
    pub fn is_connected(&self) -> (res: bool)
        ensures
            res == (self@ == StateView::Connected),
    {
        match self {
            ConnectionState::Connected => true,
            _ => false,
        }
    }
}

/// The connection to a peer.
#[derive(Debug, Clone)]
pub struct PeerConnection {
    pub peer_id: String,
    pub peer_name: String,
    pub address: String,
    pub state: ConnectionState,
    /// The peer can be written to.
    pub write_open: bool,
}

#[verifier::ext_equal]
pub ghost struct ConnectionView {
    pub peer_id: Seq<char>,
    pub peer_name: Seq<char>,
    pub address: Seq<char>,
    pub state: StateView,
    pub write_open: bool,
}

impl View for PeerConnection {
    type V = ConnectionView;

    open spec fn view(&self) -> ConnectionView {
        ConnectionView {
            peer_id: self.peer_id@,
            peer_name: self.peer_name@,
            address: self.address@,
            state: self.state@,
            write_open: self.write_open,
        }
    }
}

/// The connections, by peer.
pub open spec fn connection_views(t: Table<PeerConnection>) -> Map<Seq<char>, ConnectionView> {
    t@.map_values(|c: PeerConnection| c@)
}

/// The connection to `id` with another state, if there is one.
pub open spec fn with_state(
    m: Map<Seq<char>, ConnectionView>,
    id: Seq<char>,
    state: StateView,
    write_open: bool,
) -> Map<Seq<char>, ConnectionView> {
    if m.contains_key(id) {
        m.insert(id, ConnectionView { state, write_open, ..m[id] })
    } else {
        m
    }
}

/// What is to be written, and to whom.
#[derive(Debug)]
pub struct Delivery {
    pub peers: Vec<String>,
    pub frame: Vec<u8>,
}

/// Why nothing is sent.
#[derive(Debug, Clone)]
pub enum SendError {
    /// The peer of this identifier is not connected.
    NotConnected(String),
}

impl SendError {
    /// The error in words.
    pub fn text(&self) -> (res: String)
        ensures
            res@ == match *self {
                SendError::NotConnected(id) => "Peer "@ + id@ + " not connected"@,
            },
    {
        match self {
            SendError::NotConnected(id) => {
                let mut res = "Peer ".to_owned();
                res.append(id);
                res.append(" not connected");
                res
            },
        }
    }
}

/// The connections, and whether the node still connects to its peers.
pub struct NetworkManager {
    config: Arc<CrossBagConfig>,
    connections: Table<PeerConnection>,
    running: bool,
}

impl NetworkManager {
    pub closed spec fn settings(&self) -> CrossBagConfig {
        *self.config
    }

    /// The connections, by peer.
    pub closed spec fn links(&self) -> Map<Seq<char>, ConnectionView> {
        connection_views(self.connections)
    }

    /// The peers that there are connections for, each once.
    pub closed spec fn order(&self) -> Seq<Seq<char>> {
        self.connections.keys()
    }

    pub closed spec fn is_running(&self) -> bool {
        self.running
    }

    pub fn new(config: Arc<CrossBagConfig>) -> (res: NetworkManager)
        ensures
            res.settings() == *config,
            res.links() == Map::<Seq<char>, ConnectionView>::empty(),
            !res.is_running(),
    {
        let res = NetworkManager { config, connections: Table::new(), running: false };
        assert(res.links() =~= Map::<Seq<char>, ConnectionView>::empty());
        res
    }

    /// Starts: every peer of the configuration has a connection, which does not
    /// stand yet.
    pub fn start(&mut self)
        ensures
            final(self).is_running(),
            final(self).settings() == old(self).settings(),
            final(self).links() == old(self).links().union_prefer_right(
                fresh_links(old(self).settings().network.peers@),
            ),
    {
        let ghost peers = self.config.network.peers@;
        let ghost keys = self.config.network.peers.keys();
        let ghost before = self.links();
        let config = self.config.clone();
        let n = config.network.peers.len();
        self.running = true;
        let mut i: usize = 0;
        assert(self.links() =~= before);
        while i < n
            invariant
                i <= n,
                n == keys.len(),
                keys == config.network.peers.keys(),
                peers == config.network.peers@,
                *config == old(self).settings(),
                self.settings() == old(self).settings(),
                self.running,
                forall|k: Seq<char>| #[trigger]
                    self.links().contains_key(k) == (before.contains_key(k) || keys.take(
                        i as int,
                    ).contains(k)),
                forall|k: Seq<char>| #[trigger]
                    self.links().contains_key(k) ==> self.links()[k] == if keys.take(
                        i as int,
                    ).contains(k) {
                        fresh_link(k, peers[k])
                    } else {
                        before[k]
                    },
            decreases n - i,
        {
            let id = config.network.peers.key_at(i);
            let peer = config.network.peers.value_at(i);
            let ghost now = self.links();
            let connection = PeerConnection {
                peer_id: id.clone(),
                peer_name: peer.name.clone(),
                address: peer.address.clone(),
                state: ConnectionState::Disconnected,
                write_open: false,
            };
            self.connections.insert(id.clone(), connection);
            proof {
                assert(self.links() =~= now.insert(id@, connection@));
                assert(connection@ == fresh_link(id@, peers[id@]));
                assert(keys.take(i + 1) =~= keys.take(i as int).push(id@));
                assert forall|k: Seq<char>| #[trigger] keys.take(i + 1).contains(k) == (keys.take(
                    i as int,
                ).contains(k) || k == id@) by {
                    text::lemma_contains_push(keys.take(i as int), id@, k);
                }
            }
            i += 1;
        }
        proof {
            assert(keys.take(i as int) =~= keys);
            let fresh = fresh_links(peers);
            assert(self.links() =~= before.union_prefer_right(fresh));
        }
    }

    /// The peers of the configuration that are not connected, each once.
    pub fn peers_to_connect(&self) -> (res: Vec<String>)
        ensures
            text::texts(res@) == self.settings().network.peers.keys().filter(
                |id: Seq<char>| !connected(self.links(), id),
            ),
            text::texts(res@).no_duplicates(),
            forall|id: Seq<char>| #[trigger]
                text::texts(res@).contains(id) == (self.settings().network.peers@.contains_key(id)
                    && !connected(self.links(), id)),
    {
        let ghost f = |id: Seq<char>| !connected(self.links(), id);
        let ghost keys = self.config.network.peers.keys();
        let n = self.config.network.peers.len();
        let mut res: Vec<String> = Vec::new();
        let mut i: usize = 0;
        proof {
            reveal(Seq::filter);
            assert(text::texts(res@) =~= keys.take(0).filter(f));
        }
        while i < n
            invariant
                i <= n,
                n == keys.len(),
                keys == self.config.network.peers.keys(),
                f == (|id: Seq<char>| !connected(self.links(), id)),
                text::texts(res@) == keys.take(i as int).filter(f),
            decreases n - i,
        {
            let id = self.config.network.peers.key_at(i);
            let ghost before = text::texts(res@);
            proof {
                assert(keys.take(i + 1) =~= keys.take(i as int).push(id@));
                text::lemma_filter_push(keys.take(i as int), id@, f);
            }
            let up = match self.connections.get(id) {
                Some(c) => c.state.is_connected(),
                None => false,
            };
            assert(up == connected(self.links(), id@));
            if !up {
                res.push(id.clone());
                assert(text::texts(res@) =~= before.push(id@));
            }
            i += 1;
        }
        proof {
            assert(keys.take(i as int) =~= keys);
            text::lemma_filter_distinct(keys, f);
            assert forall|id: Seq<char>| #[trigger] text::texts(res@).contains(id) == (
            keys.contains(id) && f(id)) by {
                text::lemma_filter_contains(keys, f, id);
            }
        }
        res
    }

    fn set_state(&mut self, peer_id: &str, state: ConnectionState, write_open: Option<bool>)
        ensures
            final(self).settings() == old(self).settings(),
            final(self).is_running() == old(self).is_running(),
            final(self).order() == old(self).order(),
            final(self).links() == with_state(
                old(self).links(),
                peer_id@,
                state@,
                match write_open {
                    Some(w) => w,
                    None => old(self).links()[peer_id@].write_open,
                },
            ),
    {
        let ghost before = self.links();
        let updated: Option<PeerConnection> = match self.connections.get(peer_id) {
            Some(c) => Some(
                PeerConnection {
                    peer_id: c.peer_id.clone(),
                    peer_name: c.peer_name.clone(),
                    address: c.address.clone(),
                    state,
                    write_open: match write_open {
                        Some(w) => w,
                        None => c.write_open,
                    },
                },
            ),
            None => None,
        };
        match updated {
            Some(c) => {
                self.connections.insert(peer_id.to_owned(), c);
                assert(self.links() =~= before.insert(peer_id@, c@));
            },
            None => {},
        }
    }

    /// An attempt to connect to a peer begins.
    pub fn connecting(&mut self, peer_id: &str)
        ensures
            final(self).settings() == old(self).settings(),
            final(self).is_running() == old(self).is_running(),
            final(self).links() == with_state(
                old(self).links(),
                peer_id@,
                StateView::Connecting,
                old(self).links()[peer_id@].write_open,
            ),
    {
        self.set_state(peer_id, ConnectionState::Connecting, None);
    }

    /// The connection to a peer stands, and the peer can be written to.
    pub fn connected(&mut self, peer_id: &str)
        ensures
            final(self).settings() == old(self).settings(),
            final(self).is_running() == old(self).is_running(),
            final(self).links() == with_state(
                old(self).links(),
                peer_id@,
                StateView::Connected,
                true,
            ),
    {
        self.set_state(peer_id, ConnectionState::Connected, Some(true));
    }

    /// An attempt to connect to a peer failed.
    pub fn failed(&mut self, peer_id: &str, why: String)
        ensures
            final(self).settings() == old(self).settings(),
            final(self).is_running() == old(self).is_running(),
            final(self).links() == with_state(
                old(self).links(),
                peer_id@,
                StateView::Failed(why@),
                old(self).links()[peer_id@].write_open,
            ),
    {
        self.set_state(peer_id, ConnectionState::Failed(why), None);
    }

    /// Nothing more can be read from a peer.
    pub fn reader_closed(&mut self, peer_id: &str)
        ensures
            final(self).settings() == old(self).settings(),
            final(self).is_running() == old(self).is_running(),
            final(self).links() == with_state(
                old(self).links(),
                peer_id@,
                StateView::Disconnected,
                old(self).links()[peer_id@].write_open,
            ),
    {
        self.set_state(peer_id, ConnectionState::Disconnected, None);
    }

    /// Nothing more can be written to a peer.
    pub fn writer_closed(&mut self, peer_id: &str)
        ensures
            final(self).settings() == old(self).settings(),
            final(self).is_running() == old(self).is_running(),
            final(self).links() == with_state(
                old(self).links(),
                peer_id@,
                StateView::Disconnected,
                false,
            ),
    {
        self.set_state(peer_id, ConnectionState::Disconnected, Some(false));
    }

    /// Takes over a connection that stands already.
    pub fn add_peer_connection(&mut self, peer_id: String, peer_name: String, address: String)
        ensures
            final(self).settings() == old(self).settings(),
            final(self).is_running() == old(self).is_running(),
            final(self).links() == old(self).links().insert(
                peer_id@,
                ConnectionView {
                    peer_id: peer_id@,
                    peer_name: peer_name@,
                    address: address@,
                    state: StateView::Connected,
                    write_open: true,
                },
            ),
    {
        let ghost before = self.links();
        let key = peer_id.clone();
        let connection = PeerConnection {
            peer_id,
            peer_name,
            address,
            state: ConnectionState::Connected,
            write_open: true,
        };
        self.connections.insert(key, connection);
        assert(self.links() =~= before.insert(peer_id@, connection@));
    }

    /// The states of all connections.
    pub fn get_connection_states(&self) -> (res: Table<ConnectionState>)
        ensures
            res@.dom() == self.links().dom(),
            forall|id: Seq<char>| #[trigger]
                self.links().contains_key(id) ==> res@[id]@ == self.links()[id].state,
    {
        let mut res: Table<ConnectionState> = Table::new();
        let n = self.connections.len();
        let ghost keys = self.connections.keys();
        let mut i: usize = 0;
        while i < n
            invariant
                i <= n,
                n == keys.len(),
                keys == self.connections.keys(),
                forall|k: Seq<char>| #[trigger]
                    res@.contains_key(k) == keys.take(i as int).contains(k),
                forall|k: Seq<char>| #[trigger]
                    res@.contains_key(k) ==> self.links().contains_key(k) && res@[k]@
                        == self.links()[k].state,
            decreases n - i,
        {
            let id = self.connections.key_at(i);
            let c = self.connections.value_at(i);
            proof {
                assert(keys.take(i + 1) =~= keys.take(i as int).push(id@));
                assert forall|k: Seq<char>| #[trigger] keys.take(i + 1).contains(k) == (keys.take(
                    i as int,
                ).contains(k) || k == id@) by {
                    text::lemma_contains_push(keys.take(i as int), id@, k);
                }
            }
            res.insert(id.clone(), c.state.copy());
            i += 1;
        }
        proof {
            assert(keys.take(i as int) =~= keys);
            assert(res@.dom() =~= self.links().dom());
        }
        res
    }

    /// The peers whose connections have a property: they are connected, or can
    /// be written to.
    fn peers_where(&self, writable: bool) -> (res: Vec<String>)
        ensures
            text::texts(res@) == self.order().filter(
                if writable {
                    is_open(self.links())
                } else {
                    is_up(self.links())
                },
            ),
            text::texts(res@).no_duplicates(),
            forall|id: Seq<char>| #[trigger]
                text::texts(res@).contains(id) == (self.links().contains_key(id) && if writable {
                    self.links()[id].write_open
                } else {
                    self.links()[id].state == StateView::Connected
                }),
    {
        let ghost f = if writable {
            is_open(self.links())
        } else {
            is_up(self.links())
        };
        let ghost keys = self.connections.keys();
        let n = self.connections.len();
        let mut res: Vec<String> = Vec::new();
        let mut i: usize = 0;
        proof {
            reveal(Seq::filter);
            assert(text::texts(res@) =~= keys.take(0).filter(f));
        }
        while i < n
            invariant
                i <= n,
                n == keys.len(),
                keys == self.connections.keys(),
                f == if writable {
                    is_open(self.links())
                } else {
                    is_up(self.links())
                },
                text::texts(res@) == keys.take(i as int).filter(f),
            decreases n - i,
        {
            let id = self.connections.key_at(i);
            let c = self.connections.value_at(i);
            let ghost before = text::texts(res@);
            proof {
                assert(keys.take(i + 1) =~= keys.take(i as int).push(id@));
                text::lemma_filter_push(keys.take(i as int), id@, f);
                assert(self.links()[id@] == c@);
            }
            let picked = if writable {
                c.write_open
            } else {
                c.state.is_connected()
            };
            if picked {
                res.push(id.clone());
                assert(text::texts(res@) =~= before.push(id@));
            }
            i += 1;
        }
        proof {
            assert(keys.take(i as int) =~= keys);
            text::lemma_filter_distinct(keys, f);
            assert forall|id: Seq<char>| #[trigger] text::texts(res@).contains(id) == (
            keys.contains(id) && f(id)) by {
                text::lemma_filter_contains(keys, f, id);
            }
        }
        res
    }

    /// The peers that are connected, each once.
    pub fn connected_peers(&self) -> (res: Vec<String>)
        ensures
            text::texts(res@) == self.order().filter(is_up(self.links())),
            text::texts(res@).no_duplicates(),
            forall|id: Seq<char>| #[trigger]
                text::texts(res@).contains(id) == connected(self.links(), id),
    {
        self.peers_where(false)
    }

    /// What to write to a peer, if the peer can be written to.
    pub fn send_to_peer(&self, peer_id: &str, message: &Message) -> (res: Result<
        Vec<u8>,
        SendError,
    >)
        ensures
            res is Ok == can_write(self.links(), peer_id@),
            res matches Ok(b) ==> b@ == frame::frame_bytes(codec::message_bytes(message@)),
            res matches Err(SendError::NotConnected(id)) ==> id@ == peer_id@,
    {
        match self.connections.get(peer_id) {
            Some(c) => if c.write_open {
                match frame_message(message) {
                    Ok(b) => {
                        return Ok(b);
                    },
                    Err(_) => {},
                }
            },
            None => {},
        }
        Err(SendError::NotConnected(peer_id.to_owned()))
    }

    /// What to write, and to whom, on a command of the daemon. A message to a
    /// peer that cannot be written to goes nowhere.
    pub fn route(&self, command: &NetworkCommand) -> (res: Delivery)
        ensures
            match command@ {
                CommandView::SendToPeer { peer_id, message } => res.frame@ == frame::frame_bytes(
                    codec::message_bytes(message),
                ) && text::texts(res.peers@) == if can_write(self.links(), peer_id) {
                    seq![peer_id]
                } else {
                    Seq::empty()
                },
                CommandView::Broadcast(message) => res.frame@ == frame::frame_bytes(
                    codec::message_bytes(message),
                ) && text::texts(res.peers@) == self.order().filter(is_open(self.links()))
                    && text::texts(res.peers@).no_duplicates() && forall|id: Seq<char>| #[trigger]
                    text::texts(res.peers@).contains(id) == can_write(self.links(), id),
            },
    {
        match command {
            NetworkCommand::SendToPeer { peer_id, message } => {
                let mut peers: Vec<String> = Vec::new();
                match self.connections.get(peer_id) {
                    Some(c) => if c.write_open {
                        peers.push(peer_id.clone());
                        assert(text::texts(peers@) =~= seq![peer_id@]);
                    },
                    None => {},
                }
                proof {
                    if !can_write(self.links(), peer_id@) {
                        assert(text::texts(peers@) =~= Seq::empty());
                    }
                }
                let framed = frame_message(message);
                Delivery {
                    peers,
                    frame: match framed {
                        Ok(b) => b,
                        Err(_) => Vec::new(),
                    },
                }
            },
            NetworkCommand::Broadcast(message) => {
                let peers = self.peers_where(true);
                let framed = frame_message(message);
                Delivery {
                    peers,
                    frame: match framed {
                        Ok(b) => b,
                        Err(_) => Vec::new(),
                    },
                }
            },
        }
    }

    /// Stops: no connection stands any more, and none is tried.
    pub fn stop(&mut self)
        ensures
            !final(self).is_running(),
            final(self).settings() == old(self).settings(),
            final(self).links().dom() == old(self).links().dom(),
            forall|id: Seq<char>| #[trigger]
                old(self).links().contains_key(id) ==> final(self).links()[id] == (ConnectionView {
                    state: StateView::Disconnected,
                    write_open: false,
                    ..old(self).links()[id]
                }),
    {
        self.running = false;
        let n = self.connections.len();
        let ghost keys = self.connections.keys();
        let ghost before = self.links();
        let mut i: usize = 0;
        assert(self.links() =~= before);
        while i < n
            invariant
                i <= n,
                n == keys.len(),
                keys == self.connections.keys(),
                keys.no_duplicates(),
                !self.running,
                before == old(self).links(),
                self.settings() == old(self).settings(),
                forall|k: Seq<char>| #[trigger] before.contains_key(k) == keys.contains(k),
                self.links().dom() == before.dom(),
                forall|k: Seq<char>| #[trigger]
                    before.contains_key(k) ==> self.links()[k] == if keys.take(i as int).contains(
                        k,
                    ) {
                        ConnectionView {
                            state: StateView::Disconnected,
                            write_open: false,
                            ..before[k]
                        }
                    } else {
                        before[k]
                    },
            decreases n - i,
        {
            let id = self.connections.key_at(i).clone();
            proof {
                assert(keys.take(i + 1) =~= keys.take(i as int).push(id@));
                assert forall|k: Seq<char>| #[trigger] keys.take(i + 1).contains(k) == (keys.take(
                    i as int,
                ).contains(k) || k == id@) by {
                    text::lemma_contains_push(keys.take(i as int), id@, k);
                }
                assert(keys.contains(keys[i as int]));
            }
            self.set_state(&id, ConnectionState::Disconnected, Some(false));
            assert(self.links().dom() =~= before.dom());
            i += 1;
        }
        assert(keys.take(i as int) =~= keys);
    }

    /// Whether the node still connects to its peers.
    pub fn keeps_connecting(&self) -> (res: bool)
        ensures
            res == self.is_running(),
    {
        self.running
    }
}

/// A connection to a peer that does not stand yet.
pub open spec fn fresh_link(id: Seq<char>, peer: config::PeerConfig) -> ConnectionView {
    ConnectionView {
        peer_id: id,
        peer_name: peer.name@,
        address: peer.address@,
        state: StateView::Disconnected,
        write_open: false,
    }
}

/// The connections to all peers, none of which stands yet.
pub open spec fn fresh_links(peers: Map<Seq<char>, config::PeerConfig>) -> Map<
    Seq<char>,
    ConnectionView,
> {
    Map::new(
        |id: Seq<char>| peers.contains_key(id),
        |id: Seq<char>| fresh_link(id, peers[id]),
    )
}

/// The peer is connected.
pub open spec fn connected(m: Map<Seq<char>, ConnectionView>, id: Seq<char>) -> bool {
    m.contains_key(id) && m[id].state == StateView::Connected
}

/// Peers that are connected.
pub open spec fn is_up(m: Map<Seq<char>, ConnectionView>) -> spec_fn(Seq<char>) -> bool {
    |id: Seq<char>| m[id].state == StateView::Connected
}

/// Peers that can be written to.
pub open spec fn is_open(m: Map<Seq<char>, ConnectionView>) -> spec_fn(Seq<char>) -> bool {
    |id: Seq<char>| m[id].write_open
}

/// The peer can be written to.
pub open spec fn can_write(m: Map<Seq<char>, ConnectionView>, id: Seq<char>) -> bool {
    m.contains_key(id) && m[id].write_open
}

/// What the daemon is to act upon, of what a peer sent.
pub open spec fn forwarded(
    m: protocol::MessageView,
    peer_id: Seq<char>,
) -> Option<daemon::SyncActionView> {
    match m {
        protocol::MessageView::FileIndex(index) => Some(
            daemon::SyncActionView::RemoteIndex { pair_id: index.pair_id, peer_id, index },
        ),
        protocol::MessageView::FileRequest(req) => Some(
            daemon::SyncActionView::RemoteFileRequest {
                pair_id: req.pair_id,
                peer_id,
                files: req.files,
            },
        ),
        _ => None,
    }
}

/// The action, if there is one.
pub open spec fn action_view(a: Option<SyncAction>) -> Option<daemon::SyncActionView> {
    match a {
        Some(a) => Some(a@),
        None => None,
    }
}

/// What the daemon is to act upon, of what a peer sent.
pub fn forward_to_daemon(msg: Message, peer_id: &str) -> (res: Option<SyncAction>)
    ensures
        action_view(res) == forwarded(msg@, peer_id@),
{
    match msg {
        Message::FileIndex(index) => Some(
            SyncAction::RemoteIndex {
                pair_id: index.pair_id.clone(),
                peer_id: peer_id.to_owned(),
                index,
            },
        ),
        Message::FileRequest(req) => Some(
            SyncAction::RemoteFileRequest {
                pair_id: req.pair_id,
                peer_id: peer_id.to_owned(),
                files: req.files,
            },
        ),
        _ => None,
    }
}

/// What to do on a connection, in this order: write `send`, hand `deliver` to
/// the daemon, and read `read` bytes. Where there is nothing to read, the
/// connection is closed.
#[derive(Debug)]
pub struct StreamStep {
    pub send: Option<Vec<u8>>,
    pub deliver: Option<SyncAction>,
    pub read: Option<u32>,
}

#[verifier::ext_equal]
pub ghost struct StepView {
    pub send: Option<Seq<u8>>,
    pub deliver: Option<daemon::SyncActionView>,
    pub read: Option<u32>,
}

impl View for StreamStep {
    type V = StepView;

    open spec fn view(&self) -> StepView {
        StepView {
            send: bytes_view(self.send),
            deliver: action_view(self.deliver),
            read: self.read,
        }
    }
}

/// The bytes, if there are any.
pub open spec fn bytes_view(b: Option<Vec<u8>>) -> Option<Seq<u8>> {
    match b {
        Some(v) => Some(v@),
        None => None,
    }
}

/// Where a stream of frames stands.
#[derive(Debug, Clone, Copy, PartialEq, Eq, Structural)]
pub enum StreamStage {
    /// The header of the first message is due, on a connection that a peer made.
    FirstHeader,
    FirstBody,
    Header,
    Body,
    Closed,
}

/// The answer to the handshake of a peer: it is accepted if the versions are
/// the same.
pub open spec fn handshake_reply(me: meeting::SelfView, version: u32) -> protocol::MessageView {
    protocol::MessageView::HandshakeAck(
        protocol::HandshakeAckView {
            accepted: version == PROTOCOL_VERSION,
            node_id: me.node_id,
            node_name: me.node_name,
            message: if version == PROTOCOL_VERSION {
                None
            } else {
                Some("Protocol version mismatch"@)
            },
        },
    )
}

/// What is done next on a stream of frames from `peer`, after `input` was read
/// or, where there is none, could not be read.
pub open spec fn stream_next(
    me: meeting::SelfView,
    peer: Seq<char>,
    stage: StreamStage,
    input: Option<Seq<u8>>,
) -> (StreamStage, StepView) {
    let close = (StreamStage::Closed, StepView { send: None, deliver: None, read: None });
    let header = StepView { send: None, deliver: None, read: Some(4) };
    match input {
        None => close,
        Some(b) => match stage {
            StreamStage::FirstHeader => if b.len() != 4 || frame::be_value(b) > PEER_LIMIT {
                close
            } else {
                (
                    StreamStage::FirstBody,
                    StepView { read: Some(frame::be_value(b) as u32), ..header },
                )
            },
            StreamStage::FirstBody => match codec::message_of(b) {
                None => close,
                Some(protocol::MessageView::Handshake(h)) => {
                    let reply = frame::frame_bytes(
                        codec::message_bytes(handshake_reply(me, h.protocol_version)),
                    );
                    if h.protocol_version == PROTOCOL_VERSION {
                        (StreamStage::Header, StepView { send: Some(reply), ..header })
                    } else {
                        (
                            StreamStage::Closed,
                            StepView { send: Some(reply), deliver: None, read: None },
                        )
                    }
                },
                Some(m) => (
                    StreamStage::Header,
                    StepView { deliver: forwarded(m, peer), ..header },
                ),
            },
            StreamStage::Header => if b.len() != 4 || frame::be_value(b) > PEER_LIMIT {
                close
            } else {
                (StreamStage::Body, StepView { read: Some(frame::be_value(b) as u32), ..header })
            },
            StreamStage::Body => (
                StreamStage::Header,
                StepView {
                    deliver: match codec::message_of(b) {
                        None => None,
                        Some(m) => forwarded(m, peer),
                    },
                    ..header
                },
            ),
            StreamStage::Closed => close,
        },
    }
}

/// The stream of frames that comes from a peer.
pub struct PeerStream {
    node_id: NodeId,
    node_name: String,
    peer: String,
    stage: StreamStage,
}

impl PeerStream {
    pub closed spec fn me(&self) -> meeting::SelfView {
        meeting::SelfView { node_id: self.node_id@, node_name: self.node_name@ }
    }

    /// What the daemon knows the peer by.
    pub closed spec fn peer(&self) -> Seq<char> {
        self.peer@
    }

    pub closed spec fn stage(&self) -> StreamStage {
        self.stage
    }

    /// The stream on a connection that a peer made. Four bytes are to be read
    /// first.
    pub fn incoming(config: &CrossBagConfig, peer: String) -> (res: PeerStream)
        ensures
            res.me() == (meeting::SelfView {
                node_id: config.node.node_id@,
                node_name: config.node.name@,
            }),
            res.peer() == peer@,
            res.stage() == StreamStage::FirstHeader,
    {
        PeerStream {
            node_id: config.node.node_id,
            node_name: config.node.name.clone(),
            peer,
            stage: StreamStage::FirstHeader,
        }
    }

    /// The stream on a connection on which the handshake is done. Four bytes are
    /// to be read first.
    pub fn established(config: &CrossBagConfig, peer: String) -> (res: PeerStream)
        ensures
            res.me() == (meeting::SelfView {
                node_id: config.node.node_id@,
                node_name: config.node.name@,
            }),
            res.peer() == peer@,
            res.stage() == StreamStage::Header,
    {
        PeerStream {
            node_id: config.node.node_id,
            node_name: config.node.name.clone(),
            peer,
            stage: StreamStage::Header,
        }
    }

    fn reply(&self, version: u32) -> (res: Option<Vec<u8>>)
        ensures
            res is Some,
            bytes_view(res) == Some(
                frame::frame_bytes(codec::message_bytes(handshake_reply(self.me(), version))),
            ),
    {
        let accepted = version == PROTOCOL_VERSION;
        let m = Message::HandshakeAck(
            HandshakeAck {
                accepted,
                node_id: self.node_id,
                node_name: self.node_name.clone(),
                message: if accepted {
                    None
                } else {
                    Some("Protocol version mismatch".to_owned())
                },
            },
        );
        assert(m@ == handshake_reply(self.me(), version));
        let framed = frame_message(&m);
        match framed {
            Ok(b) => Some(b),
            Err(_) => None,
        }
    }

    /// Goes on after `input` was read or, where there is none, could not be
    /// read.
    pub fn step(&mut self, input: Option<Vec<u8>>) -> (res: StreamStep)
        ensures
            (final(self).stage(), res@) == stream_next(
                old(self).me(),
                old(self).peer(),
                old(self).stage(),
                bytes_view(input),
            ),
            final(self).me() == old(self).me(),
            final(self).peer() == old(self).peer(),
    {
        let bytes = match input {
            Some(b) => b,
            None => {
                self.stage = StreamStage::Closed;
                return StreamStep { send: None, deliver: None, read: None };
            },
        };
        match self.stage {
            StreamStage::FirstHeader | StreamStage::Header => {
                let first = match self.stage {
                    StreamStage::FirstHeader => true,
                    _ => false,
                };
                if bytes.len() == 4 {
                    let header = [bytes[0], bytes[1], bytes[2], bytes[3]];
                    assert(header@ =~= bytes@);
                    match payload_len(&header, PEER_LIMIT) {
                        Ok(n) => {
                            self.stage = if first {
                                StreamStage::FirstBody
                            } else {
                                StreamStage::Body
                            };
                            return StreamStep { send: None, deliver: None, read: Some(n) };
                        },
                        Err(_) => {},
                    }
                }
                self.stage = StreamStage::Closed;
                StreamStep { send: None, deliver: None, read: None }
            },
            StreamStage::FirstBody => match Message::from_bytes(bytes.as_slice()) {
                Err(_) => {
                    self.stage = StreamStage::Closed;
                    StreamStep { send: None, deliver: None, read: None }
                },
                Ok(Message::Handshake(h)) => {
                    let send = self.reply(h.protocol_version);
                    if h.protocol_version == PROTOCOL_VERSION {
                        self.stage = StreamStage::Header;
                        StreamStep { send, deliver: None, read: Some(4) }
                    } else {
                        self.stage = StreamStage::Closed;
                        StreamStep { send, deliver: None, read: None }
                    }
                },
                Ok(m) => {
                    self.stage = StreamStage::Header;
                    StreamStep {
                        send: None,
                        deliver: forward_to_daemon(m, &self.peer),
                        read: Some(4),
                    }
                },
            },
            StreamStage::Body => {
                self.stage = StreamStage::Header;
                let deliver = match Message::from_bytes(bytes.as_slice()) {
                    Ok(m) => forward_to_daemon(m, &self.peer),
                    Err(_) => None,
                };
                StreamStep { send: None, deliver, read: Some(4) }
            },
            StreamStage::Closed => StreamStep { send: None, deliver: None, read: None },
        }
    }
}

/// What to do while a node greets a peer that it connected to.
#[derive(Debug)]
pub enum GreetingAction {
    Send(Vec<u8>),
    Read(u32),
    /// The handshake is done.
    Done,
    Fail(meeting::MeetingError),
}

#[verifier::ext_equal]
pub ghost enum GreetingActionView {
    Send(Seq<u8>),
    Read(u32),
    Done,
    Fail(meeting::ErrorView),
}

impl View for GreetingAction {
    type V = GreetingActionView;

    open spec fn view(&self) -> GreetingActionView {
        match *self {
            GreetingAction::Send(b) => GreetingActionView::Send(b@),
            GreetingAction::Read(n) => GreetingActionView::Read(n),
            GreetingAction::Done => GreetingActionView::Done,
            GreetingAction::Fail(e) => GreetingActionView::Fail(e@),
        }
    }
}

/// How far a greeting has come.
#[derive(Debug, Clone, Copy, PartialEq, Eq, Structural)]
pub enum GreetingStage {
    /// The handshake is on its way.
    Greeting,
    AckHeader,
    AckBody,
    Over,
}

/// What a node makes of the answer to its handshake.
pub open spec fn greeting_answered(b: Seq<u8>) -> GreetingActionView {
    match codec::message_of(b) {
        None => GreetingActionView::Fail(meeting::ErrorView::Undecodable(Due::PeerAck)),
        Some(protocol::MessageView::HandshakeAck(a)) => if a.accepted {
            GreetingActionView::Done
        } else {
            GreetingActionView::Fail(meeting::ErrorView::HandshakeRejected(a.message))
        },
        Some(m) => GreetingActionView::Fail(
            meeting::ErrorView::UnexpectedMessage(Due::PeerAck, codec::kind_of(m)),
        ),
    }
}

/// What is done next while a node greets a peer.
pub open spec fn greeting_next(stage: GreetingStage, event: meeting::EventView) -> (
    GreetingStage,
    GreetingActionView,
) {
    let out_of_turn = (
        GreetingStage::Over,
        GreetingActionView::Fail(meeting::ErrorView::OutOfTurn),
    );
    match stage {
        GreetingStage::Greeting => match event {
            meeting::EventView::Sent => (GreetingStage::AckHeader, GreetingActionView::Read(4)),
            meeting::EventView::SendFailed => (
                GreetingStage::Over,
                GreetingActionView::Fail(meeting::ErrorView::HandshakeNotSent),
            ),
            _ => out_of_turn,
        },
        GreetingStage::AckHeader => match event {
            meeting::EventView::Read(b) => if b.len() != 4 {
                out_of_turn
            } else if frame::be_value(b) > MEETING_LIMIT {
                (
                    GreetingStage::Over,
                    GreetingActionView::Fail(
                        meeting::ErrorView::TooLarge(Due::PeerAck, frame::be_value(b) as u32),
                    ),
                )
            } else {
                (GreetingStage::AckBody, GreetingActionView::Read(frame::be_value(b) as u32))
            },
            meeting::EventView::ReadFailed => (
                GreetingStage::Over,
                GreetingActionView::Fail(
                    meeting::ErrorView::ReadFailed(Due::PeerAck, Part::Length),
                ),
            ),
            _ => out_of_turn,
        },
        GreetingStage::AckBody => match event {
            meeting::EventView::Read(b) => (GreetingStage::Over, greeting_answered(b)),
            meeting::EventView::ReadFailed => (
                GreetingStage::Over,
                GreetingActionView::Fail(
                    meeting::ErrorView::ReadFailed(Due::PeerAck, Part::Body),
                ),
            ),
            _ => out_of_turn,
        },
        GreetingStage::Over => out_of_turn,
    }
}

/// The handshake with a peer that this node connected to.
pub struct GreetingSession {
    stage: GreetingStage,
}

impl GreetingSession {
    pub closed spec fn stage(&self) -> GreetingStage {
        self.stage
    }

    /// The connection stands: the handshake is to be sent, from a machine of
    /// this name.
    pub fn start(config: &CrossBagConfig, host: Option<String>) -> (res: (
        GreetingSession,
        GreetingAction,
    ))
        ensures
            res.0.stage() == GreetingStage::Greeting,
            res.1@ == GreetingActionView::Send(
                frame::frame_bytes(
                    codec::message_bytes(
                        meeting::greeting(
                            meeting::SelfView {
                                node_id: config.node.node_id@,
                                node_name: config.node.name@,
                            },
                            match host {
                                Some(h) => h@,
                                None => Seq::<char>::empty(),
                            },
                        ),
                    ),
                ),
            ),
    {
        let hostname = match host {
            Some(h) => h,
            None => String::new(),
        };
        let m = Message::Handshake(
            Handshake {
                protocol_version: PROTOCOL_VERSION,
                node_id: config.node.node_id,
                node_name: config.node.name.clone(),
                hostname,
            },
        );
        let framed = frame_message(&m);
        let action = match framed {
            Ok(b) => GreetingAction::Send(b),
            Err(_) => GreetingAction::Fail(meeting::MeetingError::HandshakeNotSent),
        };
        (GreetingSession { stage: GreetingStage::Greeting }, action)
    }

    /// The connection stands: the handshake is to be sent.
    pub fn connect_and_handshake(config: &CrossBagConfig) -> (res: (
        GreetingSession,
        GreetingAction,
    ))
        ensures
            res.0.stage() == GreetingStage::Greeting,
            exists|hostname: Seq<char>|
                res.1@ == GreetingActionView::Send(
                    frame::frame_bytes(
                        codec::message_bytes(
                            #[trigger] meeting::greeting(
                                meeting::SelfView {
                                    node_id: config.node.node_id@,
                                    node_name: config.node.name@,
                                },
                                hostname,
                            ),
                        ),
                    ),
                ),
    {
        GreetingSession::start(config, config::host_name())
    }

    /// Goes one step on.
    pub fn step(&mut self, event: meeting::Event) -> (res: GreetingAction)
        ensures
            (final(self).stage(), res@) == greeting_next(old(self).stage(), event@),
    {
        let stage = self.stage;
        self.stage = GreetingStage::Over;
        match (stage, event) {
            (GreetingStage::Greeting, meeting::Event::Sent) => {
                self.stage = GreetingStage::AckHeader;
                GreetingAction::Read(4)
            },
            (GreetingStage::Greeting, meeting::Event::SendFailed) => GreetingAction::Fail(
                meeting::MeetingError::HandshakeNotSent,
            ),
            (GreetingStage::AckHeader, meeting::Event::Read(b)) => {
                if b.len() == 4 {
                    let header = [b[0], b[1], b[2], b[3]];
                    assert(header@ =~= b@);
                    match payload_len(&header, MEETING_LIMIT) {
                        Ok(n) => {
                            self.stage = GreetingStage::AckBody;
                            GreetingAction::Read(n)
                        },
                        Err(n) => GreetingAction::Fail(
                            meeting::MeetingError::TooLarge(Due::PeerAck, n),
                        ),
                    }
                } else {
                    GreetingAction::Fail(meeting::MeetingError::OutOfTurn)
                }
            },
            (GreetingStage::AckBody, meeting::Event::Read(b)) => {
                match Message::from_bytes(b.as_slice()) {
                    Err(_) => GreetingAction::Fail(
                        meeting::MeetingError::Undecodable(Due::PeerAck),
                    ),
                    Ok(Message::HandshakeAck(a)) => if a.accepted {
                        GreetingAction::Done
                    } else {
                        GreetingAction::Fail(meeting::MeetingError::HandshakeRejected(a.message))
                    },
                    Ok(m) => GreetingAction::Fail(
                        meeting::MeetingError::UnexpectedMessage(Due::PeerAck, m.kind()),
                    ),
                }
            },
            (GreetingStage::AckHeader, meeting::Event::ReadFailed) => GreetingAction::Fail(
                meeting::MeetingError::ReadFailed(Due::PeerAck, Part::Length),
            ),
            (GreetingStage::AckBody, meeting::Event::ReadFailed) => GreetingAction::Fail(
                meeting::MeetingError::ReadFailed(Due::PeerAck, Part::Body),
            ),
            _ => GreetingAction::Fail(meeting::MeetingError::OutOfTurn),
        }
    }
}

/// A message arrives as it was sent: the header of its frame makes the peer read
/// the rest, and the rest is handed on to the daemon of the peer.
pub proof fn sent_messages_arrive(
    me: meeting::SelfView,
    from: Seq<char>,
    m: protocol::MessageView,
)
    requires
        codec::writable(m),
        codec::message_bytes(m).len() <= PEER_LIMIT,
    ensures
        ({
            let sent = frame::frame_bytes(codec::message_bytes(m));
            let header = StepView { send: None, deliver: None, read: Some(4) };
            &&& stream_next(me, from, StreamStage::Header, Some(sent.take(4))) == (
                StreamStage::Body,
                StepView { read: Some(codec::message_bytes(m).len() as u32), ..header },
            )
            &&& sent.skip(4).len() == codec::message_bytes(m).len()
            &&& stream_next(me, from, StreamStage::Body, Some(sent.skip(4))) == (
                StreamStage::Header,
                StepView { deliver: forwarded(m, from), ..header },
            )
        }),
{
    let payload = codec::message_bytes(m);
    frame::header_tells_length(payload);
    codec::decode_undoes_encode(m, Seq::empty());
    assert(payload + Seq::<u8>::empty() =~= payload);
}

/// A node that greets a peer of its own version is accepted, and takes the
/// answer so; a peer of another version refuses it, and says why.
pub proof fn versions_decide_handshake(
    peer: meeting::SelfView,
    node: meeting::SelfView,
    hostname: Seq<char>,
    version: u32,
    from: Seq<char>,
)
    requires
        codec::writable(
            protocol::MessageView::Handshake(
                protocol::HandshakeView {
                    protocol_version: version,
                    node_id: node.node_id,
                    node_name: node.node_name,
                    hostname,
                },
            ),
        ),
        codec::writable(handshake_reply(peer, version)),
    ensures
        ({
            let hello = codec::message_bytes(
                protocol::MessageView::Handshake(
                    protocol::HandshakeView {
                        protocol_version: version,
                        node_id: node.node_id,
                        node_name: node.node_name,
                        hostname,
                    },
                ),
            );
            let reply = codec::message_bytes(handshake_reply(peer, version));
            let (stage, step) = stream_next(peer, from, StreamStage::FirstBody, Some(hello));
            &&& step.send == Some(frame::frame_bytes(reply))
            &&& step.read is Some == (version == PROTOCOL_VERSION)
            &&& greeting_answered(reply) == if version == PROTOCOL_VERSION {
                GreetingActionView::Done
            } else {
                GreetingActionView::Fail(
                    meeting::ErrorView::HandshakeRejected(Some("Protocol version mismatch"@)),
                )
            }
        }),
{
    let m = protocol::MessageView::Handshake(
        protocol::HandshakeView {
            protocol_version: version,
            node_id: node.node_id,
            node_name: node.node_name,
            hostname,
        },
    );
    let hello = codec::message_bytes(m);
    let reply = codec::message_bytes(handshake_reply(peer, version));
    codec::decode_undoes_encode(m, Seq::empty());
    codec::decode_undoes_encode(handshake_reply(peer, version), Seq::empty());
    assert(hello + Seq::<u8>::empty() =~= hello);
    assert(reply + Seq::<u8>::empty() =~= reply);
}

/// The action hands on the index, unchanged, as that of the peer.
pub open spec fn carries_index(a: SyncAction, peer: Seq<char>, index: protocol::FileIndex) -> bool {
    a matches SyncAction::RemoteIndex { pair_id, peer_id, index: got } && pair_id@
        == index.pair_id@ && peer_id@ == peer && got.pair_id@ == index.pair_id@
        && protocol::same_entries(got.files@, index.files@) && got.timestamp@ == index.timestamp@
}

/// The action hands on the request, unchanged, as that of the peer.
pub open spec fn carries_request(
    a: SyncAction,
    peer: Seq<char>,
    request: protocol::FileRequest,
) -> bool {
    a matches SyncAction::RemoteFileRequest { pair_id, peer_id, files } && pair_id@
        == request.pair_id@ && peer_id@ == peer && protocol::same_texts(files@, request.files@)
}

/// An action hands on what the message says: an index or a request, unchanged,
/// and nothing of any other message.
pub open spec fn hands_on(res: Option<SyncAction>, peer: Seq<char>, m: Message) -> bool {
    match m {
        Message::FileIndex(index) => res matches Some(a) && carries_index(a, peer, index),
        Message::FileRequest(request) => res matches Some(a) && carries_request(a, peer, request),
        _ => res is None,
    }
}

proof fn lemma_hands_on(res: Option<SyncAction>, peer: Seq<char>, m: Message)
    requires
        action_view(res) == forwarded(m@, peer),
    ensures
        hands_on(res, peer, m),
{
    match m {
        Message::FileIndex(index) => {
            let got = res->Some_0->index;
            assert(got@ == index@);
            protocol::lemma_same_entries(got.files@, index.files@);
        },
        Message::FileRequest(request) => {
            let files = res->Some_0->files;
            protocol::lemma_same_texts(files@, request.files@);
        },
        _ => {},
    }
}

/// What the daemon gets of a message is what the message says.
pub proof fn daemons_get_what_was_sent(msg: Message, peer_id: &str, res: Option<SyncAction>)
    requires
        call_ensures(forward_to_daemon, (msg, peer_id), res),
    ensures
        hands_on(res, peer_id@, msg),
{
    lemma_hands_on(res, peer_id@, msg);
}

/// What a node writes of a message the peer hands on to its daemon: the body of
/// the frame, read on a connection that stands, delivers what the message says.
pub proof fn bodies_reach_the_daemon(
    stream: &mut PeerStream,
    m: Message,
    bytes: Vec<u8>,
    res: StreamStep,
)
    requires
        call_ensures(Message::to_bytes, (&m,), Ok(bytes)),
        call_ensures(PeerStream::step, (stream, Some(bytes)), res),
        old(stream).stage() == StreamStage::Body || (old(stream).stage() == StreamStage::FirstBody
            && !(m is Handshake)),
    ensures
        hands_on(res.deliver, old(stream).peer(), m),
        res.send is None,
        res.read == Some(4u32),
        final(stream).stage() == StreamStage::Header,
        final(stream).peer() == old(stream).peer(),
{
    assert(bytes_view(Some(bytes)) == Some(bytes@));
    assert(codec::message_of(bytes@) == Some(m@));
    lemma_hands_on(res.deliver, old(stream).peer(), m);
}

/// A body that is no message is passed over; as the first one it ends the
/// connection. Nothing is delivered of it.
pub proof fn garbage_is_not_delivered(stream: &mut PeerStream, bytes: Vec<u8>, res: StreamStep)
    requires
        codec::message_of(bytes@) is None,
        call_ensures(PeerStream::step, (stream, Some(bytes)), res),
        old(stream).stage() == StreamStage::Body || old(stream).stage() == StreamStage::FirstBody,
    ensures
        res.deliver is None,
        res.send is None,
        res.read is Some == (old(stream).stage() == StreamStage::Body),
{
    assert(bytes_view(Some(bytes)) == Some(bytes@));
}

/// A header tells how much is read next, unless it is more than 100 MiB: then
/// the connection ends, as it does where nothing could be read.
pub proof fn headers_tell_how_much_to_read(
    stream: &mut PeerStream,
    bytes: Vec<u8>,
    res: StreamStep,
)
    requires
        bytes@.len() == 4,
        call_ensures(PeerStream::step, (stream, Some(bytes)), res),
        old(stream).stage() == StreamStage::Header || old(stream).stage()
            == StreamStage::FirstHeader,
    ensures
        ({
            let n = bytes@[0] * 16777216 + bytes@[1] * 65536 + bytes@[2] * 256 + bytes@[3];
            &&& n <= 104857600 ==> res.read == Some(n as u32) && final(stream).stage() == if old(
                stream,
            ).stage() == StreamStage::Header {
                StreamStage::Body
            } else {
                StreamStage::FirstBody
            }
            &&& n > 104857600 ==> res.read is None
            &&& res.send is None
            &&& res.deliver is None
        }),
{
    assert(bytes_view(Some(bytes)) == Some(bytes@));
}

/// A connection that cannot be read any more is given up.
pub proof fn broken_connections_end(stream: &mut PeerStream, res: StreamStep)
    requires
        call_ensures(PeerStream::step, (stream, None), res),
    ensures
        res.read is None,
        res.send is None,
        res.deliver is None,
{
    assert(bytes_view(None) == None::<Seq<u8>>);
}

/// A peer that greets is answered: accepted if its version is the one here, and
/// then read on; else refused with the reason, and the connection ends. `ack` is
/// the answer and `answer` its bytes.
pub proof fn greetings_are_answered(
    stream: &mut PeerStream,
    hello: protocol::Handshake,
    bytes: Vec<u8>,
    res: StreamStep,
    ack: protocol::HandshakeAck,
    answer: Vec<u8>,
)
    requires
        call_ensures(Message::to_bytes, (&Message::Handshake(hello),), Ok(bytes)),
        call_ensures(PeerStream::step, (stream, Some(bytes)), res),
        old(stream).stage() == StreamStage::FirstBody,
        call_ensures(Message::to_bytes, (&Message::HandshakeAck(ack),), Ok(answer)),
        ack.accepted == (hello.protocol_version == PROTOCOL_VERSION),
        ack.node_id.bytes@ == old(stream).me().node_id,
        ack.node_name@ == old(stream).me().node_name,
        ack.accepted ==> ack.message is None,
        !ack.accepted ==> (ack.message matches Some(why) && why@ == "Protocol version mismatch"@),
    ensures
        res.send matches Some(b) && b@ == frame::frame_bytes(answer@),
        res.read is Some == (hello.protocol_version == PROTOCOL_VERSION),
        res.deliver is None,
{
    assert(bytes_view(Some(bytes)) == Some(bytes@));
    assert(codec::message_of(bytes@) == Some(Message::Handshake(hello)@));
    let m = Message::HandshakeAck(ack);
    assert(m@ == handshake_reply(old(stream).me(), hello.protocol_version));
}

/// A node that greets a peer is through exactly if the peer answers that it
/// accepts; a refusal tells why.
pub proof fn only_acceptance_completes_a_greeting(
    session: &mut GreetingSession,
    m: Message,
    bytes: Vec<u8>,
    res: GreetingAction,
)
    requires
        call_ensures(Message::to_bytes, (&m,), Ok(bytes)),
        call_ensures(GreetingSession::step, (session, meeting::Event::Read(bytes)), res),
        old(session).stage() == GreetingStage::AckBody,
    ensures
        res is Done == (m matches Message::HandshakeAck(a) && a.accepted),
        m matches Message::HandshakeAck(a) ==> (!a.accepted ==> (res matches GreetingAction::Fail(
            meeting::MeetingError::HandshakeRejected(why),
        ) && protocol::same_option(why, a.message))),
        m is HandshakeAck || res is Fail,
{
    assert(meeting::Event::Read(bytes)@ == meeting::EventView::Read(bytes@));
    assert(codec::message_of(bytes@) == Some(m@));
    if let Message::HandshakeAck(a) = m {
        if !a.accepted {
            assert(res@ == GreetingActionView::Fail(
                meeting::ErrorView::HandshakeRejected(text::option_text(a.message)),
            ));
        }
    }
}

/// A message for a peer is written to that peer and to no other, if it can be
/// written to. What is written is the frame of the message.
pub proof fn messages_go_to_their_peer(
    manager: &NetworkManager,
    peer_id: String,
    message: Message,
    bytes: Vec<u8>,
    res: Delivery,
)
    requires
        call_ensures(
            NetworkManager::route,
            (manager, &NetworkCommand::SendToPeer { peer_id, message }),
            res,
        ),
        call_ensures(Message::to_bytes, (&message,), Ok(bytes)),
    ensures
        ({
            let open = manager.links().contains_key(peer_id@)
                && manager.links()[peer_id@].write_open;
            &&& open ==> res.peers@.len() == 1 && res.peers@[0]@ == peer_id@
            &&& !open ==> res.peers@.len() == 0
            &&& res.frame@ == frame::frame_bytes(bytes@)
        }),
{
    let command = NetworkCommand::SendToPeer { peer_id, message };
    assert(command@ == (CommandView::SendToPeer { peer_id: peer_id@, message: message@ }));
    assert(text::texts(res.peers@).len() == res.peers@.len());
    if res.peers@.len() > 0 {
        assert(text::texts(res.peers@)[0] == res.peers@[0]@);
    }
}

/// A message for all goes once to every peer that can be written to, and to no
/// other.
pub proof fn broadcasts_reach_all(
    manager: &NetworkManager,
    message: Message,
    bytes: Vec<u8>,
    res: Delivery,
    id: Seq<char>,
)
    requires
        call_ensures(NetworkManager::route, (manager, &NetworkCommand::Broadcast(message)), res),
        call_ensures(Message::to_bytes, (&message,), Ok(bytes)),
    ensures
        res.frame@ == frame::frame_bytes(bytes@),
        (exists|n: int| 0 <= n < res.peers@.len() && (#[trigger] res.peers@[n])@ == id) == (
        manager.links().contains_key(id) && manager.links()[id].write_open),
        forall|a: int, b: int|
            0 <= a < b < res.peers@.len() ==> (#[trigger] res.peers@[a])@ != (
            #[trigger] res.peers@[b])@,
{
    let command = NetworkCommand::Broadcast(message);
    assert(command@ == CommandView::Broadcast(message@));
    let names = text::texts(res.peers@);
    assert(names.len() == res.peers@.len());
    assert forall|n: int| 0 <= n < names.len() implies #[trigger] names[n] == res.peers@[n]@ by {}
    assert(names.contains(id) == can_write(manager.links(), id));
    if exists|n: int| 0 <= n < res.peers@.len() && (#[trigger] res.peers@[n])@ == id {
        let n = choose|n: int| 0 <= n < res.peers@.len() && (#[trigger] res.peers@[n])@ == id;
        assert(names[n] == id);
    }
    if names.contains(id) {
        let n = choose|n: int| 0 <= n < names.len() && names[n] == id;
        assert(res.peers@[n]@ == id);
    }
    assert forall|a: int, b: int| 0 <= a < b < res.peers@.len() implies (
    #[trigger] res.peers@[a])@ != (#[trigger] res.peers@[b])@ by {
        assert(names[a] == res.peers@[a]@ && names[b] == res.peers@[b]@);
    }
}

/// A message is sent to a peer exactly if the peer can be written to; else the
/// peer is named.
pub proof fn only_open_peers_are_sent_to(
    manager: &NetworkManager,
    peer_id: &str,
    message: Message,
    bytes: Vec<u8>,
    res: Result<Vec<u8>, SendError>,
)
    requires
        call_ensures(NetworkManager::send_to_peer, (manager, peer_id, &message), res),
        call_ensures(Message::to_bytes, (&message,), Ok(bytes)),
    ensures
        res is Ok == (manager.links().contains_key(peer_id@)
            && manager.links()[peer_id@].write_open),
        res matches Ok(b) ==> b@ == frame::frame_bytes(bytes@),
        res matches Err(SendError::NotConnected(id)) ==> id@ == peer_id@,
{
}

/// The connection is the same but for its state and whether it can be written to.
pub open spec fn same_link(a: ConnectionView, b: ConnectionView) -> bool {
    a.peer_id == b.peer_id && a.peer_name == b.peer_name && a.address == b.address
}

/// A peer that connects is connected and can be written to; one whose writer ends
/// is neither; the other connections stay as they are.
pub proof fn connections_come_and_go(
    before: &mut NetworkManager,
    after: &mut NetworkManager,
    peer_id: &str,
    other: Seq<char>,
)
    requires
        call_ensures(NetworkManager::connected, (before, peer_id), ()),
        call_ensures(NetworkManager::writer_closed, (after, peer_id), ()),
        old(before).links().contains_key(peer_id@),
        old(after).links() == final(before).links(),
        other != peer_id@,
    ensures
        ({
            let up = final(before).links()[peer_id@];
            &&& up.state == StateView::Connected
            &&& up.write_open
            &&& same_link(up, old(before).links()[peer_id@])
        }),
        ({
            let down = final(after).links()[peer_id@];
            &&& down.state == StateView::Disconnected
            &&& !down.write_open
            &&& same_link(down, old(before).links()[peer_id@])
        }),
        final(after).links().contains_key(other) == old(before).links().contains_key(other),
        old(before).links().contains_key(other) ==> final(after).links()[other] == old(
            before,
        ).links()[other],
{
}

/// A connection that fails is kept with the reason, one whose reader ends is not
/// connected any more, and one that is being made is connecting. Nothing else
/// changes in any of these cases, nor does a peer appear that was not there.
pub proof fn states_are_noted(
    a: &mut NetworkManager,
    b: &mut NetworkManager,
    c: &mut NetworkManager,
    peer_id: &str,
    why: String,
    id: Seq<char>,
)
    requires
        call_ensures(NetworkManager::failed, (a, peer_id, why), ()),
        call_ensures(NetworkManager::reader_closed, (b, peer_id), ()),
        call_ensures(NetworkManager::connecting, (c, peer_id), ()),
    ensures
        final(a).links().contains_key(id) == old(a).links().contains_key(id),
        final(b).links().contains_key(id) == old(b).links().contains_key(id),
        final(c).links().contains_key(id) == old(c).links().contains_key(id),
        old(a).links().contains_key(id) ==> same_link(final(a).links()[id], old(a).links()[id])
            && final(a).links()[id].write_open == old(a).links()[id].write_open
            && final(a).links()[id].state == if id == peer_id@ {
            StateView::Failed(why@)
        } else {
            old(a).links()[id].state
        },
        old(b).links().contains_key(id) ==> same_link(final(b).links()[id], old(b).links()[id])
            && final(b).links()[id].write_open == old(b).links()[id].write_open
            && final(b).links()[id].state == if id == peer_id@ {
            StateView::Disconnected
        } else {
            old(b).links()[id].state
        },
        old(c).links().contains_key(id) ==> same_link(final(c).links()[id], old(c).links()[id])
            && final(c).links()[id].write_open == old(c).links()[id].write_open
            && final(c).links()[id].state == if id == peer_id@ {
            StateView::Connecting
        } else {
            old(c).links()[id].state
        },
{
}

/// When the network starts, each peer of the configuration has a connection that
/// does not stand yet, with the peer's name and address.
pub proof fn all_peers_are_known_at_the_start(manager: &mut NetworkManager, id: Seq<char>)
    requires
        call_ensures(NetworkManager::start, (manager,), ()),
        old(manager).settings().network.peers@.contains_key(id),
    ensures
        final(manager).is_running(),
        final(manager).links().contains_key(id),
        ({
            let link = final(manager).links()[id];
            let peer = old(manager).settings().network.peers@[id];
            &&& link.peer_id == id
            &&& link.peer_name == peer.name@
            &&& link.address == peer.address@
            &&& link.state == StateView::Disconnected
            &&& !link.write_open
        }),
{
}

/// A node tries to connect to every peer of the configuration that is not
/// connected, and to no other.
pub proof fn unconnected_peers_are_tried(
    manager: &NetworkManager,
    res: Vec<String>,
    id: Seq<char>,
)
    requires
        call_ensures(NetworkManager::peers_to_connect, (manager,), res),
    ensures
        (exists|n: int| 0 <= n < res@.len() && (#[trigger] res@[n])@ == id) == (
        manager.settings().network.peers@.contains_key(id) && !(manager.links().contains_key(id)
            && manager.links()[id].state == StateView::Connected)),
{
    let names = text::texts(res@);
    assert(names.len() == res@.len());
    assert(names.contains(id) == (manager.settings().network.peers@.contains_key(id)
        && !connected(manager.links(), id)));
    if exists|n: int| 0 <= n < res@.len() && (#[trigger] res@[n])@ == id {
        let n = choose|n: int| 0 <= n < res@.len() && (#[trigger] res@[n])@ == id;
        assert(names[n] == id);
    }
    if names.contains(id) {
        let n = choose|n: int| 0 <= n < names.len() && names[n] == id;
        assert(res@[n]@ == id);
    }
}

/// The peers that are reported are those that are connected, and the states that
/// are told are those of the connections.
pub proof fn reports_tell_the_states(
    manager: &NetworkManager,
    up: Vec<String>,
    states: Table<ConnectionState>,
    id: Seq<char>,
)
    requires
        call_ensures(NetworkManager::connected_peers, (manager,), up),
        call_ensures(NetworkManager::get_connection_states, (manager,), states),
    ensures
        (exists|n: int| 0 <= n < up@.len() && (#[trigger] up@[n])@ == id) == (
        manager.links().contains_key(id) && manager.links()[id].state == StateView::Connected),
        states@.contains_key(id) == manager.links().contains_key(id),
        states@.contains_key(id) ==> states@[id]@ == manager.links()[id].state,
{
    let names = text::texts(up@);
    assert(names.len() == up@.len());
    assert(names.contains(id) == connected(manager.links(), id));
    if exists|n: int| 0 <= n < up@.len() && (#[trigger] up@[n])@ == id {
        let n = choose|n: int| 0 <= n < up@.len() && (#[trigger] up@[n])@ == id;
        assert(names[n] == id);
    }
    if names.contains(id) {
        let n = choose|n: int| 0 <= n < names.len() && names[n] == id;
        assert(up@[n]@ == id);
    }
    assert(states@.dom().contains(id) == manager.links().dom().contains(id));
}

/// Once the network is stopped, no peer is connected or can be written to, and
/// none is forgotten.
pub proof fn stopping_ends_all_connections(manager: &mut NetworkManager, id: Seq<char>)
    requires
        call_ensures(NetworkManager::stop, (manager,), ()),
    ensures
        !final(manager).is_running(),
        final(manager).links().contains_key(id) == old(manager).links().contains_key(id),
        final(manager).links().contains_key(id) ==> final(manager).links()[id].state
            == StateView::Disconnected && !final(manager).links()[id].write_open && same_link(
            final(manager).links()[id],
            old(manager).links()[id],
        ),
{
    assert(final(manager).links().dom().contains(id) == old(manager).links().dom().contains(id));
}

/// A connection that is added stands and can be written to; the others stay.
pub proof fn added_connections_stand(
    manager: &mut NetworkManager,
    peer_id: String,
    peer_name: String,
    address: String,
    other: Seq<char>,
)
    requires
        call_ensures(
            NetworkManager::add_peer_connection,
            (manager, peer_id, peer_name, address),
            (),
        ),
        other != peer_id@,
    ensures
        final(manager).links().contains_key(peer_id@),
        ({
            let link = final(manager).links()[peer_id@];
            &&& link.peer_id == peer_id@
            &&& link.peer_name == peer_name@
            &&& link.address == address@
            &&& link.state == StateView::Connected
            &&& link.write_open
        }),
        final(manager).links().contains_key(other) == old(manager).links().contains_key(other),
        old(manager).links().contains_key(other) ==> final(manager).links()[other] == old(
            manager,
        ).links()[other],
{
}

/// Only a connection that stands counts as connected.
pub proof fn standing_connections_are_connected(state: &ConnectionState, res: bool)
    requires
        call_ensures(ConnectionState::is_connected, (state,), res),
    ensures
        res == (*state is Connected),
{
}

/// A copy of a state is the state, with its reason.
pub proof fn copied_connection_states_agree(state: &ConnectionState, res: ConnectionState)
    requires
        call_ensures(ConnectionState::copy, (state,), res),
    ensures
        *state is Disconnected == res is Disconnected,
        *state is Connecting == res is Connecting,
        *state is Connected == res is Connected,
        *state matches ConnectionState::Failed(a) ==> (res matches ConnectionState::Failed(b) && a@
            == b@),
{
}

/// A manager that was started keeps connecting, and one that was stopped does
/// not.
pub proof fn stopping_ends_connecting(
    a: &mut NetworkManager,
    b: &mut NetworkManager,
    started: &NetworkManager,
    stopped: &NetworkManager,
    x: bool,
    y: bool,
)
    requires
        call_ensures(NetworkManager::start, (a,), ()),
        call_ensures(NetworkManager::stop, (b,), ()),
        *started == *final(a),
        *stopped == *final(b),
        call_ensures(NetworkManager::keeps_connecting, (started,), x),
        call_ensures(NetworkManager::keeps_connecting, (stopped,), y),
    ensures
        x,
        !y,
{
}

/// A peer that connected and greets with the version here is accepted by this
/// node, under its own identifier and name; `ack` is the answer and `answer` its
/// bytes. The header comes first.
pub proof fn this_node_answers_greetings(
    config: &CrossBagConfig,
    peer: String,
    fresh: PeerStream,
    first: &mut PeerStream,
    second: &mut PeerStream,
    header: Vec<u8>,
    asked: StreamStep,
    hello: protocol::Handshake,
    bytes: Vec<u8>,
    res: StreamStep,
    ack: protocol::HandshakeAck,
    answer: Vec<u8>,
)
    requires
        call_ensures(PeerStream::incoming, (config, peer), fresh),
        *old(first) == fresh,
        header@.len() == 4,
        header@[0] == 0,
        call_ensures(PeerStream::step, (first, Some(header)), asked),
        *old(second) == *final(first),
        call_ensures(Message::to_bytes, (&Message::Handshake(hello),), Ok(bytes)),
        call_ensures(PeerStream::step, (second, Some(bytes)), res),
        hello.protocol_version == PROTOCOL_VERSION,
        call_ensures(Message::to_bytes, (&Message::HandshakeAck(ack),), Ok(answer)),
        ack.accepted,
        ack.node_id.bytes@ == config.node.node_id.bytes@,
        ack.node_name@ == config.node.name@,
        ack.message is None,
    ensures
        asked.read matches Some(n) && n == 0x1_0000 * header@[1] + 0x100 * header@[2] + header@[3],
        asked.send is None && asked.deliver is None,
        res.send matches Some(b) && b@ == frame::frame_bytes(answer@),
        res.read == Some(4u32),
        final(second).peer() == peer@,
        final(second).stage() == StreamStage::Header,
{
    assert(bytes_view(Some(header)) == Some(header@));
    assert(bytes_view(Some(bytes)) == Some(bytes@));
    assert(codec::message_of(bytes@) == Some(Message::Handshake(hello)@));
    let m = Message::HandshakeAck(ack);
    assert(m@ == handshake_reply(fresh.me(), hello.protocol_version));
}

/// On a connection on which the handshake is done what is read is for the peer
/// that it was made with, header first.
pub proof fn established_streams_are_of_their_peer(
    config: &CrossBagConfig,
    peer: String,
    res: PeerStream,
)
    requires
        call_ensures(PeerStream::established, (config, peer), res),
    ensures
        res.peer() == peer@,
        res.stage() is Header,
        res.me().node_id == config.node.node_id.bytes@,
        res.me().node_name == config.node.name@,
{
}

/// A node greets a peer with the version of the protocol, its identifier, its
/// name and that of its machine; `hello` is the greeting and `bytes` what is
/// written of it.
pub proof fn greetings_tell_who_greets(
    config: &CrossBagConfig,
    host: Option<String>,
    session: GreetingSession,
    action: GreetingAction,
    hello: protocol::Handshake,
    bytes: Vec<u8>,
)
    requires
        call_ensures(GreetingSession::start, (config, host), (session, action)),
        call_ensures(Message::to_bytes, (&Message::Handshake(hello),), Ok(bytes)),
        hello.protocol_version == PROTOCOL_VERSION,
        hello.node_id.bytes@ == config.node.node_id.bytes@,
        hello.node_name@ == config.node.name@,
        host matches Some(h) ==> hello.hostname@ == h@,
        host is None ==> hello.hostname@.len() == 0,
    ensures
        action matches GreetingAction::Send(b) && b@ == frame::frame_bytes(bytes@),
        session.stage() is Greeting,
{
    if host is None {
        assert(hello.hostname@ =~= Seq::<char>::empty());
    }
    let m = Message::Handshake(hello);
    assert(m@ == meeting::greeting(
        meeting::SelfView { node_id: config.node.node_id@, node_name: config.node.name@ },
        hello.hostname@,
    ));
}

} // verus!
