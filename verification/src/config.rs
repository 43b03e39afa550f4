//! What a node is told: who it is, whom it knows and what it keeps in step.
//!
//! Paths are texts here; whether something stands at a path is for the caller
//! to say.

use vstd::prelude::*;

use crate::identity::NodeId;
use crate::identity;
use crate::numbers;
use crate::numbers::decimal_text;
use crate::protocol::{CHUNK_SIZE, DEFAULT_PORT};
use crate::table::Table;
use crate::text;

verus! {

/// The name of the configuration file.
pub const DEFAULT_CONFIG_FILE: &'static str = "crossbag.toml";

/// The whole configuration.
pub struct CrossBagConfig {
    pub node: NodeConfig,
    pub network: NetworkConfig,
    pub easytier: EasytierConfig,
    pub sync_pairs: Vec<SyncPair>,
    pub advanced: AdvancedConfig,
}

/// The node itself.
#[derive(Debug, Clone)]
pub struct NodeConfig {
    pub node_id: NodeId,
    pub name: String,
    pub listen_addr: String,
    pub port: u16,
}

/// The other nodes and how long to wait for them.
pub struct NetworkConfig {
    /// The peers, by their identifiers.
    pub peers: Table<PeerConfig>,
    /// Seconds.
    pub connect_timeout: u64,
    /// Seconds.
    pub heartbeat_interval: u64,
    /// Seconds.
    pub transfer_timeout: u64,
}

/// Another node.
#[derive(Debug, Clone)]
pub struct PeerConfig {
    pub name: String,
    /// Virtual address and port.
    pub address: String,
}

/// The virtual network's process.
#[derive(Debug, Clone)]
pub struct EasytierConfig {
    /// A path, or a name to be searched for; empty is the usual name.
    pub binary_path: String,
    /// The same on all nodes.
    pub network_name: String,
    /// The same on all nodes.
    pub network_secret: String,
    pub instance_name: String,
    pub listeners: Vec<String>,
    pub auto_start: bool,
    /// Seconds.
    pub health_check_interval: u64,
    /// How often the process is started again at most; 0 is no limit.
    pub max_restarts: u32,
    /// Seconds.
    pub startup_timeout: u64,
}

/// Two directories to be kept in step.
#[derive(Debug, Clone)]
pub struct SyncPair {
    pub id: String,
    pub local_path: String,
    /// A key of the peers.
    pub remote_node: String,
    pub remote_path: String,
    pub direction: SyncDirection,
    /// Glob patterns.
    pub exclude_patterns: Vec<String>,
    pub enabled: bool,
    pub watch: bool,
    /// Seconds; 0 is never.
    pub full_sync_interval: u64,
}

/// Which way files go.
#[derive(Debug, Clone, Copy, PartialEq, Eq, Structural)]
pub enum SyncDirection {
    /// Both ways.
    Bidirectional,
    /// From here to there only.
    PushOnly,
    /// From there to here only.
    PullOnly,
}

/// What is seldom changed.
#[derive(Debug, Clone)]
pub struct AdvancedConfig {
    pub hash_algorithm: String,
    /// Bytes.
    pub chunk_size: usize,
    pub max_concurrent_transfers: usize,
    pub log_level: String,
    pub metadata_dir: Option<String>,
}

/// What is wrong with a configuration.
#[derive(Debug, Clone)]
pub enum ConfigError {
    NoPeers,
    /// Nothing stands at the local path of the pair.
    LocalPathMissing { pair_id: String, local_path: String },
    /// The remote node of the pair is no peer.
    UnknownRemote { remote_node: String, pair_id: String },
    /// There is a pair of this name.
    DuplicatePair(String),
    /// The remote node of a new pair is no peer.
    RemoteNotFound(String),
}

impl Default for SyncDirection {
    fn default() -> (res: SyncDirection)
        ensures
            res == SyncDirection::Bidirectional,
    {
        SyncDirection::Bidirectional
    }
}

/// `hostname::get`: the name of the machine, with what is no UTF-8 replaced.
/// Nothing is promised: the machine decides.
#[verifier::external_body]
pub(crate) fn host_name() -> (res: Option<String>) {
    hostname::get().ok().map(|h| h.to_string_lossy().to_string())
}

/// The name of a node on a machine of this name.
pub fn node_name(host: Option<String>) -> (res: String)
    ensures
        res@ == match host {
            Some(h) => h@,
            None => "crossbag-node"@,
        },
{
    match host {
        Some(h) => h,
        None => "crossbag-node".to_owned(),
    }
}

/// The name of a node that was given none: that of its machine, which may be any
/// text.
fn default_node_name() -> (res: String) {
    node_name(host_name())
}

impl EasytierConfig {
    /// The defaults for an instance of this name.
    pub fn for_instance(instance_name: String) -> (res: EasytierConfig)
        ensures
            easytier_defaults(res),
            res.instance_name == instance_name,
    {
        let mut listeners: Vec<String> = Vec::new();
        listeners.push("tcp://0.0.0.0:11010".to_owned());
        listeners.push("udp://0.0.0.0:11010".to_owned());
        assert(text::texts(listeners@) =~= seq!["tcp://0.0.0.0:11010"@, "udp://0.0.0.0:11010"@]);
        EasytierConfig {
            binary_path: "easytier-core".to_owned(),
            network_name: "crossbag-network".to_owned(),
            network_secret: String::new(),
            instance_name,
            listeners,
            auto_start: true,
            health_check_interval: 10,
            max_restarts: 5,
            startup_timeout: 30,
        }
    }
}

/// All but the name of the instance is at its default.
pub open spec fn easytier_defaults(c: EasytierConfig) -> bool {
    &&& c.binary_path@ == "easytier-core"@
    &&& c.network_name@ == "crossbag-network"@
    &&& c.network_secret@ == Seq::<char>::empty()
    &&& text::texts(c.listeners@) == seq!["tcp://0.0.0.0:11010"@, "udp://0.0.0.0:11010"@]
    &&& c.auto_start
    &&& c.health_check_interval == 10
    &&& c.max_restarts == 5
    &&& c.startup_timeout == 30
}

impl Default for EasytierConfig {
    fn default() -> (res: EasytierConfig)
        ensures
            easytier_defaults(res),
    {
        EasytierConfig::for_instance(default_node_name())
    }
}

impl Default for AdvancedConfig {
    fn default() -> (res: AdvancedConfig)
        ensures
            advanced_defaults(res),
    {
        AdvancedConfig {
            hash_algorithm: "blake3".to_owned(),
            chunk_size: CHUNK_SIZE,
            max_concurrent_transfers: 4,
            log_level: "info".to_owned(),
            metadata_dir: None,
        }
    }
}

pub open spec fn advanced_defaults(c: AdvancedConfig) -> bool {
    &&& c.hash_algorithm@ == "blake3"@
    &&& c.chunk_size == CHUNK_SIZE
    &&& c.max_concurrent_transfers == 4
    &&& c.log_level@ == "info"@
    &&& c.metadata_dir is None
}

/// All but the identifier and the names is at its default.
pub open spec fn config_defaults(c: CrossBagConfig) -> bool {
    &&& c.node.listen_addr@ == "0.0.0.0"@
    &&& c.node.port == DEFAULT_PORT
    &&& c.network.peers@ == Map::<Seq<char>, PeerConfig>::empty()
    &&& c.network.peers.keys() == Seq::<Seq<char>>::empty()
    &&& c.network.connect_timeout == 30
    &&& c.network.heartbeat_interval == 10
    &&& c.network.transfer_timeout == 300
    &&& c.sync_pairs@ == Seq::<SyncPair>::empty()
    &&& easytier_defaults(c.easytier)
    &&& advanced_defaults(c.advanced)
}

/// The pair `i` is sound: something stands at its local path, and its remote
/// node is a peer.
pub open spec fn pair_sound(c: CrossBagConfig, present: Seq<bool>, i: int) -> bool {
    present[i] && c.network.peers@.contains_key(c.sync_pairs@[i].remote_node@)
}

/// The pair `i` is the first that is not sound.
pub open spec fn first_unsound(c: CrossBagConfig, present: Seq<bool>, i: int) -> bool {
    &&& 0 <= i < c.sync_pairs@.len()
    &&& !pair_sound(c, present, i)
    &&& forall|j: int| 0 <= j < i ==> pair_sound(c, present, j)
}

/// The pair `i` is the first of the name `id`.
pub open spec fn first_pair(pairs: Seq<SyncPair>, id: Seq<char>, i: int) -> bool {
    &&& 0 <= i < pairs.len()
    &&& pairs[i].id@ == id
    &&& forall|j: int| 0 <= j < i ==> (#[trigger] pairs[j]).id@ != id
}

/// There is a pair of the name `id`.
pub open spec fn has_pair(pairs: Seq<SyncPair>, id: Seq<char>) -> bool {
    exists|i: int| 0 <= i < pairs.len() && (#[trigger] pairs[i]).id@ == id
}

/// The places of the pairs that `f` picks, in order.
pub open spec fn places(pairs: Seq<SyncPair>, f: spec_fn(SyncPair) -> bool) -> Seq<usize>
    decreases pairs.len(),
{
    if pairs.len() == 0 {
        Seq::empty()
    } else {
        let head = places(pairs.drop_last(), f);
        if f(pairs.last()) {
            head.push((pairs.len() - 1) as usize)
        } else {
            head
        }
    }
}

/// The places are places of pairs.
pub proof fn lemma_places(pairs: Seq<SyncPair>, f: spec_fn(SyncPair) -> bool)
    requires
        pairs.len() <= usize::MAX,
    ensures
        forall|k: int|
            0 <= k < places(pairs, f).len() ==> (#[trigger] places(pairs, f)[k]) < pairs.len(),
    decreases pairs.len(),
{
    if pairs.len() > 0 {
        let head = places(pairs.drop_last(), f);
        lemma_places(pairs.drop_last(), f);
        assert forall|k: int| 0 <= k < places(pairs, f).len() implies (#[trigger] places(
            pairs,
            f,
        )[k]) < pairs.len() by {
            if k < head.len() {
                assert(places(pairs, f)[k] == head[k]);
            }
        }
    }
}

/// The pair is the one that was asked for, if one was.
pub open spec fn asked_for(only: Option<Seq<char>>) -> spec_fn(SyncPair) -> bool {
    |p: SyncPair| only matches Some(id) ==> p.id@ == id
}

/// The pair is watched, and is the one that was asked for, if one was.
pub open spec fn watched(only: Option<Seq<char>>) -> spec_fn(SyncPair) -> bool {
    |p: SyncPair| p.watch && p.enabled && (only matches Some(id) ==> p.id@ == id)
}

/// The pair is synchronised again and again.
pub open spec fn periodic() -> spec_fn(SyncPair) -> bool {
    |p: SyncPair| p.enabled && p.full_sync_interval > 0
}

impl CrossBagConfig {
    /// The default configuration of a node with this identifier and these names.
    pub fn for_node(node_id: NodeId, name: String, instance_name: String) -> (res: CrossBagConfig)
        ensures
            config_defaults(res),
            res.node.node_id == node_id,
            res.node.name == name,
            res.easytier.instance_name == instance_name,
    {
        CrossBagConfig {
            node: NodeConfig {
                node_id,
                name,
                listen_addr: "0.0.0.0".to_owned(),
                port: DEFAULT_PORT,
            },
            network: NetworkConfig {
                peers: Table::new(),
                connect_timeout: 30,
                heartbeat_interval: 10,
                transfer_timeout: 300,
            },
            sync_pairs: Vec::new(),
            easytier: EasytierConfig::for_instance(instance_name),
            advanced: AdvancedConfig::default(),
        }
    }

    /// The default configuration of a new node.
    pub fn default_config() -> (res: CrossBagConfig)
        ensures
            config_defaults(res),
            identity::is_random_id(res.node.node_id@),
    {
        CrossBagConfig::for_node(NodeId::new_v4(), default_node_name(), default_node_name())
    }

    /// Whether the configuration can be used. `present` says of each pair
    /// whether something stands at its local path.
    pub fn validate(&self, present: &Vec<bool>) -> (res: Result<(), ConfigError>)
        requires
            present@.len() == self.sync_pairs@.len(),
        ensures
            res is Ok == (self.network.peers@ != Map::<Seq<char>, PeerConfig>::empty() && forall|
                i: int,
            |
                0 <= i < self.sync_pairs@.len() ==> pair_sound(*self, present@, i)),
            res is Ok ==> forall|i: int|
                0 <= i < self.sync_pairs@.len() ==> present@[i]
                    && self.network.peers@.contains_key(
                    (#[trigger] self.sync_pairs@[i]).remote_node@,
                ),
            res matches Err(e) ==> match e {
                ConfigError::NoPeers => self.network.peers@ == Map::<
                    Seq<char>,
                    PeerConfig,
                >::empty(),
                ConfigError::LocalPathMissing { pair_id, local_path } => self.network.peers@ != Map::<
                    Seq<char>,
                    PeerConfig,
                >::empty() && exists|i: int|
                    #![trigger self.sync_pairs@[i]]
                    first_unsound(*self, present@, i) && !present@[i] && pair_id@
                        == self.sync_pairs@[i].id@ && local_path@
                        == self.sync_pairs@[i].local_path@,
                ConfigError::UnknownRemote { remote_node, pair_id } => self.network.peers@ != Map::<
                    Seq<char>,
                    PeerConfig,
                >::empty() && exists|i: int|
                    #![trigger self.sync_pairs@[i]]
                    first_unsound(*self, present@, i) && present@[i] && pair_id@
                        == self.sync_pairs@[i].id@ && remote_node@
                        == self.sync_pairs@[i].remote_node@,
                _ => false,
            },
    {
        if self.network.peers.is_empty() {
            return Err(ConfigError::NoPeers);
        }
        let mut i: usize = 0;
        while i < self.sync_pairs.len()
            invariant
                i <= self.sync_pairs@.len(),
                present@.len() == self.sync_pairs@.len(),
                self.network.peers@ != Map::<Seq<char>, PeerConfig>::empty(),
                forall|j: int| 0 <= j < i ==> pair_sound(*self, present@, j),
            decreases self.sync_pairs@.len() - i,
        {
            let pair = &self.sync_pairs[i];
            if !present[i] {
                assert(first_unsound(*self, present@, i as int));
                return Err(
                    ConfigError::LocalPathMissing {
                        pair_id: pair.id.clone(),
                        local_path: pair.local_path.clone(),
                    },
                );
            }
            if !self.network.peers.contains_key(&pair.remote_node) {
                assert(first_unsound(*self, present@, i as int));
                return Err(
                    ConfigError::UnknownRemote {
                        remote_node: pair.remote_node.clone(),
                        pair_id: pair.id.clone(),
                    },
                );
            }
            i += 1;
        }
        assert forall|j: int| 0 <= j < self.sync_pairs@.len() implies present@[j]
            && self.network.peers@.contains_key(
            (#[trigger] self.sync_pairs@[j]).remote_node@,
        ) by {
            assert(pair_sound(*self, present@, j));
        }
        Ok(())
    }

    /// The place of the first pair of the name `id`.
    pub fn find_pair(&self, id: &str) -> (res: Option<usize>)
        ensures
            match res {
                Some(i) => first_pair(self.sync_pairs@, id@, i as int),
                None => !has_pair(self.sync_pairs@, id@),
            },
    {
        let wanted = id.to_owned();
        let mut i: usize = 0;
        while i < self.sync_pairs.len()
            invariant
                i <= self.sync_pairs@.len(),
                wanted@ == id@,
                forall|j: int| 0 <= j < i ==> (#[trigger] self.sync_pairs@[j]).id@ != id@,
            decreases self.sync_pairs@.len() - i,
        {
            if self.sync_pairs[i].id == wanted {
                return Some(i);
            }
            i += 1;
        }
        None
    }

    /// Adds a pair of directories. A pair of that name must not be there, and
    /// the remote node must be a peer.
    pub fn add_pair(
        &mut self,
        id: String,
        local_path: String,
        remote_node: String,
        remote_path: String,
    ) -> (res: Result<(), ConfigError>)
        ensures
            res is Ok == (!has_pair(old(self).sync_pairs@, id@)
                && old(self).network.peers@.contains_key(remote_node@)),
            res is Ok ==> final(self).sync_pairs@.len() == old(self).sync_pairs@.len() + 1
                && final(self).sync_pairs@.drop_last() == old(self).sync_pairs@ && new_pair(
                final(self).sync_pairs@.last(),
                id@,
                local_path@,
                remote_node@,
                remote_path@,
            ),
            res matches Err(e) ==> match e {
                ConfigError::DuplicatePair(name) => has_pair(old(self).sync_pairs@, id@) && name@
                    == id@,
                ConfigError::RemoteNotFound(name) => !has_pair(old(self).sync_pairs@, id@)
                    && name@ == remote_node@,
                _ => false,
            },
            res is Err ==> final(self).sync_pairs == old(self).sync_pairs,
            final(self).node == old(self).node,
            final(self).network == old(self).network,
            final(self).easytier == old(self).easytier,
            final(self).advanced == old(self).advanced,
    {
        if self.find_pair(&id).is_some() {
            return Err(ConfigError::DuplicatePair(id));
        }
        if !self.network.peers.contains_key(&remote_node) {
            return Err(ConfigError::RemoteNotFound(remote_node));
        }
        let pair = SyncPair {
            id,
            local_path,
            remote_node,
            remote_path,
            direction: SyncDirection::Bidirectional,
            exclude_patterns: Vec::new(),
            enabled: true,
            watch: true,
            full_sync_interval: 300,
        };
        self.sync_pairs.push(pair);
        assert(self.sync_pairs@.drop_last() =~= old(self).sync_pairs@);
        Ok(())
    }

    /// Gives a peer its name and address, in place of those that it had.
    pub fn put_peer(&mut self, peer_id: String, name: String, address: String)
        ensures
            final(self).network.peers@ == old(self).network.peers@.insert(
                peer_id@,
                PeerConfig { name, address },
            ),
            final(self).network.peers.keys() == if old(self).network.peers@.contains_key(peer_id@) {
                old(self).network.peers.keys()
            } else {
                old(self).network.peers.keys().push(peer_id@)
            },
            final(self).network.connect_timeout == old(self).network.connect_timeout,
            final(self).network.heartbeat_interval == old(self).network.heartbeat_interval,
            final(self).network.transfer_timeout == old(self).network.transfer_timeout,
            final(self).node == old(self).node,
            final(self).easytier == old(self).easytier,
            final(self).sync_pairs == old(self).sync_pairs,
            final(self).advanced == old(self).advanced,
    {
        self.network.peers.insert(peer_id, PeerConfig { name, address });
    }

    /// The places of the pairs to work on: the one asked for, or all.
    pub fn select_pairs(&self, only: &Option<String>) -> (res: Vec<usize>)
        ensures
            res@ == places(self.sync_pairs@, asked_for(text::option_text(*only))),
    {
        let ghost f = asked_for(text::option_text(*only));
        let mut res: Vec<usize> = Vec::new();
        let mut i: usize = 0;
        assert(self.sync_pairs@.take(0).len() == 0);
        while i < self.sync_pairs.len()
            invariant
                i <= self.sync_pairs@.len(),
                f == asked_for(text::option_text(*only)),
                res@ == places(self.sync_pairs@.take(i as int), f),
            decreases self.sync_pairs@.len() - i,
        {
            proof {
                assert(self.sync_pairs@.take(i + 1).drop_last() =~= self.sync_pairs@.take(
                    i as int,
                ));
            }
            let picked = match only {
                Some(id) => self.sync_pairs[i].id == *id,
                None => true,
            };
            if picked {
                res.push(i);
            }
            i += 1;
        }
        assert(self.sync_pairs@.take(i as int) =~= self.sync_pairs@);
        res
    }

    /// The places of the pairs whose directories are watched, or only the one
    /// asked for.
    pub fn watched_pairs(&self, only: &Option<String>) -> (res: Vec<usize>)
        ensures
            res@ == places(self.sync_pairs@, watched(text::option_text(*only))),
    {
        let ghost f = watched(text::option_text(*only));
        let mut res: Vec<usize> = Vec::new();
        let mut i: usize = 0;
        assert(self.sync_pairs@.take(0).len() == 0);
        while i < self.sync_pairs.len()
            invariant
                i <= self.sync_pairs@.len(),
                f == watched(text::option_text(*only)),
                res@ == places(self.sync_pairs@.take(i as int), f),
            decreases self.sync_pairs@.len() - i,
        {
            proof {
                assert(self.sync_pairs@.take(i + 1).drop_last() =~= self.sync_pairs@.take(
                    i as int,
                ));
            }
            let pair = &self.sync_pairs[i];
            let picked = match only {
                Some(id) => pair.id == *id,
                None => true,
            };
            if pair.watch && pair.enabled && picked {
                res.push(i);
            }
            i += 1;
        }
        assert(self.sync_pairs@.take(i as int) =~= self.sync_pairs@);
        res
    }

    /// The places of the pairs that are synchronised again and again.
    pub fn periodic_pairs(&self) -> (res: Vec<usize>)
        ensures
            res@ == places(self.sync_pairs@, periodic()),
    {
        let mut res: Vec<usize> = Vec::new();
        let mut i: usize = 0;
        assert(self.sync_pairs@.take(0).len() == 0);
        while i < self.sync_pairs.len()
            invariant
                i <= self.sync_pairs@.len(),
                res@ == places(self.sync_pairs@.take(i as int), periodic()),
            decreases self.sync_pairs@.len() - i,
        {
            proof {
                assert(self.sync_pairs@.take(i + 1).drop_last() =~= self.sync_pairs@.take(
                    i as int,
                ));
            }
            let pair = &self.sync_pairs[i];
            if pair.enabled && pair.full_sync_interval > 0 {
                res.push(i);
            }
            i += 1;
        }
        assert(self.sync_pairs@.take(i as int) =~= self.sync_pairs@);
        res
    }

    /// Where the node listens: address and port.
    pub fn listen_text(&self) -> (res: String)
        ensures
            res@ == address_text(self.node.listen_addr@, self.node.port),
    {
        let mut res = self.node.listen_addr.clone();
        res.push(':');
        res.append(&decimal_text(self.node.port as u64));
        assert(res@ =~= address_text(self.node.listen_addr@, self.node.port));
        res
    }
}

/// An address and a port, with a colon between them.
pub open spec fn address_text(host: Seq<char>, port: u16) -> Seq<char> {
    host + seq![':'] + numbers::decimal(port as nat)
}

/// A pair as it is added.
pub open spec fn new_pair(
    p: SyncPair,
    id: Seq<char>,
    local_path: Seq<char>,
    remote_node: Seq<char>,
    remote_path: Seq<char>,
) -> bool {
    &&& p.id@ == id
    &&& p.local_path@ == local_path
    &&& p.remote_node@ == remote_node
    &&& p.remote_path@ == remote_path
    &&& p.direction == SyncDirection::Bidirectional
    &&& p.exclude_patterns@ == Seq::<String>::empty()
    &&& p.enabled
    &&& p.watch
    &&& p.full_sync_interval == 300
}

impl ConfigError {
    /// The error in words.
    pub fn text(&self) -> (res: String)
        ensures
            res@ == match *self {
                ConfigError::NoPeers => "At least one peer must be configured"@,
                ConfigError::LocalPathMissing { pair_id, local_path } =>
                    "Local path does not exist for sync pair '"@ + pair_id@ + "': "@
                        + text::debug_text(local_path@),
                ConfigError::UnknownRemote { remote_node, pair_id } => "Remote node '"@
                    + remote_node@ + "' not found in peers for sync pair '"@ + pair_id@ + "'"@,
                ConfigError::DuplicatePair(id) => "Sync pair '"@ + id@ + "' already exists"@,
                ConfigError::RemoteNotFound(name) => "Remote node '"@ + name@
                    + "' not found in peers. Add it first."@,
            },
    {
        match self {
            ConfigError::NoPeers => "At least one peer must be configured".to_owned(),
            ConfigError::LocalPathMissing { pair_id, local_path } => {
                let mut res = "Local path does not exist for sync pair '".to_owned();
                res.append(pair_id);
                res.append("': ");
                res.append(&text::quoted(local_path));
                res
            },
            ConfigError::UnknownRemote { remote_node, pair_id } => {
                let mut res = "Remote node '".to_owned();
                res.append(remote_node);
                res.append("' not found in peers for sync pair '");
                res.append(pair_id);
                res.append("'");
                res
            },
            ConfigError::DuplicatePair(id) => {
                let mut res = "Sync pair '".to_owned();
                res.append(id);
                res.append("' already exists");
                res
            },
            ConfigError::RemoteNotFound(name) => {
                let mut res = "Remote node '".to_owned();
                res.append(name);
                res.append("' not found in peers. Add it first.");
                res
            },
        }
    }
}

/// The systems that differ in where things stand.
#[derive(Debug, Clone, Copy, PartialEq, Eq, Structural)]
pub enum Platform {
    Linux,
    MacOs,
    Windows,
    Other,
}

/// A path: where it starts, and the steps below.
#[derive(Debug, Clone)]
pub struct Place {
    pub base: String,
    pub steps: Vec<String>,
}

/// What the environment says of directories. On Windows `home` is not asked;
/// elsewhere `app_data` is not.
#[derive(Debug, Clone)]
pub struct Surroundings {
    pub platform: Platform,
    pub xdg_config_home: Option<String>,
    pub home: Option<String>,
    pub app_data: Option<String>,
}

/// The base and the steps of a place.
pub open spec fn place_view(p: Place) -> (Seq<char>, Seq<Seq<char>>) {
    (p.base@, text::texts(p.steps@))
}

/// The directory of the configuration: on Linux `crossbag` below
/// `$XDG_CONFIG_HOME`, or `.config/crossbag` at home; on macOS and on Windows that of the
/// application. Elsewhere, and where the environment does not say, none.
pub open spec fn config_dir(s: Surroundings) -> Option<(Seq<char>, Seq<Seq<char>>)> {
    match s.platform {
        Platform::Linux => match s.xdg_config_home {
            Some(dir) => Some((dir@, seq!["crossbag"@])),
            None => match s.home {
                Some(home) => Some((home@, seq![".config"@, "crossbag"@])),
                None => None,
            },
        },
        Platform::MacOs => match s.home {
            Some(home) => Some((home@, seq!["Library"@, "Application Support"@, "crossbag"@])),
            None => None,
        },
        Platform::Windows => match s.app_data {
            Some(dir) => Some((dir@, seq!["crossbag"@])),
            None => None,
        },
        Platform::Other => None,
    }
}

/// The directory of the configuration, or the current one.
pub open spec fn config_home(s: Surroundings) -> (Seq<char>, Seq<Seq<char>>) {
    match config_dir(s) {
        Some(p) => p,
        None => ("."@, Seq::empty()),
    }
}

fn config_home_of(s: &Surroundings) -> (res: Place)
    ensures
        place_view(res) == config_home(*s),
{
    let mut steps: Vec<String> = Vec::new();
    let base: Option<String> = match s.platform {
        Platform::Linux => match &s.xdg_config_home {
            Some(dir) => {
                steps.push("crossbag".to_owned());
                Some(dir.clone())
            },
            None => match &s.home {
                Some(home) => {
                    steps.push(".config".to_owned());
                    steps.push("crossbag".to_owned());
                    Some(home.clone())
                },
                None => None,
            },
        },
        Platform::MacOs => match &s.home {
            Some(home) => {
                steps.push("Library".to_owned());
                steps.push("Application Support".to_owned());
                steps.push("crossbag".to_owned());
                Some(home.clone())
            },
            None => None,
        },
        Platform::Windows => match &s.app_data {
            Some(dir) => {
                steps.push("crossbag".to_owned());
                Some(dir.clone())
            },
            None => None,
        },
        Platform::Other => None,
    };
    let res = Place {
        base: match base {
            Some(b) => b,
            None => ".".to_owned(),
        },
        steps,
    };
    assert(text::texts(res.steps@) =~= config_home(*s).1);
    res
}

impl CrossBagConfig {
    /// Where the configuration file stands by default.
    pub fn default_path(s: &Surroundings) -> (res: Place)
        ensures
            place_view(res) == (
                config_home(*s).0,
                config_home(*s).1.push(DEFAULT_CONFIG_FILE@),
            ),
    {
        let mut res = config_home_of(s);
        let ghost before = text::texts(res.steps@);
        res.steps.push(DEFAULT_CONFIG_FILE.to_owned());
        assert(text::texts(res.steps@) =~= before.push(DEFAULT_CONFIG_FILE@));
        res
    }
}

/// Which configuration file is read.
#[derive(Debug, Clone)]
pub enum ConfigChoice {
    /// The one that was asked for.
    Given(String),
    /// The one in the current directory.
    CurrentDir,
    /// The one in its default place.
    DefaultPlace,
}

/// The configuration file to read: the one that was asked for, if it is there;
/// else the one in the current directory, if it is there; else the one in its
/// default place.
pub fn find_config_path(given: Option<String>, given_exists: bool, here_exists: bool) -> (res:
    ConfigChoice)
    ensures
        match res {
            ConfigChoice::Given(p) => given_exists && text::option_text(given) == Some(p@),
            ConfigChoice::CurrentDir => (given is None || !given_exists) && here_exists,
            ConfigChoice::DefaultPlace => (given is None || !given_exists) && !here_exists,
        },
{
    match given {
        Some(path) => if given_exists {
            return ConfigChoice::Given(path);
        },
        None => {},
    }
    if here_exists {
        ConfigChoice::CurrentDir
    } else {
        ConfigChoice::DefaultPlace
    }
}

/// The places stand in order, and are those of the pairs that `f` picks.
pub proof fn lemma_picked(pairs: Seq<SyncPair>, f: spec_fn(SyncPair) -> bool)
    requires
        pairs.len() <= usize::MAX,
    ensures
        forall|i: usize|
            places(pairs, f).contains(i) <==> i < pairs.len() && f(#[trigger] pairs[i as int]),
        forall|j: int, k: int|
            0 <= j < k < places(pairs, f).len() ==> places(pairs, f)[j] < places(pairs, f)[k],
    decreases pairs.len(),
{
    if pairs.len() > 0 {
        let short = pairs.drop_last();
        let head = places(short, f);
        let all = places(pairs, f);
        let n = (pairs.len() - 1) as usize;
        lemma_picked(short, f);
        lemma_places(short, f);
        assert forall|i: usize| all.contains(i) <==> i < pairs.len() && f(
            #[trigger] pairs[i as int],
        ) by {
            if i < n {
                assert(short[i as int] == pairs[i as int]);
            }
            if all.contains(i) {
                let k = choose|k: int| 0 <= k < all.len() && all[k] == i;
                if k < head.len() {
                    assert(head[k] == i);
                    assert(head.contains(i));
                }
            }
            if head.contains(i) {
                let k = choose|k: int| 0 <= k < head.len() && head[k] == i;
                assert(all[k] == i);
            }
            if i == n && f(pairs.last()) {
                assert(all[head.len() as int] == i);
            }
        }
        assert forall|j: int, k: int| 0 <= j < k < all.len() implies all[j] < all[k] by {
            assert(all[j] == head[j]);
            if k < head.len() {
                assert(all[k] == head[k]);
            }
        }
    }
}

/// All pairs are worked on, or only those of the name that was asked for, in the
/// order of the configuration.
pub proof fn named_pairs_are_selected(
    c: &CrossBagConfig,
    only: &Option<String>,
    res: Vec<usize>,
    i: usize,
)
    requires
        call_ensures(CrossBagConfig::select_pairs, (c, only), res),
    ensures
        res@.contains(i) == (i < c.sync_pairs@.len() && match *only {
            Some(id) => c.sync_pairs@[i as int].id@ == id@,
            None => true,
        }),
        forall|j: int, k: int| 0 <= j < k < res@.len() ==> res@[j] < res@[k],
{
    assert(c.sync_pairs.len() <= usize::MAX);
    lemma_picked(c.sync_pairs@, asked_for(text::option_text(*only)));
}

/// A pair is watched if it is enabled and to be watched, and no other was asked
/// for.
pub proof fn enabled_pairs_are_watched(
    c: &CrossBagConfig,
    only: &Option<String>,
    res: Vec<usize>,
    i: usize,
)
    requires
        call_ensures(CrossBagConfig::watched_pairs, (c, only), res),
    ensures
        res@.contains(i) == (i < c.sync_pairs@.len() && c.sync_pairs@[i as int].watch
            && c.sync_pairs@[i as int].enabled && match *only {
            Some(id) => c.sync_pairs@[i as int].id@ == id@,
            None => true,
        }),
        forall|j: int, k: int| 0 <= j < k < res@.len() ==> res@[j] < res@[k],
{
    assert(c.sync_pairs.len() <= usize::MAX);
    lemma_picked(c.sync_pairs@, watched(text::option_text(*only)));
}

/// A pair is synchronised again and again if it is enabled and has an interval.
pub proof fn intervals_make_pairs_periodic(c: &CrossBagConfig, res: Vec<usize>, i: usize)
    requires
        call_ensures(CrossBagConfig::periodic_pairs, (c,), res),
    ensures
        res@.contains(i) == (i < c.sync_pairs@.len() && c.sync_pairs@[i as int].enabled
            && c.sync_pairs@[i as int].full_sync_interval != 0),
        forall|j: int, k: int| 0 <= j < k < res@.len() ==> res@[j] < res@[k],
{
    assert(c.sync_pairs.len() <= usize::MAX);
    lemma_picked(c.sync_pairs@, periodic());
}

/// A configuration can be used if it has a peer, something stands at the local
/// path of each pair, and the remote node of each is a peer.
pub proof fn sound_configurations_pass(
    c: &CrossBagConfig,
    present: &Vec<bool>,
    res: Result<(), ConfigError>,
)
    requires
        present@.len() == c.sync_pairs@.len(),
        call_ensures(CrossBagConfig::validate, (c, present), res),
    ensures
        res is Ok <==> {
            &&& exists|p: Seq<char>| #[trigger] c.network.peers@.contains_key(p)
            &&& forall|i: int| 0 <= i < present@.len() ==> #[trigger] present@[i]
            &&& forall|i: int|
                0 <= i < c.sync_pairs@.len() ==> c.network.peers@.contains_key(
                    (#[trigger] c.sync_pairs@[i]).remote_node@,
                )
        },
{
    let peers = c.network.peers@;
    if forall|p: Seq<char>| !#[trigger] peers.contains_key(p) {
        assert(peers =~= Map::<Seq<char>, PeerConfig>::empty());
    }
    if res is Ok {
        assert forall|i: int| 0 <= i < present@.len() implies #[trigger] present@[i] by {
            let p = c.sync_pairs@[i];
            assert(peers.contains_key(p.remote_node@));
        }
    } else if (exists|p: Seq<char>| #[trigger] peers.contains_key(p)) && (forall|i: int|
        0 <= i < present@.len() ==> #[trigger] present@[i]) && (forall|i: int|
        0 <= i < c.sync_pairs@.len() ==> peers.contains_key(
            (#[trigger] c.sync_pairs@[i]).remote_node@,
        )) {
        assert forall|i: int| 0 <= i < c.sync_pairs@.len() implies pair_sound(*c, present@, i) by {
            assert(present@[i]);
            assert(peers.contains_key(c.sync_pairs@[i].remote_node@));
        }
    }
}

/// What is reported of a configuration that cannot be used is so: of the pair
/// that is named the path is missing, or the remote node is no peer; and all is
/// well with the pairs before it.
pub proof fn the_first_fault_is_reported(
    c: &CrossBagConfig,
    present: &Vec<bool>,
    e: ConfigError,
)
    requires
        present@.len() == c.sync_pairs@.len(),
        call_ensures(CrossBagConfig::validate, (c, present), Err(e)),
    ensures
        e is NoPeers <==> forall|p: Seq<char>| !#[trigger] c.network.peers@.contains_key(p),
        e is NoPeers || exists|i: int|
            {
                &&& 0 <= i < c.sync_pairs@.len()
                &&& forall|j: int|
                    0 <= j < i ==> present@[j] && c.network.peers@.contains_key(
                        (#[trigger] c.sync_pairs@[j]).remote_node@,
                    )
                &&& ((e matches ConfigError::LocalPathMissing { pair_id, local_path } && !present@[i]
                    && pair_id@ == c.sync_pairs@[i].id@ && local_path@
                    == c.sync_pairs@[i].local_path@) || (e matches ConfigError::UnknownRemote {
                    remote_node,
                    pair_id,
                } && present@[i] && !c.network.peers@.contains_key(remote_node@) && pair_id@
                    == c.sync_pairs@[i].id@ && remote_node@
                    == (#[trigger] c.sync_pairs@[i]).remote_node@))
            },
{
    let peers = c.network.peers@;
    let none = Map::<Seq<char>, PeerConfig>::empty();
    if forall|p: Seq<char>| !#[trigger] peers.contains_key(p) {
        assert(peers =~= none);
    }
    if !(e is NoPeers) {
        assert(peers != none);
        if forall|p: Seq<char>| !#[trigger] peers.contains_key(p) {
            assert(peers =~= none);
        }
        let i = choose|i: int| #![trigger c.sync_pairs@[i]]
            first_unsound(*c, present@, i) && match e {
                ConfigError::LocalPathMissing { pair_id, local_path } => !present@[i] && pair_id@
                    == c.sync_pairs@[i].id@ && local_path@ == c.sync_pairs@[i].local_path@,
                ConfigError::UnknownRemote { remote_node, pair_id } => present@[i] && pair_id@
                    == c.sync_pairs@[i].id@ && remote_node@ == c.sync_pairs@[i].remote_node@,
                _ => false,
            };
        assert forall|j: int| 0 <= j < i implies present@[j] && peers.contains_key(
            (#[trigger] c.sync_pairs@[j]).remote_node@,
        ) by {
            assert(pair_sound(*c, present@, j));
        }
        assert(!pair_sound(*c, present@, i));
        assert(c.sync_pairs@[i].remote_node@ == c.sync_pairs@[i].remote_node@);
    }
}

/// A pair can be found if and only if one has the name, and the first of that
/// name is found.
pub proof fn pairs_are_found_by_name(c: &CrossBagConfig, id: &str, res: Option<usize>)
    requires
        call_ensures(CrossBagConfig::find_pair, (c, id), res),
    ensures
        res is None ==> forall|j: int|
            0 <= j < c.sync_pairs@.len() ==> (#[trigger] c.sync_pairs@[j]).id@ != id@,
        res matches Some(i) ==> i < c.sync_pairs@.len() && c.sync_pairs@[i as int].id@ == id@
            && forall|j: int| 0 <= j < i ==> (#[trigger] c.sync_pairs@[j]).id@ != id@,
{
}

/// A new pair stands behind the others, which stay, with its paths and its node,
/// enabled, watched and in step both ways. It is refused if its name is taken or
/// its node is no peer, and then nothing changes.
pub proof fn new_pairs_are_added_last(
    c: &mut CrossBagConfig,
    id: String,
    local_path: String,
    remote_node: String,
    remote_path: String,
    res: Result<(), ConfigError>,
)
    requires
        call_ensures(
            CrossBagConfig::add_pair,
            (c, id, local_path, remote_node, remote_path),
            res,
        ),
    ensures
        res is Ok <==> old(c).network.peers@.contains_key(remote_node@) && forall|j: int|
            0 <= j < old(c).sync_pairs@.len() ==> (#[trigger] old(c).sync_pairs@[j]).id@ != id@,
        res is Ok ==> {
            let n = old(c).sync_pairs@.len() as int;
            let p = final(c).sync_pairs@[n];
            &&& final(c).sync_pairs@.len() == n + 1
            &&& forall|j: int|
                0 <= j < n ==> #[trigger] final(c).sync_pairs@[j] == old(c).sync_pairs@[j]
            &&& p.id@ == id@
            &&& p.local_path@ == local_path@
            &&& p.remote_node@ == remote_node@
            &&& p.remote_path@ == remote_path@
            &&& p.direction is Bidirectional
            &&& p.exclude_patterns@.len() == 0
            &&& p.enabled && p.watch
            &&& p.full_sync_interval == 300
        },
        res matches Err(e) ==> final(c).sync_pairs == old(c).sync_pairs && match e {
            ConfigError::DuplicatePair(name) => name@ == id@ && exists|j: int|
                0 <= j < old(c).sync_pairs@.len() && (#[trigger] old(c).sync_pairs@[j]).id@ == id@,
            ConfigError::RemoteNotFound(name) => name@ == remote_node@ && !old(
                c,
            ).network.peers@.contains_key(name@),
            _ => false,
        },
        final(c).network == old(c).network && final(c).node == old(c).node,
        final(c).easytier == old(c).easytier && final(c).advanced == old(c).advanced,
{
    if res is Ok {
        let n = old(c).sync_pairs@.len() as int;
        assert forall|j: int| 0 <= j < n implies #[trigger] final(c).sync_pairs@[j] == old(
            c,
        ).sync_pairs@[j] by {
            assert(final(c).sync_pairs@.drop_last()[j] == final(c).sync_pairs@[j]);
        }
    }
}

/// A peer that was put has its name and address; the others keep theirs.
pub proof fn put_peers_stand(
    c: &mut CrossBagConfig,
    peer_id: String,
    name: String,
    address: String,
    other: Seq<char>,
)
    requires
        call_ensures(CrossBagConfig::put_peer, (c, peer_id, name, address), ()),
        other != peer_id@,
    ensures
        final(c).network.peers@.contains_key(peer_id@),
        final(c).network.peers@[peer_id@].name == name,
        final(c).network.peers@[peer_id@].address == address,
        final(c).network.peers@.contains_key(other) == old(c).network.peers@.contains_key(other),
        old(c).network.peers@.contains_key(other) ==> final(c).network.peers@[other] == old(
            c,
        ).network.peers@[other],
        final(c).sync_pairs == old(c).sync_pairs,
{
}

/// The file that was asked for is read if it is there; without it the one of the
/// current directory, if that is there; else the one in its default place.
pub proof fn given_files_come_first(
    given: Option<String>,
    given_exists: bool,
    here_exists: bool,
    res: ConfigChoice,
)
    requires
        call_ensures(find_config_path, (given, given_exists, here_exists), res),
    ensures
        given matches Some(p) ==> (given_exists ==> (res matches ConfigChoice::Given(q) && q@
            == p@)),
        given is None || !given_exists ==> res is CurrentDir == here_exists,
        given is None || !given_exists ==> res is DefaultPlace == !here_exists,
{
}

/// The address to listen at, a colon and the decimal digits of the port are all
/// that stands in the text.
pub proof fn listeners_stand_at_their_port(c: &CrossBagConfig, res: String, digits: String)
    requires
        call_ensures(CrossBagConfig::listen_text, (c,), res),
        call_ensures(decimal_text, (c.node.port as u64,), digits),
    ensures
        ({
            let n = c.node.listen_addr@.len() as int;
            &&& res@.len() == n + 1 + digits@.len()
            &&& res@.take(n) == c.node.listen_addr@
            &&& res@[n] == ':'
            &&& res@.skip(n + 1) == digits@
        }),
{
    let n = c.node.listen_addr@.len() as int;
    assert(res@.take(n) =~= c.node.listen_addr@);
    assert(res@.skip(n + 1) =~= digits@);
}

/// The steps are these, in order.
pub open spec fn steps_are(p: Place, steps: Seq<&str>) -> bool {
    p.steps@.len() == steps.len() && forall|i: int|
        0 <= i < steps.len() ==> (#[trigger] p.steps@[i])@ == steps[i]@
}

/// The configuration file stands where its system keeps such files: on Linux at
/// the place that the environment names for them or else at home, on macOS at
/// home, on Windows with the data of applications; and in the current directory
/// where the environment does not say.
pub proof fn each_system_has_its_place(s: &Surroundings, res: Place)
    requires
        call_ensures(CrossBagConfig::default_path, (s,), res),
    ensures
        s.platform is Linux ==> (s.xdg_config_home matches Some(d) ==> res.base@ == d@
            && steps_are(res, seq!["crossbag", "crossbag.toml"])),
        s.platform is Linux && s.xdg_config_home is None ==> (s.home matches Some(h) ==> res.base@
            == h@ && steps_are(res, seq![".config", "crossbag", "crossbag.toml"])),
        s.platform is MacOs ==> (s.home matches Some(h) ==> res.base@ == h@ && steps_are(
            res,
            seq!["Library", "Application Support", "crossbag", "crossbag.toml"],
        )),
        s.platform is Windows ==> (s.app_data matches Some(d) ==> res.base@ == d@ && steps_are(
            res,
            seq!["crossbag", "crossbag.toml"],
        )),
        s.platform is Other || (s.platform is Windows && s.app_data is None) || (!(
        s.platform is Windows) && s.home is None && (s.platform is Linux ==> s.xdg_config_home is None))
            ==> res.base@ == "."@ && steps_are(res, seq!["crossbag.toml"]),
{
    let t = text::texts(res.steps@);
    assert(t.len() == res.steps@.len());
    assert forall|i: int| 0 <= i < t.len() implies t[i] == (#[trigger] res.steps@[i])@ by {}
}

/// What a new node starts with: it listens on all addresses at port 9527, knows
/// no peer and no pair, and starts the virtual network by itself.
pub proof fn new_nodes_start_with_the_defaults(
    node_id: NodeId,
    name: String,
    instance_name: String,
    c: CrossBagConfig,
    peer: Seq<char>,
)
    requires
        call_ensures(CrossBagConfig::for_node, (node_id, name, instance_name), c),
    ensures
        c.node.node_id.bytes@ == node_id.bytes@ && c.node.name@ == name@,
        c.node.listen_addr@ == "0.0.0.0"@ && c.node.port == 9527,
        !c.network.peers@.contains_key(peer),
        c.network.connect_timeout == 30 && c.network.heartbeat_interval == 10
            && c.network.transfer_timeout == 300,
        c.sync_pairs@.len() == 0,
        c.easytier.binary_path@ == "easytier-core"@ && c.easytier.network_name@
            == "crossbag-network"@ && c.easytier.network_secret@.len() == 0,
        c.easytier.instance_name@ == instance_name@,
        c.easytier.listeners@.len() == 2 && c.easytier.listeners@[0]@ == "tcp://0.0.0.0:11010"@
            && c.easytier.listeners@[1]@ == "udp://0.0.0.0:11010"@,
        c.easytier.auto_start && c.easytier.health_check_interval == 10 && c.easytier.max_restarts
            == 5 && c.easytier.startup_timeout == 30,
        c.advanced.hash_algorithm@ == "blake3"@ && c.advanced.chunk_size == 65536
            && c.advanced.max_concurrent_transfers == 4 && c.advanced.log_level@ == "info"@
            && c.advanced.metadata_dir is None,
{
    let t = text::texts(c.easytier.listeners@);
    assert(t.len() == c.easytier.listeners@.len());
    assert(t[0] == c.easytier.listeners@[0]@ && t[1] == c.easytier.listeners@[1]@);
}

/// A node on a machine with a name bears it.
pub proof fn nodes_bear_the_name_of_the_machine(host: Option<String>, res: String)
    requires
        call_ensures(node_name, (host,), res),
    ensures
        host matches Some(h) ==> res@ == h@,
        host is None ==> res@ == "crossbag-node"@,
{
}

} // verus!
