//! The daemon: what a node does when files change here, or when a peer sends
//! its index or asks for files.

use vstd::prelude::*;

use crate::clock::Timestamp;
use crate::config;
use crate::config::{CrossBagConfig, SyncDirection, SyncPair};
use crate::digest;
use crate::digest::Digest;
use crate::network;
use crate::network::NetworkCommand;
use crate::protocol;
use crate::protocol::{
    FileChunk, FileEntry, FileIndex, FileIndexAck, FileRequest, Message,
};
use crate::scan::Listed;
use crate::state;
use crate::state::SyncState;
use crate::sync;
use crate::sync::{SyncEngine, SyncResult};
use crate::table::Table;
use crate::text;
use crate::watcher;
use crate::watcher::{copy_changes, FileChange};
use std::sync::Arc;

verus! {

/// What the daemon is to act upon.
#[derive(Debug)]
pub enum SyncAction {
    /// Files changed here.
    LocalChange { pair_id: String, changes: Vec<FileChange> },
    /// A peer sent its index.
    RemoteIndex { pair_id: String, peer_id: String, index: FileIndex },
    /// A peer asks for files.
    RemoteFileRequest { pair_id: String, peer_id: String, files: Vec<String> },
    /// It is time for a full synchronisation.
    PeriodicFullSync { pair_id: String },
}

#[verifier::ext_equal]
pub ghost enum SyncActionView {
    LocalChange { pair_id: Seq<char>, changes: Seq<watcher::FileChangeView> },
    RemoteIndex { pair_id: Seq<char>, peer_id: Seq<char>, index: protocol::FileIndexView },
    RemoteFileRequest { pair_id: Seq<char>, peer_id: Seq<char>, files: Seq<Seq<char>> },
    PeriodicFullSync { pair_id: Seq<char> },
}

impl View for SyncAction {
    type V = SyncActionView;

    open spec fn view(&self) -> SyncActionView {
        match *self {
            SyncAction::LocalChange { pair_id, changes } => SyncActionView::LocalChange {
                pair_id: pair_id@,
                changes: watcher::change_views(changes@),
            },
            SyncAction::RemoteIndex { pair_id, peer_id, index } => SyncActionView::RemoteIndex {
                pair_id: pair_id@,
                peer_id: peer_id@,
                index: index@,
            },
            SyncAction::RemoteFileRequest { pair_id, peer_id, files } =>
                SyncActionView::RemoteFileRequest {
                    pair_id: pair_id@,
                    peer_id: peer_id@,
                    files: text::texts(files@),
                },
            SyncAction::PeriodicFullSync { pair_id } => SyncActionView::PeriodicFullSync {
                pair_id: pair_id@,
            },
        }
    }
}

/// Why the daemon could not act.
#[derive(Debug, Clone)]
pub enum DaemonError {
    /// There is no pair of this name.
    PairNotFound(String),
    /// Nothing is remembered of the pair of this name.
    NoState(String),
}

impl DaemonError {
    /// The error in words.
    pub fn text(&self) -> (res: String)
        ensures
            res@ == match *self {
                DaemonError::PairNotFound(id) => "Sync pair '"@ + id@ + "' not found"@,
                DaemonError::NoState(id) => "No state for pair '"@ + id@ + "'"@,
            },
    {
        match self {
            DaemonError::PairNotFound(id) => {
                let mut res = "Sync pair '".to_owned();
                res.append(id);
                res.append("' not found");
                res
            },
            DaemonError::NoState(id) => {
                let mut res = "No state for pair '".to_owned();
                res.append(id);
                res.append("'");
                res
            },
        }
    }
}

/// The relative paths of some entries.
pub open spec fn paths_of(entries: Seq<protocol::FileEntryView>) -> Seq<Seq<char>> {
    entries.map_values(|e: protocol::FileEntryView| e.relative_path)
}

/// A pair of this direction gives files to its peer.
pub open spec fn gives(d: SyncDirection) -> bool {
    d != SyncDirection::PullOnly
}

/// A pair of this direction gets files from its peer.
pub open spec fn gets(d: SyncDirection) -> bool {
    d != SyncDirection::PushOnly
}

/// The list, if `allowed`, else none.
pub open spec fn if_allowed(allowed: bool, paths: Seq<Seq<char>>) -> Seq<Seq<char>> {
    if allowed {
        paths
    } else {
        Seq::empty()
    }
}

/// The answer to an index.
pub open spec fn index_answer(
    pair_id: Seq<char>,
    peer_id: Seq<char>,
    needed: Seq<Seq<char>>,
    offers: Seq<Seq<char>>,
) -> Seq<network::CommandView> {
    let ack = network::CommandView::SendToPeer {
        peer_id,
        message: protocol::MessageView::FileIndexAck(
            protocol::FileIndexAckView { pair_id, needed_files: needed, offered_files: offers },
        ),
    };
    let request = network::CommandView::SendToPeer {
        peer_id,
        message: protocol::MessageView::FileRequest(
            protocol::FileRequestView { pair_id, files: needed },
        ),
    };
    if offers.len() > 0 && needed.len() > 0 {
        seq![ack, request]
    } else if offers.len() > 0 {
        seq![ack]
    } else if needed.len() > 0 {
        seq![request]
    } else {
        Seq::empty()
    }
}

/// Chunk `i` of a file with the chunks `parts`.
pub open spec fn chunk_command(
    peer_id: Seq<char>,
    path: Seq<char>,
    parts: Seq<Seq<u8>>,
    i: int,
) -> network::CommandView {
    network::CommandView::SendToPeer {
        peer_id,
        message: protocol::MessageView::FileChunk(
            protocol::FileChunkView {
                relative_path: path,
                chunk_index: i as u32,
                total_chunks: parts.len() as u32,
                data: parts[i],
                chunk_hash: digest::blake3_digest(parts[i]),
            },
        ),
    }
}

/// The paths of some entries.
fn entry_paths(entries: &Vec<FileEntry>) -> (res: Vec<String>)
    ensures
        text::texts(res@) == paths_of(protocol::entry_views(entries@)),
{
    let mut res: Vec<String> = Vec::new();
    let mut i: usize = 0;
    while i < entries.len()
        invariant
            i <= entries@.len(),
            res@.len() == i,
            forall|k: int| 0 <= k < i ==> #[trigger] res@[k]@ == entries@[k].relative_path@,
        decreases entries@.len() - i,
    {
        res.push(entries[i].relative_path.clone());
        i += 1;
    }
    assert(text::texts(res@) =~= paths_of(protocol::entry_views(entries@)));
    res
}

/// A copy of some texts.
fn copy_texts(v: &Vec<String>) -> (res: Vec<String>)
    ensures
        text::texts(res@) == text::texts(v@),
{
    let mut res: Vec<String> = Vec::new();
    let mut i: usize = 0;
    while i < v.len()
        invariant
            i <= v@.len(),
            res@.len() == i,
            forall|k: int| 0 <= k < i ==> #[trigger] res@[k]@ == v@[k]@,
        decreases v@.len() - i,
    {
        res.push(v[i].clone());
        i += 1;
    }
    assert(text::texts(res@) =~= text::texts(v@));
    res
}

/// The entries of an index by their paths in plain form. Of two entries with
/// one path the later counts.
pub open spec fn keyed(
    keys: Seq<Seq<char>>,
    entries: Seq<protocol::FileEntryView>,
) -> Map<Seq<char>, protocol::FileEntryView>
    decreases entries.len(),
{
    if entries.len() == 0 {
        Map::empty()
    } else {
        keyed(keys.drop_last(), entries.drop_last()).insert(keys.last(), entries.last())
    }
}

/// The entries of an index by their paths in plain form, `keys`.
pub fn index_by_path(keys: &Vec<String>, entries: &Vec<FileEntry>) -> (res: Table<FileEntry>)
    requires
        keys@.len() == entries@.len(),
    ensures
        crate::scan::index_view(res) == keyed(
            text::texts(keys@),
            protocol::entry_views(entries@),
        ),
        res.lists_its_keys(),
{
    let ghost all_keys = text::texts(keys@);
    let ghost all = protocol::entry_views(entries@);
    let mut res: Table<FileEntry> = Table::new();
    let mut i: usize = 0;
    assert(crate::scan::index_view(res) =~= Map::<Seq<char>, protocol::FileEntryView>::empty());
    while i < entries.len()
        invariant
            i <= entries@.len(),
            keys@.len() == entries@.len(),
            all_keys == text::texts(keys@),
            all == protocol::entry_views(entries@),
            crate::scan::index_view(res) == keyed(all_keys.take(i as int), all.take(i as int)),
            res.lists_its_keys(),
        decreases entries@.len() - i,
    {
        let ghost before = crate::scan::index_view(res);
        let entry = entries[i].copy();
        res.insert(keys[i].clone(), entry);
        proof {
            assert(all_keys.take(i + 1).drop_last() =~= all_keys.take(i as int));
            assert(all.take(i + 1).drop_last() =~= all.take(i as int));
            assert(all_keys.take(i + 1).last() == keys@[i as int]@);
            assert(all.take(i + 1).last() == entries@[i as int]@);
            assert(crate::scan::index_view(res) =~= before.insert(keys@[i as int]@, entry@));
        }
        i += 1;
    }
    assert(all_keys.take(i as int) =~= all_keys);
    assert(all.take(i as int) =~= all);
    res
}

proof fn lemma_keyed_from(
    keys: Seq<Seq<char>>,
    entries: Seq<protocol::FileEntryView>,
    key: Seq<char>,
)
    requires
        keys.len() == entries.len(),
        keyed(keys, entries).contains_key(key),
    ensures
        exists|i: int|
            0 <= i < entries.len() && #[trigger] keys[i] == key && keyed(keys, entries)[key]
                == entries[i],
    decreases entries.len(),
{
    if entries.len() > 0 {
        if keys.last() != key {
            let k = keys.drop_last();
            let e = entries.drop_last();
            lemma_keyed_from(k, e, key);
            let i = choose|i: int|
                0 <= i < e.len() && #[trigger] k[i] == key && keyed(k, e)[key] == e[i];
            assert(keys[i] == key);
        } else {
            assert(keys[keys.len() - 1] == key);
        }
    }
}

/// An index that names no path twice still names none twice once its entries
/// stand by their paths.
pub proof fn keyed_paths_stay_distinct(
    index: Table<FileEntry>,
    keys: Seq<Seq<char>>,
    entries: Seq<protocol::FileEntryView>,
)
    requires
        keys.len() == entries.len(),
        index.lists_its_keys(),
        crate::scan::index_view(index) == keyed(keys, entries),
        sync::distinct_paths(entries),
    ensures
        sync::distinct_paths(sync::values(index)),
{
    let own = index.keys();
    let values = sync::values(index);
    assert forall|i: int, j: int| 0 <= i < j < values.len() implies (
    #[trigger] values[i]).relative_path != (#[trigger] values[j]).relative_path by {
        assert(own.contains(own[i]) && own.contains(own[j]));
        assert(index@.contains_key(own[i]) && index@.contains_key(own[j]));
        assert(values[i] == crate::scan::index_view(index)[own[i]]);
        assert(values[j] == crate::scan::index_view(index)[own[j]]);
        lemma_keyed_from(keys, entries, own[i]);
        lemma_keyed_from(keys, entries, own[j]);
    }
}

/// Knows the pairs, what is remembered of each, and their last indexes.
pub struct SyncDaemon {
    config: Arc<CrossBagConfig>,
    engine: SyncEngine,
    states: Table<SyncState>,
}

/// The state of each pair is the one that was loaded, or a fresh one.
pub open spec fn states_start(
    pairs: Seq<SyncPair>,
    loaded: Seq<Option<SyncState>>,
    states: Map<Seq<char>, SyncState>,
) -> bool {
    &&& forall|id: Seq<char>| #[trigger]
        states.contains_key(id) <==> config::has_pair(pairs, id)
    &&& forall|i: int|
        0 <= i < pairs.len() && last_of_its_name(pairs, i) ==> match loaded[i] {
            Some(s) => states[(#[trigger] pairs[i]).id@] == s,
            None => states[pairs[i].id@].pair_id@ == pairs[i].id@ && state::files_view(
                states[pairs[i].id@].files,
            ) == Map::<Seq<char>, state::FileStateView>::empty(),
        }
}

/// No later pair has the name of the pair `i`.
pub open spec fn last_of_its_name(pairs: Seq<SyncPair>, i: int) -> bool {
    forall|j: int| i < j < pairs.len() ==> (#[trigger] pairs[j]).id@ != pairs[i].id@
}

impl SyncDaemon {
    pub closed spec fn settings(&self) -> CrossBagConfig {
        *self.config
    }

    /// What is remembered, by pair.
    pub closed spec fn states(&self) -> Map<Seq<char>, SyncState> {
        self.states@
    }

    /// The last full index of each pair.
    pub closed spec fn indexes(&self) -> Map<Seq<char>, Table<FileEntry>> {
        self.engine.cached()
    }

    /// Starts with what was loaded for each pair, if anything could be.
    pub fn new(config: Arc<CrossBagConfig>, loaded: Vec<Option<SyncState>>) -> (res: SyncDaemon)
        requires
            loaded@.len() == config.sync_pairs@.len(),
        ensures
            res.settings() == *config,
            states_start(config.sync_pairs@, loaded@, res.states()),
            res.indexes() == Map::<Seq<char>, Table<FileEntry>>::empty(),
    {
        let ghost pairs = config.sync_pairs@;
        let ghost given = loaded@;
        let mut rest = loaded;
        let mut states: Table<SyncState> = Table::new();
        let n = config.sync_pairs.len();
        let mut i: usize = 0;
        while i < n
            invariant
                i <= n,
                n == pairs.len(),
                pairs == config.sync_pairs@,
                given.len() == pairs.len(),
                rest@.len() == given.len(),
                forall|k: int| i <= k < n ==> rest@[k] == given[k],
                states_start(pairs.take(i as int), given.take(i as int), states@),
            decreases n - i,
        {
            let id = config.sync_pairs[i].id.clone();
            let ghost before = states@;
            let one = rest[i].take();
            let state = match one {
                Some(s) => s,
                None => SyncState::new(&id),
            };
            states.insert(id, state);
            proof {
                lemma_states_push(pairs, given, before, states@, i as int, state);
            }
            i += 1;
        }
        proof {
            assert(pairs.take(i as int) =~= pairs);
            assert(given.take(i as int) =~= given);
        }
        SyncDaemon { engine: SyncEngine::new(config.clone()), config, states }
    }

    /// The pair of this name.
    pub fn find_pair(&self, pair_id: &str) -> (res: Result<&SyncPair, DaemonError>)
        ensures
            match res {
                Ok(pair) => exists|i: int|
                    config::first_pair(self.settings().sync_pairs@, pair_id@, i) && *pair
                        == #[trigger] self.settings().sync_pairs@[i],
                Err(e) => !config::has_pair(self.settings().sync_pairs@, pair_id@) && (
                e matches DaemonError::PairNotFound(id) && id@ == pair_id@),
            },
    {
        match self.config.find_pair(pair_id) {
            Some(i) => Ok(&self.config.sync_pairs[i]),
            None => Err(DaemonError::PairNotFound(pair_id.to_owned())),
        }
    }

    /// What is remembered of the pair of this name.
    pub fn state(&self, pair_id: &str) -> (res: Option<&SyncState>)
        ensures
            match res {
                Some(s) => self.states().contains_key(pair_id@) && *s == self.states()[pair_id@],
                None => !self.states().contains_key(pair_id@),
            },
    {
        self.states.get(pair_id)
    }

    /// Which of the files that a walk through the directory of a pair met have
    /// to be hashed.
    pub fn stale_files(&self, pair_id: &str, listing: &Vec<Listed>, now: &Timestamp) -> (res: Result<
        Vec<bool>,
        DaemonError,
    >)
        ensures
            match res {
                Ok(stale) => self.states().contains_key(pair_id@) && stale@.len() == listing@.len()
                    && forall|i: int|
                    0 <= i < listing@.len() ==> #[trigger] stale@[i] == state::is_stale(
                        state::files_view(self.states()[pair_id@].files),
                        listing@,
                        now@,
                        i,
                    ),
                Err(e) => !self.states().contains_key(pair_id@) && (e matches DaemonError::NoState(
                    id,
                ) && id@ == pair_id@),
            },
    {
        match self.states.get(pair_id) {
            Some(s) => Ok(s.stale_files(listing, now)),
            None => Err(DaemonError::NoState(pair_id.to_owned())),
        }
    }

    /// Acts on files that changed here: takes in what a walk through the
    /// directory of the pair met, and tells the peer, unless the pair only gets
    /// files.
    pub fn handle_local_changes(
        &mut self,
        pair_id: &str,
        listing: &Vec<Listed>,
        contents: &Vec<Option<Digest>>,
        now: &Timestamp,
    ) -> (res: Result<Option<NetworkCommand>, DaemonError>)
        requires
            listing@.len() == contents@.len(),
        ensures
            final(self).settings() == old(self).settings(),
            final(self).indexes() == old(self).indexes(),
            res is Ok == (config::has_pair(old(self).settings().sync_pairs@, pair_id@) && old(
                self,
            ).states().contains_key(pair_id@)),
            res is Err ==> final(self).states() == old(self).states(),
            res matches Err(DaemonError::PairNotFound(id)) ==> !config::has_pair(
                old(self).settings().sync_pairs@,
                pair_id@,
            ) && id@ == pair_id@,
            res matches Err(DaemonError::NoState(id)) ==> config::has_pair(
                old(self).settings().sync_pairs@,
                pair_id@,
            ) && id@ == pair_id@,
            res matches Ok(command) ==> {
                let before = old(self).states()[pair_id@];
                let after = final(self).states()[pair_id@];
                let files = state::files_view(before.files);
                &&& final(self).states() == old(self).states().insert(pair_id@, after)
                &&& state::files_view(after.files) == state::remembered(
                    files,
                    listing@,
                    contents@,
                    now@,
                )
                &&& after.pair_id@ == before.pair_id@
                &&& after.last_sync == *now
                &&& exists|i: int|
                    config::first_pair(old(self).settings().sync_pairs@, pair_id@, i)
                        && command_view(command) == index_message(
                        #[trigger] old(self).settings().sync_pairs@[i],
                        pair_id@,
                        state::found(files, listing@, contents@, now@),
                        now@,
                    )
            },
    {
        let place = match self.config.find_pair(pair_id) {
            Some(i) => i,
            None => {
                return Err(DaemonError::PairNotFound(pair_id.to_owned()));
            },
        };
        let known: SyncState = match self.states.get(pair_id) {
            Some(s) => s.copy(),
            None => {
                return Err(DaemonError::NoState(pair_id.to_owned()));
            },
        };
        let ghost pairs = self.config.sync_pairs@;
        let mut updated = known;
        let entries = updated.incremental_update(listing, contents, now);
        self.states.insert(pair_id.to_owned(), updated);
        let pair = &self.config.sync_pairs[place];
        assert(config::first_pair(pairs, pair_id@, place as int));
        let gives_files = match pair.direction {
            SyncDirection::PullOnly => false,
            _ => true,
        };
        if gives_files {
            let message = Message::FileIndex(
                FileIndex { pair_id: pair_id.to_owned(), files: entries, timestamp: *now },
            );
            let command = NetworkCommand::SendToPeer {
                peer_id: pair.remote_node.clone(),
                message,
            };
            assert(command_view(Some(command)) == index_message(
                pairs[place as int],
                pair_id@,
                protocol::entry_views(entries@),
                now@,
            ));
            Ok(Some(command))
        } else {
            assert(command_view(None) == index_message(
                pairs[place as int],
                pair_id@,
                protocol::entry_views(entries@),
                now@,
            ));
            Ok(None)
        }
    }

    /// Acts on the index of a peer: offers what the peer lacks or has older, and
    /// asks for what is lacking or older here. A pair that only gets files
    /// offers none; one that only gives files asks for none.
    pub fn handle_remote_index(
        &self,
        pair_id: &str,
        peer_id: &str,
        local: &Table<FileEntry>,
        remote: &Table<FileEntry>,
    ) -> (res: Result<Vec<NetworkCommand>, DaemonError>)
        ensures
            res is Ok == config::has_pair(self.settings().sync_pairs@, pair_id@),
            res matches Err(e) ==> (e matches DaemonError::PairNotFound(id) && id@ == pair_id@),
            res matches Ok(commands) ==> exists|i: int|
                config::first_pair(self.settings().sync_pairs@, pair_id@, i)
                    && network::command_views(commands@) == index_answer(
                    pair_id@,
                    peer_id@,
                    if_allowed(
                        gets((#[trigger] self.settings().sync_pairs@[i]).direction),
                        paths_of(sync::wanted(sync::values(*local), sync::values(*remote))),
                    ),
                    if_allowed(
                        gives(self.settings().sync_pairs@[i].direction),
                        paths_of(sync::offered(sync::values(*local), sync::values(*remote))),
                    ),
                ),
    {
        let place = match self.config.find_pair(pair_id) {
            Some(i) => i,
            None => {
                return Err(DaemonError::PairNotFound(pair_id.to_owned()));
            },
        };
        let pair = &self.config.sync_pairs[place];
        assert(config::first_pair(self.settings().sync_pairs@, pair_id@, place as int));
        let (local_only, remote_only) = SyncEngine::diff_indexes(local, remote);
        let offers = match pair.direction {
            SyncDirection::PullOnly => Vec::new(),
            _ => entry_paths(&local_only),
        };
        let needed = match pair.direction {
            SyncDirection::PushOnly => Vec::new(),
            _ => entry_paths(&remote_only),
        };
        proof {
            assert(text::texts(offers@) =~= if_allowed(
                gives(pair.direction),
                paths_of(sync::offered(sync::values(*local), sync::values(*remote))),
            ));
            assert(text::texts(needed@) =~= if_allowed(
                gets(pair.direction),
                paths_of(sync::wanted(sync::values(*local), sync::values(*remote))),
            ));
        }
        let mut commands: Vec<NetworkCommand> = Vec::new();
        if offers.len() > 0 {
            commands.push(
                NetworkCommand::SendToPeer {
                    peer_id: peer_id.to_owned(),
                    message: Message::FileIndexAck(
                        FileIndexAck {
                            pair_id: pair_id.to_owned(),
                            needed_files: copy_texts(&needed),
                            offered_files: copy_texts(&offers),
                        },
                    ),
                },
            );
        }
        if needed.len() > 0 {
            commands.push(
                NetworkCommand::SendToPeer {
                    peer_id: peer_id.to_owned(),
                    message: Message::FileRequest(
                        FileRequest { pair_id: pair_id.to_owned(), files: copy_texts(&needed) },
                    ),
                },
            );
        }
        proof {
            assert(text::texts(offers@).len() == offers@.len());
            assert(text::texts(needed@).len() == needed@.len());
            assert(network::command_views(commands@) =~= index_answer(
                pair_id@,
                peer_id@,
                text::texts(needed@),
                text::texts(offers@),
            ));
        }
        Ok(commands)
    }

    /// Where the answer to a peer goes: to the peer itself, if it is one of the
    /// configuration, else to the remote node of the pair. A peer that made the
    /// connection is known by its address only.
    pub fn answer_peer(&self, pair_id: &str, peer_id: &str) -> (res: Result<String, DaemonError>)
        ensures
            res is Ok == config::has_pair(self.settings().sync_pairs@, pair_id@),
            res matches Err(e) ==> (e matches DaemonError::PairNotFound(id) && id@ == pair_id@),
            res matches Ok(to) ==> exists|i: int|
                config::first_pair(self.settings().sync_pairs@, pair_id@, i) && to@ == if
                    self.settings().network.peers@.contains_key(peer_id@) {
                    peer_id@
                } else {
                    (#[trigger] self.settings().sync_pairs@[i]).remote_node@
                },
    {
        let pair = match self.find_pair(pair_id) {
            Ok(p) => p,
            Err(e) => {
                return Err(e);
            },
        };
        if self.config.network.peers.contains_key(peer_id) {
            Ok(peer_id.to_owned())
        } else {
            Ok(pair.remote_node.clone())
        }
    }

    /// Whether files of a pair are handed out: a pair that only gets files hands
    /// out none.
    pub fn handle_file_request(&self, pair_id: &str) -> (res: Result<bool, DaemonError>)
        ensures
            res is Ok == config::has_pair(self.settings().sync_pairs@, pair_id@),
            res matches Err(e) ==> (e matches DaemonError::PairNotFound(id) && id@ == pair_id@),
            res matches Ok(b) ==> exists|i: int|
                config::first_pair(self.settings().sync_pairs@, pair_id@, i) && b == gives(
                    (#[trigger] self.settings().sync_pairs@[i]).direction,
                ),
    {
        let pair = match self.find_pair(pair_id) {
            Ok(p) => p,
            Err(e) => {
                return Err(e);
            },
        };
        match pair.direction {
            SyncDirection::PullOnly => Ok(false),
            _ => Ok(true),
        }
    }

    /// The chunks of a file, to be sent to a peer one after the other.
    pub fn file_chunks(&self, peer_id: &str, path: &str, data: &[u8]) -> (res: Vec<NetworkCommand>)
        requires
            self.settings().advanced.chunk_size > 0,
            sync::chunks(data@, self.settings().advanced.chunk_size as nat).len() <= u32::MAX,
        ensures
            ({
                let parts = sync::chunks(data@, self.settings().advanced.chunk_size as nat);
                &&& res@.len() == parts.len()
                &&& forall|i: int|
                    0 <= i < parts.len() ==> (#[trigger] res@[i])@ == chunk_command(
                        peer_id@,
                        path@,
                        parts,
                        i,
                    )
            }),
    {
        let ghost parts = sync::chunks(data@, self.settings().advanced.chunk_size as nat);
        let chunks = SyncEngine::read_file_chunks(data, self.config.advanced.chunk_size);
        assert(sync::chunk_views(chunks@).len() == chunks@.len());
        let total: u32 = chunks.len() as u32;
        let mut res: Vec<NetworkCommand> = Vec::new();
        let mut i: usize = 0;
        while i < chunks.len()
            invariant
                i <= chunks@.len(),
                chunks@.len() == parts.len(),
                parts == sync::chunk_views(chunks@),
                parts.len() <= u32::MAX,
                total == parts.len(),
                res@.len() == i,
                forall|k: int|
                    0 <= k < i ==> (#[trigger] res@[k])@ == chunk_command(
                        peer_id@,
                        path@,
                        parts,
                        k,
                    ),
            decreases chunks@.len() - i,
        {
            let chunk = &chunks[i];
            assert(parts[i as int] == chunk@);
            let mut bytes: Vec<u8> = Vec::new();
            bytes.extend_from_slice(chunk.as_slice());
            assert(bytes@ =~= chunk@);
            let command = NetworkCommand::SendToPeer {
                peer_id: peer_id.to_owned(),
                message: Message::FileChunk(
                    FileChunk {
                        relative_path: path.to_owned(),
                        chunk_index: i as u32,
                        total_chunks: total,
                        data: bytes,
                        chunk_hash: Digest::of(chunk.as_slice()),
                    },
                ),
            };
            assert(command@ == chunk_command(peer_id@, path@, parts, i as int));
            res.push(command);
            i += 1;
        }
        res
    }

    /// Runs a full synchronisation of a pair, given the index of its directory
    /// or why there is none.
    pub fn run_full_sync(&mut self, pair_id: &str, built: Result<Table<FileEntry>, String>) -> (res:
        Result<SyncResult, DaemonError>)
        ensures
            final(self).settings() == old(self).settings(),
            final(self).states() == old(self).states(),
            res is Ok == config::has_pair(old(self).settings().sync_pairs@, pair_id@),
            res matches Err(e) ==> (e matches DaemonError::PairNotFound(id) && id@ == pair_id@)
                && final(self).indexes() == old(self).indexes(),
            res matches Ok(r) ==> r.pair_id@ == pair_id@ && r.files_synced == 0 && r.files_deleted
                == 0 && r.bytes_transferred == 0 && match built {
                Ok(index) => r.errors@.len() == 0 && final(self).indexes() == old(
                    self,
                ).indexes().insert(pair_id@, index),
                Err(e) => text::texts(r.errors@) == seq!["Failed to build local index: "@ + e@]
                    && final(self).indexes() == old(self).indexes(),
            },
    {
        let place = match self.config.find_pair(pair_id) {
            Some(i) => i,
            None => {
                return Err(DaemonError::PairNotFound(pair_id.to_owned()));
            },
        };
        let config = self.config.clone();
        Ok(self.engine.full_sync(&config.sync_pairs[place], built))
    }
}

/// What stands at the path of a file that a peer asks for.
#[derive(Debug, Clone)]
pub enum FileOnDisk {
    Missing,
    /// It could not be read.
    Unreadable,
    Content(Vec<u8>),
}

/// What becomes of one file of a request.
#[derive(Debug)]
pub enum FileAnswer {
    /// The file is passed over.
    Skip,
    /// The request is given up.
    Stop,
    /// These are sent one after the other.
    Send(Vec<NetworkCommand>),
}

impl SyncDaemon {
    /// What becomes of one file of a request: one that is missing is passed
    /// over, one that cannot be read ends the request, and the chunks of any
    /// other are sent.
    pub fn answer_for_file(&self, peer_id: &str, path: &str, file: &FileOnDisk) -> (res: FileAnswer)
        requires
            file matches FileOnDisk::Content(data) ==> self.settings().advanced.chunk_size > 0
                && sync::chunks(data@, self.settings().advanced.chunk_size as nat).len()
                <= u32::MAX,
        ensures
            match *file {
                FileOnDisk::Missing => res == FileAnswer::Skip,
                FileOnDisk::Unreadable => res == FileAnswer::Stop,
                FileOnDisk::Content(data) => {
                    let parts = sync::chunks(data@, self.settings().advanced.chunk_size as nat);
                    res matches FileAnswer::Send(commands) && commands@.len() == parts.len()
                        && forall|i: int|
                        0 <= i < parts.len() ==> (#[trigger] commands@[i])@ == chunk_command(
                            peer_id@,
                            path@,
                            parts,
                            i,
                        )
                },
            },
    {
        match file {
            FileOnDisk::Missing => FileAnswer::Skip,
            FileOnDisk::Unreadable => FileAnswer::Stop,
            FileOnDisk::Content(data) => FileAnswer::Send(
                self.file_chunks(peer_id, path, data.as_slice()),
            ),
        }
    }
}

/// The command, if there is one.
pub open spec fn command_view(c: Option<NetworkCommand>) -> Option<network::CommandView> {
    match c {
        Some(c) => Some(c@),
        None => None,
    }
}

/// How the peer of a pair is told of the files here, unless the pair only gets
/// files.
pub open spec fn index_message(
    pair: SyncPair,
    pair_id: Seq<char>,
    entries: Seq<protocol::FileEntryView>,
    now: (int, int),
) -> Option<network::CommandView> {
    if gives(pair.direction) {
        Some(
            network::CommandView::SendToPeer {
                peer_id: pair.remote_node@,
                message: protocol::MessageView::FileIndex(
                    protocol::FileIndexView { pair_id, files: entries, timestamp: now },
                ),
            },
        )
    } else {
        None
    }
}

/// The chunks that are sent of a file make the file when they are put together
/// in their order, and each carries the digest of its own bytes.
pub proof fn sent_chunks_make_the_file(
    peer_id: Seq<char>,
    path: Seq<char>,
    data: Seq<u8>,
    size: nat,
)
    requires
        size > 0,
        sync::chunks(data, size).len() <= u32::MAX,
    ensures
        ({
            let parts = sync::chunks(data, size);
            let sent = Seq::new(
                parts.len(),
                |i: int| carried(chunk_command(peer_id, path, parts, i)),
            );
            &&& sync::glued(sent.map_values(|c: protocol::FileChunkView| c.data)) == data
            &&& forall|i: int|
                0 <= i < sent.len() ==> (#[trigger] sent[i]).chunk_index == i
                    && sent[i].total_chunks == sent.len() && sent[i].relative_path == path
                    && sent[i].chunk_hash == digest::blake3_digest(sent[i].data)
        }),
{
    let parts = sync::chunks(data, size);
    let sent = Seq::new(parts.len(), |i: int| carried(chunk_command(peer_id, path, parts, i)));
    sync::chunks_make_the_file(data, size);
    assert(sent.map_values(|c: protocol::FileChunkView| c.data) =~= parts);
}

/// The chunk that a command carries.
pub open spec fn carried(c: network::CommandView) -> protocol::FileChunkView {
    c->message->FileChunk_0
}

/// What happens to a bridge.
#[verifier::ext_equal]
pub ghost enum BridgeEvent {
    /// A change, so many milliseconds after the last batch went out.
    Change(watcher::FileChangeView, u64),
    /// Nothing happened for a while.
    Timeout,
}

/// The batch that goes out upon an event, and what waits then.
pub open spec fn bridge_next(
    debounce: u64,
    waiting: Seq<watcher::FileChangeView>,
    event: BridgeEvent,
) -> (Seq<watcher::FileChangeView>, Seq<watcher::FileChangeView>) {
    match event {
        BridgeEvent::Change(change, since) => if since >= debounce {
            (waiting.push(change), Seq::empty())
        } else {
            (Seq::empty(), waiting.push(change))
        },
        BridgeEvent::Timeout => (waiting, Seq::empty()),
    }
}

/// All that goes out upon some events, and what waits then.
pub open spec fn bridge_run(
    debounce: u64,
    waiting: Seq<watcher::FileChangeView>,
    events: Seq<BridgeEvent>,
) -> (Seq<watcher::FileChangeView>, Seq<watcher::FileChangeView>)
    decreases events.len(),
{
    if events.len() == 0 {
        (Seq::empty(), waiting)
    } else {
        let (sent, left) = bridge_run(debounce, waiting, events.drop_last());
        let (batch, next) = bridge_next(debounce, left, events.last());
        (sent + batch, next)
    }
}

/// The changes among some events.
pub open spec fn changes_among(events: Seq<BridgeEvent>) -> Seq<watcher::FileChangeView>
    decreases events.len(),
{
    if events.len() == 0 {
        Seq::empty()
    } else {
        match events.last() {
            BridgeEvent::Change(change, _) => changes_among(events.drop_last()).push(change),
            BridgeEvent::Timeout => changes_among(events.drop_last()),
        }
    }
}

/// No change is lost on its way to the daemon, none is sent twice, and they keep
/// their order: what went out and what waits are the changes that came.
pub proof fn bridge_keeps_all_changes(debounce: u64, events: Seq<BridgeEvent>)
    ensures
        ({
            let (sent, left) = bridge_run(debounce, Seq::empty(), events);
            sent + left == changes_among(events)
        }),
    decreases events.len(),
{
    if events.len() > 0 {
        bridge_keeps_all_changes(debounce, events.drop_last());
        let (before, waited) = bridge_run(debounce, Seq::empty(), events.drop_last());
        let (sent, left) = bridge_run(debounce, Seq::empty(), events);
        assert(sent + left =~= match events.last() {
            BridgeEvent::Change(change, _) => (before + waited).push(change),
            BridgeEvent::Timeout => before + waited,
        });
    } else {
        assert(Seq::<watcher::FileChangeView>::empty() + Seq::<watcher::FileChangeView>::empty()
            =~= Seq::<watcher::FileChangeView>::empty());
    }
}

/// Gathers changes of files for the daemon: a batch goes out when nothing
/// happened for a while, or with the first change after a while.
pub struct WatcherBridge {
    batch: Vec<FileChange>,
    debounce_ms: u64,
}

impl WatcherBridge {
    /// What waits to go out.
    pub closed spec fn waiting(&self) -> Seq<watcher::FileChangeView> {
        watcher::change_views(self.batch@)
    }

    pub closed spec fn debounce(&self) -> u64 {
        self.debounce_ms
    }

    pub fn new(debounce_ms: u64) -> (res: WatcherBridge)
        ensures
            res.waiting() == Seq::<watcher::FileChangeView>::empty(),
            res.debounce() == debounce_ms,
    {
        let res = WatcherBridge { batch: Vec::new(), debounce_ms };
        assert(res.waiting() =~= Seq::<watcher::FileChangeView>::empty());
        res
    }

    /// A change came, so many milliseconds after the last batch went out. The
    /// batch to send out now, which is empty where it is too early.
    pub fn on_change(&mut self, change: FileChange, since_flush_ms: u64) -> (res: Vec<FileChange>)
        ensures
            final(self).debounce() == old(self).debounce(),
            (watcher::change_views(res@), final(self).waiting()) == bridge_next(
                old(self).debounce(),
                old(self).waiting(),
                BridgeEvent::Change(change@, since_flush_ms),
            ),
    {
        self.batch.push(change);
        assert(self.waiting() =~= old(self).waiting().push(change@));
        if since_flush_ms >= self.debounce_ms {
            self.on_timeout()
        } else {
            let none: Vec<FileChange> = Vec::new();
            assert(watcher::change_views(none@) =~= Seq::<watcher::FileChangeView>::empty());
            none
        }
    }

    /// Nothing happened for a while. The batch to send out now.
    pub fn on_timeout(&mut self) -> (res: Vec<FileChange>)
        ensures
            final(self).debounce() == old(self).debounce(),
            (watcher::change_views(res@), final(self).waiting()) == bridge_next(
                old(self).debounce(),
                old(self).waiting(),
                BridgeEvent::Timeout,
            ),
    {
        let mut res: Vec<FileChange> = Vec::new();
        std::mem::swap(&mut res, &mut self.batch);
        assert(self.waiting() =~= Seq::<watcher::FileChangeView>::empty());
        res
    }
}

/// A batch of changes for each of the pairs.
pub fn flush_batch(batch: &Vec<FileChange>, pair_ids: &Vec<String>) -> (res: Vec<SyncAction>)
    ensures
        res@.len() == pair_ids@.len(),
        forall|i: int|
            0 <= i < pair_ids@.len() ==> (#[trigger] res@[i])@ == (SyncActionView::LocalChange {
                pair_id: pair_ids@[i]@,
                changes: watcher::change_views(batch@),
            }),
{
    let mut res: Vec<SyncAction> = Vec::new();
    let mut i: usize = 0;
    while i < pair_ids.len()
        invariant
            i <= pair_ids@.len(),
            res@.len() == i,
            forall|k: int|
                0 <= k < i ==> (#[trigger] res@[k])@ == (SyncActionView::LocalChange {
                    pair_id: pair_ids@[k]@,
                    changes: watcher::change_views(batch@),
                }),
        decreases pair_ids@.len() - i,
    {
        res.push(
            SyncAction::LocalChange { pair_id: pair_ids[i].clone(), changes: copy_changes(batch) },
        );
        i += 1;
    }
    res
}

proof fn lemma_states_push(
    pairs: Seq<SyncPair>,
    given: Seq<Option<SyncState>>,
    before: Map<Seq<char>, SyncState>,
    after: Map<Seq<char>, SyncState>,
    i: int,
    state: SyncState,
)
    requires
        0 <= i < pairs.len(),
        given.len() == pairs.len(),
        states_start(pairs.take(i), given.take(i), before),
        after == before.insert(pairs[i].id@, state),
        given[i] matches Some(s) ==> state == s,
        given[i] is None ==> state.pair_id@ == pairs[i].id@ && state::files_view(state.files)
            == Map::<Seq<char>, state::FileStateView>::empty(),
    ensures
        states_start(pairs.take(i + 1), given.take(i + 1), after),
{
    let head = pairs.take(i);
    let now = pairs.take(i + 1);
    assert forall|id: Seq<char>| #[trigger] after.contains_key(id) <==> config::has_pair(
        now,
        id,
    ) by {
        if config::has_pair(head, id) {
            let k = choose|k: int| 0 <= k < head.len() && (#[trigger] head[k]).id@ == id;
            assert(now[k] == head[k]);
        }
        if id == pairs[i].id@ {
            assert(now[i].id@ == id);
        }
        if config::has_pair(now, id) {
            let k = choose|k: int| 0 <= k < now.len() && (#[trigger] now[k]).id@ == id;
            if k < i {
                assert(head[k] == now[k]);
            }
        }
        assert(before.contains_key(id) <==> config::has_pair(head, id));
    }
    assert forall|k: int| 0 <= k < now.len() && last_of_its_name(now, k) implies match given.take(
        i + 1,
    )[k] {
        Some(s) => after[(#[trigger] now[k]).id@] == s,
        None => after[now[k].id@].pair_id@ == now[k].id@ && state::files_view(
            after[now[k].id@].files,
        ) == Map::<Seq<char>, state::FileStateView>::empty(),
    } by {
        if k < i {
            assert(now[i].id@ != now[k].id@);
            assert(last_of_its_name(head, k)) by {
                assert forall|j: int| k < j < head.len() implies (#[trigger] head[j]).id@
                    != head[k].id@ by {
                    assert(now[j] == head[j]);
                }
            }
            assert(head[k] == now[k]);
            assert(given.take(i)[k] == given.take(i + 1)[k]);
        }
    }
}

/// The pair `k` is the one that `pair_id` names: the first of that name.
pub open spec fn is_meant(c: CrossBagConfig, pair_id: Seq<char>, k: int) -> bool {
    &&& 0 <= k < c.sync_pairs@.len()
    &&& c.sync_pairs@[k].id@ == pair_id
    &&& forall|m: int| 0 <= m < k ==> (#[trigger] c.sync_pairs@[m]).id@ != pair_id
}

proof fn lemma_meant(c: CrossBagConfig, pair_id: Seq<char>, k: int)
    requires
        is_meant(c, pair_id, k),
    ensures
        config::has_pair(c.sync_pairs@, pair_id),
        forall|i: int| #[trigger] config::first_pair(c.sync_pairs@, pair_id, i) ==> i == k,
{
    assert(c.sync_pairs@[k].id@ == pair_id);
    assert forall|i: int| #[trigger] config::first_pair(c.sync_pairs@, pair_id, i) implies i
        == k by {
        assert(c.sync_pairs@[i].id@ == pair_id);
    }
}

/// The command asks the peer for these files of the pair.
pub open spec fn asks_for(
    c: NetworkCommand,
    peer: Seq<char>,
    pair: Seq<char>,
    files: Seq<Seq<char>>,
) -> bool {
    c matches NetworkCommand::SendToPeer { peer_id, message: Message::FileRequest(r) } && peer_id@
        == peer && r.pair_id@ == pair && r.files@.len() == files.len() && forall|m: int|
        0 <= m < files.len() ==> (#[trigger] r.files@[m])@ == files[m]
}

/// The command tells the peer which files of the pair are needed here, and which
/// are offered.
pub open spec fn offers_to(
    c: NetworkCommand,
    peer: Seq<char>,
    pair: Seq<char>,
    needed: Seq<Seq<char>>,
    offered: Seq<Seq<char>>,
) -> bool {
    c matches NetworkCommand::SendToPeer { peer_id, message: Message::FileIndexAck(a) } && peer_id@
        == peer && a.pair_id@ == pair && a.needed_files@.len() == needed.len()
        && a.offered_files@.len() == offered.len() && (forall|m: int|
        0 <= m < needed.len() ==> (#[trigger] a.needed_files@[m])@ == needed[m]) && (forall|m: int|
        0 <= m < offered.len() ==> (#[trigger] a.offered_files@[m])@ == offered[m])
}

/// The answer to an index names every file that the comparison of the indexes
/// tells, in its order, and goes to the peer: the files to give are offered,
/// unless the pair only gets files, and the files to get are asked for, unless
/// the pair only gives files.
pub proof fn answers_name_every_difference(
    daemon: &SyncDaemon,
    pair_id: &str,
    peer_id: &str,
    local: &Table<FileEntry>,
    remote: &Table<FileEntry>,
    res: Vec<NetworkCommand>,
    lists: (Vec<FileEntry>, Vec<FileEntry>),
    k: int,
)
    requires
        call_ensures(
            SyncDaemon::handle_remote_index,
            (daemon, pair_id, peer_id, local, remote),
            Ok(res),
        ),
        call_ensures(SyncEngine::diff_indexes, (local, remote), lists),
        is_meant(daemon.settings(), pair_id@, k),
    ensures
        ({
            let direction = daemon.settings().sync_pairs@[k].direction;
            let give = lists.0@.map_values(|e: FileEntry| e.relative_path@);
            let get = lists.1@.map_values(|e: FileEntry| e.relative_path@);
            let none = Seq::<Seq<char>>::empty();
            let offered = if direction == SyncDirection::PullOnly {
                none
            } else {
                give
            };
            let needed = if direction == SyncDirection::PushOnly {
                none
            } else {
                get
            };
            &&& offered.len() > 0 ==> res@.len() > 0 && offers_to(
                res@[0],
                peer_id@,
                pair_id@,
                needed,
                offered,
            )
            &&& needed.len() > 0 ==> res@.len() > 0 && asks_for(
                res@[res@.len() - 1],
                peer_id@,
                pair_id@,
                needed,
            )
            &&& res@.len() == (if offered.len() > 0 {
                1int
            } else {
                0
            }) + (if needed.len() > 0 {
                1int
            } else {
                0
            })
        }),
{
    let c = daemon.settings();
    lemma_meant(c, pair_id@, k);
    let direction = c.sync_pairs@[k].direction;
    let give = lists.0@.map_values(|e: FileEntry| e.relative_path@);
    let get = lists.1@.map_values(|e: FileEntry| e.relative_path@);
    let l = sync::values(*local);
    let r = sync::values(*remote);
    assert(give =~= paths_of(sync::offered(l, r))) by {
        assert(protocol::entry_views(lists.0@).len() == lists.0@.len());
        assert forall|n: int| 0 <= n < lists.0@.len() implies give[n] == #[trigger] paths_of(
            sync::offered(l, r),
        )[n] by {
            assert(protocol::entry_views(lists.0@)[n] == lists.0@[n]@);
        }
    }
    assert(get =~= paths_of(sync::wanted(l, r))) by {
        assert(protocol::entry_views(lists.1@).len() == lists.1@.len());
        assert forall|n: int| 0 <= n < lists.1@.len() implies get[n] == #[trigger] paths_of(
            sync::wanted(l, r),
        )[n] by {
            assert(protocol::entry_views(lists.1@)[n] == lists.1@[n]@);
        }
    }
    let needed = if_allowed(gets(direction), get);
    let offered = if_allowed(gives(direction), give);
    let answer = index_answer(pair_id@, peer_id@, needed, offered);
    let views = network::command_views(res@);
    assert(views == answer);
    assert(views.len() == res@.len());
    if offered.len() > 0 {
        assert(views[0] == res@[0]@);
        lemma_ack_view(res@[0], peer_id@, pair_id@, needed, offered);
    }
    if needed.len() > 0 {
        assert(views[res@.len() - 1] == res@[res@.len() - 1]@);
        lemma_request_view(res@[res@.len() - 1], peer_id@, pair_id@, needed);
    }
}

proof fn lemma_request_view(
    c: NetworkCommand,
    peer: Seq<char>,
    pair: Seq<char>,
    files: Seq<Seq<char>>,
)
    requires
        c@ == (network::CommandView::SendToPeer {
            peer_id: peer,
            message: protocol::MessageView::FileRequest(
                protocol::FileRequestView { pair_id: pair, files },
            ),
        }),
    ensures
        asks_for(c, peer, pair, files),
{
    let r = c->message->FileRequest_0;
    assert(text::texts(r.files@).len() == r.files@.len());
    assert forall|m: int| 0 <= m < files.len() implies (#[trigger] r.files@[m])@ == files[m] by {
        assert(text::texts(r.files@)[m] == r.files@[m]@);
    }
}

proof fn lemma_ack_view(
    c: NetworkCommand,
    peer: Seq<char>,
    pair: Seq<char>,
    needed: Seq<Seq<char>>,
    offered: Seq<Seq<char>>,
)
    requires
        c@ == (network::CommandView::SendToPeer {
            peer_id: peer,
            message: protocol::MessageView::FileIndexAck(
                protocol::FileIndexAckView {
                    pair_id: pair,
                    needed_files: needed,
                    offered_files: offered,
                },
            ),
        }),
    ensures
        offers_to(c, peer, pair, needed, offered),
{
    let a = c->message->FileIndexAck_0;
    assert(text::texts(a.needed_files@).len() == a.needed_files@.len());
    assert(text::texts(a.offered_files@).len() == a.offered_files@.len());
    assert forall|m: int| 0 <= m < needed.len() implies (#[trigger] a.needed_files@[m])@
        == needed[m] by {
        assert(text::texts(a.needed_files@)[m] == a.needed_files@[m]@);
    }
    assert forall|m: int| 0 <= m < offered.len() implies (#[trigger] a.offered_files@[m])@
        == offered[m] by {
        assert(text::texts(a.offered_files@)[m] == a.offered_files@[m]@);
    }
}

/// A pair that is not in the configuration is refused by its name, and any that
/// is there is not.
pub proof fn only_known_pairs_are_served(
    daemon: &SyncDaemon,
    pair_id: &str,
    peer_id: &str,
    local: &Table<FileEntry>,
    remote: &Table<FileEntry>,
    answer: Result<Vec<NetworkCommand>, DaemonError>,
    request: Result<bool, DaemonError>,
)
    requires
        call_ensures(
            SyncDaemon::handle_remote_index,
            (daemon, pair_id, peer_id, local, remote),
            answer,
        ),
        call_ensures(SyncDaemon::handle_file_request, (daemon, pair_id), request),
    ensures
        ({
            let known = exists|k: int| is_meant(daemon.settings(), pair_id@, k);
            &&& answer is Ok == known
            &&& request is Ok == known
            &&& answer matches Err(e) ==> (e matches DaemonError::PairNotFound(id) && id@
                == pair_id@)
            &&& request matches Err(e) ==> (e matches DaemonError::PairNotFound(id) && id@
                == pair_id@)
        }),
{
    let c = daemon.settings();
    if exists|k: int| is_meant(c, pair_id@, k) {
        let k = choose|k: int| is_meant(c, pair_id@, k);
        lemma_meant(c, pair_id@, k);
    }
    if config::has_pair(c.sync_pairs@, pair_id@) {
        let i = choose|i: int| config::first_pair(c.sync_pairs@, pair_id@, i);
        assert(is_meant(c, pair_id@, i));
    }
}

/// Files of a pair are handed out unless the pair only gets files.
pub proof fn direction_decides_handing_out(
    daemon: &SyncDaemon,
    pair_id: &str,
    res: bool,
    k: int,
)
    requires
        call_ensures(SyncDaemon::handle_file_request, (daemon, pair_id), Ok(res)),
        is_meant(daemon.settings(), pair_id@, k),
    ensures
        res == (daemon.settings().sync_pairs@[k].direction != SyncDirection::PullOnly),
{
    lemma_meant(daemon.settings(), pair_id@, k);
}

/// A peer of the configuration is answered under its own name, any other under
/// that of the remote node of the pair.
pub proof fn answers_go_to_the_peer(
    daemon: &SyncDaemon,
    pair_id: &str,
    peer_id: &str,
    res: String,
    k: int,
)
    requires
        call_ensures(SyncDaemon::answer_peer, (daemon, pair_id, peer_id), Ok(res)),
        is_meant(daemon.settings(), pair_id@, k),
    ensures
        res@ == if daemon.settings().network.peers@.contains_key(peer_id@) {
            peer_id@
        } else {
            daemon.settings().sync_pairs@[k].remote_node@
        },
{
    lemma_meant(daemon.settings(), pair_id@, k);
}

/// The command sends to the peer the chunk `i` of `total` of the file at `path`,
/// with its digest.
pub open spec fn sends_chunk(
    c: NetworkCommand,
    peer: Seq<char>,
    path: Seq<char>,
    i: int,
    total: int,
    data: Seq<u8>,
) -> bool {
    c matches NetworkCommand::SendToPeer { peer_id, message: Message::FileChunk(k) } && peer_id@
        == peer && k.relative_path@ == path && k.chunk_index == i && k.total_chunks == total
        && k.data@ == data && k.chunk_hash.bytes@ == digest::blake3_digest(data)
}

/// The stretch of `data` that is the chunk `i`.
pub open spec fn stretch(data: Seq<u8>, size: int, i: int) -> Seq<u8> {
    data.subrange(
        i * size,
        if (i + 1) * size < data.len() {
            (i + 1) * size
        } else {
            data.len() as int
        },
    )
}

/// A file that is asked for and could be read is sent whole: in as many chunks as
/// it takes, each with its number, its stretch of the file and the digest of
/// that, one after the other.
pub proof fn files_are_sent_whole(
    daemon: &SyncDaemon,
    peer_id: &str,
    path: &str,
    data: Vec<u8>,
    res: FileAnswer,
    i: int,
)
    requires
        call_ensures(
            SyncDaemon::answer_for_file,
            (daemon, peer_id, path, &FileOnDisk::Content(data)),
            res,
        ),
        daemon.settings().advanced.chunk_size > 0,
        (data@.len() + daemon.settings().advanced.chunk_size - 1)
            / daemon.settings().advanced.chunk_size as int <= u32::MAX,
        0 <= i * daemon.settings().advanced.chunk_size < data@.len(),
    ensures
        res matches FileAnswer::Send(commands) && 0 <= i < commands@.len() && commands@.len() == (
        data@.len() + daemon.settings().advanced.chunk_size - 1)
            / daemon.settings().advanced.chunk_size as int && sends_chunk(
            commands@[i],
            peer_id@,
            path@,
            i,
            commands@.len() as int,
            stretch(data@, daemon.settings().advanced.chunk_size as int, i),
        ),
{
    let size = daemon.settings().advanced.chunk_size as nat;
    let c = size as int;
    let n = data@.len() as int;
    let parts = sync::chunks(data@, size);
    sync::chunks_are_full(data@, size);
    assert(0 <= i < (n + c - 1) / c) by (nonlinear_arith)
        requires
            0 <= i * c < n,
            c > 0,
    ;
    sync::lemma_chunk_at(data@, size, i);
    let commands = res->Send_0;
    assert(commands@[i]@ == chunk_command(peer_id@, path@, parts, i));
}

/// A file that is missing is passed over, and one that cannot be read ends the
/// request; nothing is sent of either.
pub proof fn unreadable_files_are_not_sent(
    daemon: &SyncDaemon,
    peer_id: &str,
    path: &str,
    missing: FileAnswer,
    unreadable: FileAnswer,
)
    requires
        call_ensures(
            SyncDaemon::answer_for_file,
            (daemon, peer_id, path, &FileOnDisk::Missing),
            missing,
        ),
        call_ensures(
            SyncDaemon::answer_for_file,
            (daemon, peer_id, path, &FileOnDisk::Unreadable),
            unreadable,
        ),
    ensures
        missing is Skip,
        unreadable is Stop,
{
}

proof fn lemma_keyed_last(
    keys: Seq<Seq<char>>,
    entries: Seq<protocol::FileEntryView>,
    i: int,
)
    requires
        keys.len() == entries.len(),
        0 <= i < keys.len(),
        forall|k: int| i < k < keys.len() ==> #[trigger] keys[k] != keys[i],
    ensures
        keyed(keys, entries).contains_key(keys[i]),
        keyed(keys, entries)[keys[i]] == entries[i],
    decreases keys.len(),
{
    let n = keys.len() - 1;
    if i < n {
        let head = keys.drop_last();
        assert(head[i] == keys[i]);
        assert forall|k: int| i < k < head.len() implies #[trigger] head[k] != head[i] by {
            assert(head[k] == keys[k]);
        }
        lemma_keyed_last(head, entries.drop_last(), i);
        assert(keys[n] != keys[i]);
        assert(entries.drop_last()[i] == entries[i]);
    }
}

/// Each entry of an index that a peer sent stands in full under its path, and
/// nothing else does.
pub proof fn sent_entries_stand_by_their_paths(
    keys: &Vec<String>,
    entries: &Vec<FileEntry>,
    res: Table<FileEntry>,
    i: int,
    path: Seq<char>,
)
    requires
        call_ensures(index_by_path, (keys, entries), res),
        keys@.len() == entries@.len(),
        0 <= i < keys@.len(),
        forall|k: int| i < k < keys@.len() ==> (#[trigger] keys@[k])@ != keys@[i]@,
    ensures
        res@.contains_key(keys@[i]@),
        protocol::is_copy(res@[keys@[i]@], entries@[i]),
        res@.contains_key(path) ==> exists|k: int|
            0 <= k < keys@.len() && (#[trigger] keys@[k])@ == path,
{
    let all_keys = text::texts(keys@);
    let all = protocol::entry_views(entries@);
    let view = crate::scan::index_view(res);
    assert(all_keys[i] == keys@[i]@);
    assert(all[i] == entries@[i]@);
    assert forall|k: int| i < k < all_keys.len() implies #[trigger] all_keys[k] != all_keys[i] by {
        assert(all_keys[k] == keys@[k]@);
    }
    lemma_keyed_last(all_keys, all, i);
    assert(view.contains_key(keys@[i]@));
    assert(view[keys@[i]@] == res@[keys@[i]@]@);
    if res@.contains_key(path) {
        assert(view.contains_key(path));
        lemma_keyed_from(all_keys, all, path);
        let k = choose|k: int|
            0 <= k < all.len() && #[trigger] all_keys[k] == path && keyed(all_keys, all)[path]
                == all[k];
        assert(keys@[k]@ == path);
    }
}

/// What changed here is told to the remote node of the pair, unless the pair only
/// gets files: its index, with an entry for each place below the root in the
/// order of the walk, under the name of the pair and with the time of the walk.
pub proof fn local_changes_are_told(
    daemon: &mut SyncDaemon,
    pair_id: &str,
    listing: &Vec<Listed>,
    contents: &Vec<Option<Digest>>,
    now: &Timestamp,
    res: Option<NetworkCommand>,
    k: int,
)
    requires
        call_ensures(
            SyncDaemon::handle_local_changes,
            (daemon, pair_id, listing, contents, now),
            Ok(res),
        ),
        listing@.len() == contents@.len(),
        is_meant(old(daemon).settings(), pair_id@, k),
    ensures
        res is None == (old(daemon).settings().sync_pairs@[k].direction
            == SyncDirection::PullOnly),
        res matches Some(c) ==> (c matches NetworkCommand::SendToPeer {
            peer_id,
            message: Message::FileIndex(index),
        } && peer_id@ == old(daemon).settings().sync_pairs@[k].remote_node@ && index.pair_id@
            == pair_id@ && index.timestamp@ == now@ && index.files@.map_values(
            |e: FileEntry| e.relative_path@,
        ) == listing@.filter(|l: Listed| !l.is_root).map_values(|l: Listed| l.relative_path@)),
        final(daemon).settings() == old(daemon).settings(),
{
    let c = old(daemon).settings();
    lemma_meant(c, pair_id@, k);
    let before = old(daemon).states()[pair_id@];
    let files = state::files_view(before.files);
    state::lemma_found_paths(files, listing@, contents@, now@);
    if let Some(command) = res {
        let index = command->message->FileIndex_0;
        assert(protocol::entry_views(index.files@) == state::found(
            files,
            listing@,
            contents@,
            now@,
        ));
        assert(index.files@.map_values(|e: FileEntry| e.relative_path@)
            =~= protocol::entry_views(index.files@).map_values(
            |e: protocol::FileEntryView| e.relative_path,
        ));
    }
}

/// What is told of a file that changed here is its size, its time and its digest:
/// the one that was remembered, if size and time are those that were, else that
/// of its content. The same is remembered then; of other pairs nothing changes.
pub proof fn changed_files_are_told(
    daemon: &mut SyncDaemon,
    pair_id: &str,
    listing: &Vec<Listed>,
    contents: &Vec<Option<Digest>>,
    now: &Timestamp,
    res: Option<NetworkCommand>,
    k: int,
    i: int,
    other: Seq<char>,
)
    requires
        call_ensures(
            SyncDaemon::handle_local_changes,
            (daemon, pair_id, listing, contents, now),
            Ok(res),
        ),
        listing@.len() == contents@.len(),
        is_meant(old(daemon).settings(), pair_id@, k),
        state::files_met_once(listing@),
        0 <= i < listing@.len(),
        !listing@[i].is_root,
        !listing@[i].is_dir,
        other != pair_id@,
    ensures
        ({
            let l = listing@[i];
            let p = l.relative_path@;
            let before = old(daemon).states()[pair_id@].files;
            let record = final(daemon).states()[pair_id@].files@[p];
            &&& final(daemon).states()[pair_id@].files@.contains_key(p)
            &&& record.size == l.size
            &&& record.modified@ == state::told_time(l, now@)
            &&& if state::looks_the_same(before, l, now@) {
                record.hash.bytes@ == before@[p].hash.bytes@
            } else {
                match contents@[i] {
                    Some(d) => record.hash.bytes@ == d.bytes@,
                    None => forall|m: int| 0 <= m < 32 ==> record.hash.bytes@[m] == 0,
                }
            }
            &&& res matches Some(c) ==> exists|n: int|
                0 <= n < c->message->FileIndex_0.files@.len() && {
                    let e = #[trigger] c->message->FileIndex_0.files@[n];
                    e.relative_path@ == p && e.size == l.size && e.modified@ == record.modified@
                        && e.hash.bytes@ == record.hash.bytes@ && !e.is_dir
                }
        }),
        final(daemon).states().contains_key(other) == old(daemon).states().contains_key(other),
        old(daemon).states().contains_key(other) ==> final(daemon).states()[other] == old(
            daemon,
        ).states()[other],
{
    let c = old(daemon).settings();
    lemma_meant(c, pair_id@, k);
    let before = old(daemon).states()[pair_id@].files;
    let after = final(daemon).states()[pair_id@].files;
    let n = state::lemma_updated(before, after, listing@, contents@, now@, i);
    if let Some(command) = res {
        let index = command->message->FileIndex_0;
        assert(protocol::entry_views(index.files@) == state::found(
            state::files_view(before),
            listing@,
            contents@,
            now@,
        ));
        assert(protocol::entry_views(index.files@)[n] == index.files@[n]@);
        assert(index.files@[n].relative_path@ == listing@[i].relative_path@);
    }
}

/// A change goes out with all that waits once the time is over, and else waits
/// behind it; after a pause all that waits goes out. Nothing is lost, doubled or
/// put out of order.
pub proof fn batches_go_out_in_time(
    bridge: &mut WatcherBridge,
    change: FileChange,
    since: u64,
    res: Vec<FileChange>,
)
    requires
        call_ensures(WatcherBridge::on_change, (bridge, change, since), res),
    ensures
        watcher::change_views(res@) + final(bridge).waiting() == old(bridge).waiting().push(
            change@,
        ),
        since >= old(bridge).debounce() ==> final(bridge).waiting().len() == 0,
        since < old(bridge).debounce() ==> res@.len() == 0,
        final(bridge).debounce() == old(bridge).debounce(),
{
    assert(watcher::change_views(res@).len() == res@.len());
    assert(watcher::change_views(res@) + final(bridge).waiting() =~= old(bridge).waiting().push(
        change@,
    ));
}

/// After a pause all that waits goes out.
pub proof fn pauses_empty_the_bridge(bridge: &mut WatcherBridge, res: Vec<FileChange>)
    requires
        call_ensures(WatcherBridge::on_timeout, (bridge,), res),
    ensures
        watcher::change_views(res@) == old(bridge).waiting(),
        final(bridge).waiting().len() == 0,
        final(bridge).debounce() == old(bridge).debounce(),
{
}

/// Each pair gets every change of a batch.
pub proof fn batches_reach_every_pair(
    batch: &Vec<FileChange>,
    pair_ids: &Vec<String>,
    res: Vec<SyncAction>,
    i: int,
)
    requires
        call_ensures(flush_batch, (batch, pair_ids), res),
        0 <= i < pair_ids@.len(),
    ensures
        res@.len() == pair_ids@.len(),
        res@[i] matches SyncAction::LocalChange { pair_id, changes } && pair_id@ == pair_ids@[i]@
            && changes@.len() == batch@.len() && forall|k: int|
            0 <= k < batch@.len() ==> (#[trigger] changes@[k])@ == batch@[k]@,
{
    assert(res@[i]@ == (SyncActionView::LocalChange {
        pair_id: pair_ids@[i]@,
        changes: watcher::change_views(batch@),
    }));
    let changes = res@[i]->changes;
    assert(watcher::change_views(changes@).len() == changes@.len());
    assert(watcher::change_views(batch@).len() == batch@.len());
    assert forall|k: int| 0 <= k < batch@.len() implies (#[trigger] changes@[k])@ == batch@[k]@ by {
        assert(watcher::change_views(changes@)[k] == changes@[k]@);
        assert(watcher::change_views(batch@)[k] == batch@[k]@);
    }
}

/// A daemon starts with what was loaded for each pair, and with nothing
/// remembered where nothing was.
pub proof fn daemons_start_with_what_was_loaded(
    config: Arc<CrossBagConfig>,
    loaded: Vec<Option<SyncState>>,
    res: SyncDaemon,
    i: int,
)
    requires
        call_ensures(SyncDaemon::new, (config, loaded), res),
        loaded@.len() == config.sync_pairs@.len(),
        0 <= i < loaded@.len(),
        forall|j: int|
            i < j < loaded@.len() ==> (#[trigger] config.sync_pairs@[j]).id@
                != config.sync_pairs@[i].id@,
    ensures
        ({
            let id = config.sync_pairs@[i].id@;
            &&& res.states().contains_key(id)
            &&& loaded@[i] matches Some(s) ==> res.states()[id] == s
            &&& loaded@[i] is None ==> res.states()[id].pair_id@ == id
                && res.states()[id].files@.dom() == Set::<Seq<char>>::empty()
        }),
        res.settings() == *config,
{
    let pairs = config.sync_pairs@;
    assert(pairs[i].id@ == config.sync_pairs@[i].id@);
    assert(config::has_pair(pairs, pairs[i].id@));
    assert(last_of_its_name(pairs, i));
    if loaded@[i] is None {
        let files = res.states()[pairs[i].id@].files;
        assert(state::files_view(files).dom() =~= files@.dom());
    }
}

/// The pair that is worked on is the first of the name; without one the name is
/// told.
pub proof fn pairs_are_known_by_name(
    daemon: &SyncDaemon,
    pair_id: &str,
    res: Result<&SyncPair, DaemonError>,
) -> (n: int)
    requires
        call_ensures(SyncDaemon::find_pair, (daemon, pair_id), res),
    ensures
        ({
            let pairs = daemon.settings().sync_pairs@;
            &&& res matches Ok(pair) ==> 0 <= n < pairs.len() && *pair == pairs[n] && pair.id@
                == pair_id@ && (forall|j: int| 0 <= j < n ==> (#[trigger] pairs[j]).id@ != pair_id@)
            &&& res matches Err(e) ==> (e matches DaemonError::PairNotFound(id) && id@ == pair_id@)
                && (forall|j: int| 0 <= j < pairs.len() ==> (#[trigger] pairs[j]).id@ != pair_id@)
        }),
{
    let pairs = daemon.settings().sync_pairs@;
    match res {
        Ok(pair) => choose|i: int|
            config::first_pair(pairs, pair_id@, i) && *pair == #[trigger] pairs[i],
        Err(_) => 0,
    }
}

/// The files of a pair that have to be hashed are those that the state of this
/// pair, and of no other, finds changed.
pub proof fn states_find_the_changes(
    daemon: &SyncDaemon,
    pair_id: &str,
    listing: &Vec<Listed>,
    now: &Timestamp,
    state: &SyncState,
    res: Result<Vec<bool>, DaemonError>,
    stale: Vec<bool>,
    i: int,
)
    requires
        call_ensures(SyncDaemon::state, (daemon, pair_id), Some(state)),
        call_ensures(SyncDaemon::stale_files, (daemon, pair_id, listing, now), res),
        call_ensures(SyncState::stale_files, (state, listing, now), stale),
        0 <= i < listing@.len(),
    ensures
        res matches Ok(found) && found@.len() == stale@.len() && found@[i] == stale@[i],
{
}

/// Without a state of the pair nothing can be said of its files, and the pair is
/// named.
pub proof fn pairs_without_state_are_refused(
    daemon: &SyncDaemon,
    pair_id: &str,
    listing: &Vec<Listed>,
    now: &Timestamp,
    res: Result<Vec<bool>, DaemonError>,
)
    requires
        call_ensures(SyncDaemon::state, (daemon, pair_id), None),
        call_ensures(SyncDaemon::stale_files, (daemon, pair_id, listing, now), res),
    ensures
        res matches Err(DaemonError::NoState(id)) && id@ == pair_id@,
{
}

/// A full synchronisation of a known pair keeps its new index, and no other; of
/// one whose directory could not be walked it tells why and keeps the old index.
/// What is remembered of the files stays as it is.
pub proof fn full_syncs_keep_the_index(
    daemon: &mut SyncDaemon,
    pair_id: &str,
    built: Result<Table<FileEntry>, String>,
    res: Result<SyncResult, DaemonError>,
    other: Seq<char>,
)
    requires
        call_ensures(SyncDaemon::run_full_sync, (daemon, pair_id, built), res),
        other != pair_id@,
    ensures
        res is Ok <==> exists|j: int|
            0 <= j < old(daemon).settings().sync_pairs@.len() && (#[trigger] old(
                daemon,
            ).settings().sync_pairs@[j]).id@ == pair_id@,
        res matches Ok(r) ==> r.pair_id@ == pair_id@ && r.errors@.len() == (if built is Ok {
            0int
        } else {
            1
        }),
        res is Ok ==> (built matches Ok(index) ==> final(daemon).indexes().contains_key(pair_id@)
            && final(daemon).indexes()[pair_id@] == index),
        res is Err || built is Err ==> final(daemon).indexes() == old(daemon).indexes(),
        final(daemon).indexes().contains_key(other) == old(daemon).indexes().contains_key(other),
        old(daemon).indexes().contains_key(other) ==> final(daemon).indexes()[other] == old(
            daemon,
        ).indexes()[other],
        final(daemon).states() == old(daemon).states(),
{
    if let Ok(r) = res {
        assert(text::texts(r.errors@).len() == r.errors@.len());
    }
}

/// The chunks of a file go to the peer that asked, one for each stretch, with the
/// number of the stretch and its digest.
pub proof fn chunks_carry_their_stretches(
    daemon: &SyncDaemon,
    peer_id: &str,
    path: &str,
    data: &[u8],
    res: Vec<NetworkCommand>,
    i: int,
)
    requires
        call_ensures(SyncDaemon::file_chunks, (daemon, peer_id, path, data), res),
        daemon.settings().advanced.chunk_size > 0,
        (data@.len() + daemon.settings().advanced.chunk_size - 1)
            / daemon.settings().advanced.chunk_size as int <= u32::MAX,
        0 <= i * daemon.settings().advanced.chunk_size < data@.len(),
    ensures
        0 <= i < res@.len(),
        sends_chunk(
            res@[i],
            peer_id@,
            path@,
            i,
            res@.len() as int,
            stretch(data@, daemon.settings().advanced.chunk_size as int, i),
        ),
{
    let size = daemon.settings().advanced.chunk_size as nat;
    let c = size as int;
    let n = data@.len() as int;
    let parts = sync::chunks(data@, size);
    sync::chunks_are_full(data@, size);
    assert(0 <= i < (n + c - 1) / c) by (nonlinear_arith)
        requires
            0 <= i * c < n,
            c > 0,
    ;
    sync::lemma_chunk_at(data@, size, i);
    assert(res@[i]@ == chunk_command(peer_id@, path@, parts, i));
}

} // verus!
