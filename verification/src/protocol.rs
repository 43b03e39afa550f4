//! The messages that nodes exchange.

use vstd::prelude::*;

use crate::clock::Timestamp;
use crate::digest::Digest;
use crate::identity::NodeId;
use crate::text;

pub mod error_codes;

verus! {

/// The version of the protocol.
pub const PROTOCOL_VERSION: u32 = 1;

/// The port that a node listens on by default.
pub const DEFAULT_PORT: u16 = 9527;

/// The default size of a chunk, 64 KiB.
pub const CHUNK_SIZE: usize = 65536;

/// A message.
#[derive(Debug, Clone)]
pub enum Message {
    /// Names a node on a new connection.
    Handshake(Handshake),
    /// Answers a handshake.
    HandshakeAck(HandshakeAck),
    /// Asks to be paired, by a pairing code.
    PairRequest(PairRequest),
    /// Answers a pairing request.
    PairResponse(PairResponse),
    /// Lists the files of a pair.
    FileIndex(FileIndex),
    /// Says what differs from an index.
    FileIndexAck(FileIndexAck),
    /// Asks for files.
    FileRequest(FileRequest),
    /// Announces a file.
    FileResponse(FileResponse),
    /// Carries a stretch of a file.
    FileChunk(FileChunk),
    /// Ends a transfer.
    TransferComplete(TransferComplete),
    /// Gives a sign of life.
    Heartbeat(Heartbeat),
    /// Answers a sign of life.
    HeartbeatAck(HeartbeatAck),
    /// Reports an error.
    Error(ErrorMessage),
}

/// What a node sends first on a connection.
#[derive(Debug, Clone)]
pub struct Handshake {
    pub protocol_version: u32,
    pub node_id: NodeId,
    pub node_name: String,
    pub hostname: String,
}

/// The answer to a handshake.
#[derive(Debug, Clone)]
pub struct HandshakeAck {
    pub accepted: bool,
    pub node_id: NodeId,
    pub node_name: String,
    pub message: Option<String>,
}

/// What a node sends first that connects by a pairing code.
#[derive(Debug, Clone)]
pub struct PairRequest {
    pub protocol_version: u32,
    /// The token out of the pairing code.
    pub auth_token: [u8; 4],
    pub node_id: NodeId,
    pub node_name: String,
    pub hostname: String,
}

/// The answer to a pairing request.
#[derive(Debug, Clone)]
pub struct PairResponse {
    pub accepted: bool,
    pub node_id: NodeId,
    pub node_name: String,
    /// The virtual address of the node that answers.
    pub virtual_ip: Option<String>,
    /// Why the request was refused.
    pub message: Option<String>,
}

/// One file or directory.
#[derive(Debug, Clone)]
pub struct FileEntry {
    /// The path below the root of the pair.
    pub relative_path: String,
    /// The size in bytes.
    pub size: u64,
    pub modified: Timestamp,
    pub hash: Digest,
    pub is_dir: bool,
    /// Always zero.
    pub mode: u32,
}

/// The files that a node has of a pair.
#[derive(Debug, Clone)]
pub struct FileIndex {
    pub pair_id: String,
    pub files: Vec<FileEntry>,
    pub timestamp: Timestamp,
}

/// The answer to an index: what each side lacks.
#[derive(Debug, Clone)]
pub struct FileIndexAck {
    pub pair_id: String,
    /// What the node that answers lacks or has older.
    pub needed_files: Vec<String>,
    /// What the node that answers can give.
    pub offered_files: Vec<String>,
}

/// A request for files.
#[derive(Debug, Clone)]
pub struct FileRequest {
    pub pair_id: String,
    pub files: Vec<String>,
}

/// What is known of a file that will be sent.
#[derive(Debug, Clone)]
pub struct FileResponse {
    pub relative_path: String,
    pub size: u64,
    pub hash: Digest,
    pub chunk_count: u32,
    pub accepted: bool,
    pub error: Option<String>,
}

/// A stretch of a file.
#[derive(Debug, Clone)]
pub struct FileChunk {
    pub relative_path: String,
    /// Counted from zero.
    pub chunk_index: u32,
    pub total_chunks: u32,
    pub data: Vec<u8>,
    /// The digest of `data`.
    pub chunk_hash: Digest,
}

/// The end of a transfer.
#[derive(Debug, Clone)]
pub struct TransferComplete {
    pub relative_path: String,
    pub success: bool,
    pub error: Option<String>,
}

/// A sign of life.
#[derive(Debug, Clone)]
pub struct Heartbeat {
    pub node_id: NodeId,
    pub timestamp: Timestamp,
}

/// The answer to a sign of life.
#[derive(Debug, Clone)]
pub struct HeartbeatAck {
    pub node_id: NodeId,
    pub timestamp: Timestamp,
}

/// An error report.
#[derive(Debug, Clone)]
pub struct ErrorMessage {
    pub code: u32,
    pub message: String,
}

/// What a message says: texts as characters, digests and identifiers as bytes,
/// points in time as seconds and nanoseconds.
#[verifier::ext_equal]
pub ghost enum MessageView {
    Handshake(HandshakeView),
    HandshakeAck(HandshakeAckView),
    PairRequest(PairRequestView),
    PairResponse(PairResponseView),
    FileIndex(FileIndexView),
    FileIndexAck(FileIndexAckView),
    FileRequest(FileRequestView),
    FileResponse(FileResponseView),
    FileChunk(FileChunkView),
    TransferComplete(TransferCompleteView),
    Heartbeat(HeartbeatView),
    HeartbeatAck(HeartbeatAckView),
    Error(ErrorMessageView),
}

#[verifier::ext_equal]
pub ghost struct HandshakeView {
    pub protocol_version: u32,
    pub node_id: Seq<u8>,
    pub node_name: Seq<char>,
    pub hostname: Seq<char>,
}

#[verifier::ext_equal]
pub ghost struct HandshakeAckView {
    pub accepted: bool,
    pub node_id: Seq<u8>,
    pub node_name: Seq<char>,
    pub message: Option<Seq<char>>,
}

#[verifier::ext_equal]
pub ghost struct PairRequestView {
    pub protocol_version: u32,
    pub auth_token: Seq<u8>,
    pub node_id: Seq<u8>,
    pub node_name: Seq<char>,
    pub hostname: Seq<char>,
}

#[verifier::ext_equal]
pub ghost struct PairResponseView {
    pub accepted: bool,
    pub node_id: Seq<u8>,
    pub node_name: Seq<char>,
    pub virtual_ip: Option<Seq<char>>,
    pub message: Option<Seq<char>>,
}

#[verifier::ext_equal]
pub ghost struct FileEntryView {
    pub relative_path: Seq<char>,
    pub size: u64,
    pub modified: (int, int),
    pub hash: Seq<u8>,
    pub is_dir: bool,
    pub mode: u32,
}

#[verifier::ext_equal]
pub ghost struct FileIndexView {
    pub pair_id: Seq<char>,
    pub files: Seq<FileEntryView>,
    pub timestamp: (int, int),
}

#[verifier::ext_equal]
pub ghost struct FileIndexAckView {
    pub pair_id: Seq<char>,
    pub needed_files: Seq<Seq<char>>,
    pub offered_files: Seq<Seq<char>>,
}

#[verifier::ext_equal]
pub ghost struct FileRequestView {
    pub pair_id: Seq<char>,
    pub files: Seq<Seq<char>>,
}

#[verifier::ext_equal]
pub ghost struct FileResponseView {
    pub relative_path: Seq<char>,
    pub size: u64,
    pub hash: Seq<u8>,
    pub chunk_count: u32,
    pub accepted: bool,
    pub error: Option<Seq<char>>,
}

#[verifier::ext_equal]
pub ghost struct FileChunkView {
    pub relative_path: Seq<char>,
    pub chunk_index: u32,
    pub total_chunks: u32,
    pub data: Seq<u8>,
    pub chunk_hash: Seq<u8>,
}

#[verifier::ext_equal]
pub ghost struct TransferCompleteView {
    pub relative_path: Seq<char>,
    pub success: bool,
    pub error: Option<Seq<char>>,
}

#[verifier::ext_equal]
pub ghost struct HeartbeatView {
    pub node_id: Seq<u8>,
    pub timestamp: (int, int),
}

#[verifier::ext_equal]
pub ghost struct HeartbeatAckView {
    pub node_id: Seq<u8>,
    pub timestamp: (int, int),
}

#[verifier::ext_equal]
pub ghost struct ErrorMessageView {
    pub code: u32,
    pub message: Seq<char>,
}

/// The two entries agree in everything.
pub open spec fn is_copy(a: FileEntry, b: FileEntry) -> bool {
    &&& a.relative_path@ == b.relative_path@
    &&& a.size == b.size
    &&& a.modified@ == b.modified@
    &&& a.hash.bytes@ == b.hash.bytes@
    &&& a.is_dir == b.is_dir
    &&& a.mode == b.mode
}

/// One of the entries has the relative path `p`.
pub open spec fn names_path(v: Seq<FileEntry>, p: Seq<char>) -> bool {
    exists|n: int| 0 <= n < v.len() && (#[trigger] v[n]).relative_path@ == p
}

/// What the entries of an index say.
pub open spec fn entry_views(entries: Seq<FileEntry>) -> Seq<FileEntryView> {
    entries.map_values(|e: FileEntry| e@)
}

impl View for Handshake {
    type V = HandshakeView;

    open spec fn view(&self) -> HandshakeView {
        HandshakeView {
            protocol_version: self.protocol_version,
            node_id: self.node_id@,
            node_name: self.node_name@,
            hostname: self.hostname@,
        }
    }
}

impl View for HandshakeAck {
    type V = HandshakeAckView;

    open spec fn view(&self) -> HandshakeAckView {
        HandshakeAckView {
            accepted: self.accepted,
            node_id: self.node_id@,
            node_name: self.node_name@,
            message: text::option_text(self.message),
        }
    }
}

impl View for PairRequest {
    type V = PairRequestView;

    open spec fn view(&self) -> PairRequestView {
        PairRequestView {
            protocol_version: self.protocol_version,
            auth_token: self.auth_token@,
            node_id: self.node_id@,
            node_name: self.node_name@,
            hostname: self.hostname@,
        }
    }
}

impl View for PairResponse {
    type V = PairResponseView;

    open spec fn view(&self) -> PairResponseView {
        PairResponseView {
            accepted: self.accepted,
            node_id: self.node_id@,
            node_name: self.node_name@,
            virtual_ip: text::option_text(self.virtual_ip),
            message: text::option_text(self.message),
        }
    }
}

impl View for FileEntry {
    type V = FileEntryView;

    open spec fn view(&self) -> FileEntryView {
        FileEntryView {
            relative_path: self.relative_path@,
            size: self.size,
            modified: self.modified@,
            hash: self.hash@,
            is_dir: self.is_dir,
            mode: self.mode,
        }
    }
}

impl View for FileIndex {
    type V = FileIndexView;

    open spec fn view(&self) -> FileIndexView {
        FileIndexView {
            pair_id: self.pair_id@,
            files: entry_views(self.files@),
            timestamp: self.timestamp@,
        }
    }
}

impl View for FileIndexAck {
    type V = FileIndexAckView;

    open spec fn view(&self) -> FileIndexAckView {
        FileIndexAckView {
            pair_id: self.pair_id@,
            needed_files: text::texts(self.needed_files@),
            offered_files: text::texts(self.offered_files@),
        }
    }
}

impl View for FileRequest {
    type V = FileRequestView;

    open spec fn view(&self) -> FileRequestView {
        FileRequestView {
            pair_id: self.pair_id@,
            files: text::texts(self.files@),
        }
    }
}

impl View for FileResponse {
    type V = FileResponseView;

    open spec fn view(&self) -> FileResponseView {
        FileResponseView {
            relative_path: self.relative_path@,
            size: self.size,
            hash: self.hash@,
            chunk_count: self.chunk_count,
            accepted: self.accepted,
            error: text::option_text(self.error),
        }
    }
}

impl View for FileChunk {
    type V = FileChunkView;

    open spec fn view(&self) -> FileChunkView {
        FileChunkView {
            relative_path: self.relative_path@,
            chunk_index: self.chunk_index,
            total_chunks: self.total_chunks,
            data: self.data@,
            chunk_hash: self.chunk_hash@,
        }
    }
}

impl View for TransferComplete {
    type V = TransferCompleteView;

    open spec fn view(&self) -> TransferCompleteView {
        TransferCompleteView {
            relative_path: self.relative_path@,
            success: self.success,
            error: text::option_text(self.error),
        }
    }
}

impl View for Heartbeat {
    type V = HeartbeatView;

    open spec fn view(&self) -> HeartbeatView {
        HeartbeatView {
            node_id: self.node_id@,
            timestamp: self.timestamp@,
        }
    }
}

impl View for HeartbeatAck {
    type V = HeartbeatAckView;

    open spec fn view(&self) -> HeartbeatAckView {
        HeartbeatAckView {
            node_id: self.node_id@,
            timestamp: self.timestamp@,
        }
    }
}

impl View for ErrorMessage {
    type V = ErrorMessageView;

    open spec fn view(&self) -> ErrorMessageView {
        ErrorMessageView {
            code: self.code,
            message: self.message@,
        }
    }
}

impl View for Message {
    type V = MessageView;

    open spec fn view(&self) -> MessageView {
        match *self {
            Message::Handshake(m) => MessageView::Handshake(m@),
            Message::HandshakeAck(m) => MessageView::HandshakeAck(m@),
            Message::PairRequest(m) => MessageView::PairRequest(m@),
            Message::PairResponse(m) => MessageView::PairResponse(m@),
            Message::FileIndex(m) => MessageView::FileIndex(m@),
            Message::FileIndexAck(m) => MessageView::FileIndexAck(m@),
            Message::FileRequest(m) => MessageView::FileRequest(m@),
            Message::FileResponse(m) => MessageView::FileResponse(m@),
            Message::FileChunk(m) => MessageView::FileChunk(m@),
            Message::TransferComplete(m) => MessageView::TransferComplete(m@),
            Message::Heartbeat(m) => MessageView::Heartbeat(m@),
            Message::HeartbeatAck(m) => MessageView::HeartbeatAck(m@),
            Message::Error(m) => MessageView::Error(m@),
        }
    }
}

impl FileEntry {
    /// Whether two entries have the same content: the same digest.
    pub fn is_same_as(&self, other: &FileEntry) -> (res: bool)
        ensures
            res == (self@.hash == other@.hash),
    {
        self.hash.same(&other.hash)
    }

    /// A copy of the entry.
    pub fn copy(&self) -> (res: FileEntry)
        ensures
            res == *self,
    {
        FileEntry {
            relative_path: self.relative_path.clone(),
            size: self.size,
            modified: self.modified,
            hash: self.hash,
            is_dir: self.is_dir,
            mode: self.mode,
        }
    }
}

/// Both texts are missing, or both are there and the same.
pub open spec fn same_option(a: Option<String>, b: Option<String>) -> bool {
    match (a, b) {
        (Some(s), Some(t)) => s@ == t@,
        (None, None) => true,
        _ => false,
    }
}

/// The same texts in the same order.
pub open spec fn same_texts(a: Seq<String>, b: Seq<String>) -> bool {
    a.len() == b.len() && forall|i: int| 0 <= i < a.len() ==> (#[trigger] a[i])@ == b[i]@
}

/// The same entries in the same order.
pub open spec fn same_entries(a: Seq<FileEntry>, b: Seq<FileEntry>) -> bool {
    a.len() == b.len() && forall|i: int| 0 <= i < a.len() ==> is_copy(#[trigger] a[i], b[i])
}

/// The two messages are of one kind and agree in everything.
pub open spec fn same_message(a: Message, b: Message) -> bool {
    match (a, b) {
        (Message::Handshake(x), Message::Handshake(y)) => x.protocol_version == y.protocol_version
            && x.node_id.bytes@ == y.node_id.bytes@ && x.node_name@ == y.node_name@ && x.hostname@
            == y.hostname@,
        (Message::HandshakeAck(x), Message::HandshakeAck(y)) => x.accepted == y.accepted
            && x.node_id.bytes@ == y.node_id.bytes@ && x.node_name@ == y.node_name@
            && same_option(x.message, y.message),
        (Message::PairRequest(x), Message::PairRequest(y)) => x.protocol_version
            == y.protocol_version && x.auth_token@ == y.auth_token@ && x.node_id.bytes@
            == y.node_id.bytes@ && x.node_name@ == y.node_name@ && x.hostname@ == y.hostname@,
        (Message::PairResponse(x), Message::PairResponse(y)) => x.accepted == y.accepted
            && x.node_id.bytes@ == y.node_id.bytes@ && x.node_name@ == y.node_name@
            && same_option(x.virtual_ip, y.virtual_ip) && same_option(x.message, y.message),
        (Message::FileIndex(x), Message::FileIndex(y)) => x.pair_id@ == y.pair_id@ && same_entries(
            x.files@,
            y.files@,
        ) && x.timestamp@ == y.timestamp@,
        (Message::FileIndexAck(x), Message::FileIndexAck(y)) => x.pair_id@ == y.pair_id@
            && same_texts(x.needed_files@, y.needed_files@) && same_texts(
            x.offered_files@,
            y.offered_files@,
        ),
        (Message::FileRequest(x), Message::FileRequest(y)) => x.pair_id@ == y.pair_id@
            && same_texts(x.files@, y.files@),
        (Message::FileResponse(x), Message::FileResponse(y)) => x.relative_path@
            == y.relative_path@ && x.size == y.size && x.hash.bytes@ == y.hash.bytes@
            && x.chunk_count == y.chunk_count && x.accepted == y.accepted && same_option(
            x.error,
            y.error,
        ),
        (Message::FileChunk(x), Message::FileChunk(y)) => x.relative_path@ == y.relative_path@
            && x.chunk_index == y.chunk_index && x.total_chunks == y.total_chunks && x.data@
            == y.data@ && x.chunk_hash.bytes@ == y.chunk_hash.bytes@,
        (Message::TransferComplete(x), Message::TransferComplete(y)) => x.relative_path@
            == y.relative_path@ && x.success == y.success && same_option(x.error, y.error),
        (Message::Heartbeat(x), Message::Heartbeat(y)) => x.node_id.bytes@ == y.node_id.bytes@
            && x.timestamp@ == y.timestamp@,
        (Message::HeartbeatAck(x), Message::HeartbeatAck(y)) => x.node_id.bytes@
            == y.node_id.bytes@ && x.timestamp@ == y.timestamp@,
        (Message::Error(x), Message::Error(y)) => x.code == y.code && x.message@ == y.message@,
        _ => false,
    }
}

pub(crate) proof fn lemma_same_texts(a: Seq<String>, b: Seq<String>)
    requires
        text::texts(a) == text::texts(b),
    ensures
        same_texts(a, b),
{
    assert(text::texts(a).len() == a.len() && text::texts(b).len() == b.len());
    assert forall|i: int| 0 <= i < a.len() implies (#[trigger] a[i])@ == b[i]@ by {
        assert(text::texts(a)[i] == a[i]@ && text::texts(b)[i] == b[i]@);
    }
}

pub(crate) proof fn lemma_same_entries(a: Seq<FileEntry>, b: Seq<FileEntry>)
    requires
        entry_views(a) == entry_views(b),
    ensures
        same_entries(a, b),
{
    assert(entry_views(a).len() == a.len() && entry_views(b).len() == b.len());
    assert forall|i: int| 0 <= i < a.len() implies is_copy(#[trigger] a[i], b[i]) by {
        assert(entry_views(a)[i] == a[i]@ && entry_views(b)[i] == b[i]@);
    }
}

/// What contracts say of messages leaves nothing out: two messages of which they
/// say the same agree in everything.
pub proof fn views_leave_nothing_out(a: Message, b: Message)
    requires
        a@ == b@,
    ensures
        same_message(a, b),
{
    match (a, b) {
        (Message::FileIndex(x), Message::FileIndex(y)) => {
            lemma_same_entries(x.files@, y.files@);
        },
        (Message::FileIndexAck(x), Message::FileIndexAck(y)) => {
            lemma_same_texts(x.needed_files@, y.needed_files@);
            lemma_same_texts(x.offered_files@, y.offered_files@);
        },
        (Message::FileRequest(x), Message::FileRequest(y)) => {
            lemma_same_texts(x.files@, y.files@);
        },
        _ => {},
    }
}

/// Two entries are the same exactly if their digests are, whatever else differs.
pub proof fn digests_decide(a: &FileEntry, b: &FileEntry, res: bool)
    requires
        call_ensures(FileEntry::is_same_as, (a, b), res),
    ensures
        res == (a.hash.bytes@ == b.hash.bytes@),
{
}

} // verus!
