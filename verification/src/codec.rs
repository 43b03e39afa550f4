//! Messages as bytes.
//!
//! A message is the number of its kind, in four bytes, and the values of its
//! fields one after the other. A list is the number of its items, in eight
//! bytes, and the items.

use vstd::prelude::*;

use crate::clock;
use crate::protocol::{
    ErrorMessage, FileChunk, FileEntry, FileIndex, FileIndexAck, FileRequest, FileResponse,
    Handshake, HandshakeAck, Heartbeat, HeartbeatAck, Message, PairRequest, PairResponse,
    TransferComplete,
};
use crate::protocol;
use crate::text;
use crate::wire;
use crate::wire::{
    read_blob, read_bool, read_digest, read_id, read_option, read_text, read_time, read_token,
    read_u32, read_u64, write_blob, write_bool, write_digest, write_id, write_option, write_text,
    write_time, write_token, write_u32, write_u64, WireError,
};
use vstd::utf8;

verus! {

/// A text whose length can be written.
pub open spec fn short_text(v: Seq<char>) -> bool {
    utf8::encode_utf8(v).len() <= u64::MAX
}

pub open spec fn short_option(v: Option<Seq<char>>) -> bool {
    v matches Some(t) ==> short_text(t)
}

/// A point in time that its text writes.
pub open spec fn time_kept(v: (int, int)) -> bool {
    clock::text_time(clock::time_text(v.0, v.1)) == Some(v) && short_text(
        clock::time_text(v.0, v.1),
    )
}

pub open spec fn writable_texts(v: Seq<Seq<char>>) -> bool {
    v.len() <= u64::MAX && forall|i: int| 0 <= i < v.len() ==> short_text(#[trigger] v[i])
}

pub open spec fn writable_entries(v: Seq<protocol::FileEntryView>) -> bool {
    v.len() <= u64::MAX && forall|i: int| 0 <= i < v.len() ==> writable_entry(#[trigger] v[i])
}

/// The items of a list of texts.
pub open spec fn text_items(v: Seq<Seq<char>>) -> Seq<u8>
    decreases v.len(),
{
    if v.len() == 0 {
        Seq::empty()
    } else {
        text_items(v.drop_last()) + wire::text_bytes(v.last())
    }
}

pub open spec fn texts_bytes(v: Seq<Seq<char>>) -> Seq<u8> {
    wire::le_bytes(v.len(), 8) + text_items(v)
}

/// The items of a list of entries.
pub open spec fn entry_items(v: Seq<protocol::FileEntryView>) -> Seq<u8>
    decreases v.len(),
{
    if v.len() == 0 {
        Seq::empty()
    } else {
        entry_items(v.drop_last()) + entry_bytes(v.last())
    }
}

pub open spec fn entries_bytes(v: Seq<protocol::FileEntryView>) -> Seq<u8> {
    wire::le_bytes(v.len(), 8) + entry_items(v)
}

/// The `n` texts at the start of `b`, and what follows them.
pub open spec fn take_text_items(b: Seq<u8>, n: nat) -> Option<(Seq<Seq<char>>, Seq<u8>)>
    decreases n,
{
    if n == 0 {
        Some((Seq::empty(), b))
    } else {
        match take_text_items(b, (n - 1) as nat) {
            None => None,
            Some((items, b)) => match wire::take_text(b) {
                None => None,
                Some((item, b)) => Some((items.push(item), b)),
            },
        }
    }
}

pub open spec fn take_texts(b: Seq<u8>) -> Option<(Seq<Seq<char>>, Seq<u8>)> {
    match wire::take_u64(b) {
        None => None,
        Some((n, b)) => take_text_items(b, n as nat),
    }
}

/// The `n` entries at the start of `b`, and what follows them.
pub open spec fn take_entry_items(b: Seq<u8>, n: nat) -> Option<
    (Seq<protocol::FileEntryView>, Seq<u8>),
>
    decreases n,
{
    if n == 0 {
        Some((Seq::empty(), b))
    } else {
        match take_entry_items(b, (n - 1) as nat) {
            None => None,
            Some((items, b)) => match take_entry(b) {
                None => None,
                Some((item, b)) => Some((items.push(item), b)),
            },
        }
    }
}

pub open spec fn take_entries(b: Seq<u8>) -> Option<(Seq<protocol::FileEntryView>, Seq<u8>)> {
    match wire::take_u64(b) {
        None => None,
        Some((n, b)) => take_entry_items(b, n as nat),
    }
}

pub open spec fn writable_handshake(v: protocol::HandshakeView) -> bool {
    &&& v.node_id.len() == 16
    &&& short_text(v.node_name)
    &&& short_text(v.hostname)
}

pub open spec fn handshake_bytes(v: protocol::HandshakeView) -> Seq<u8> {
    wire::le_bytes(v.protocol_version as nat, 4) + wire::blob_bytes(v.node_id)
        + wire::text_bytes(v.node_name) + wire::text_bytes(v.hostname)
}

#[verifier::opaque]
pub open spec fn take_handshake(b: Seq<u8>) -> Option<(protocol::HandshakeView, Seq<u8>)> {
    match wire::take_u32(b) {
        None => None,
        Some((protocol_version, b)) => match wire::take_id(b) {
            None => None,
            Some((node_id, b)) => match wire::take_text(b) {
                None => None,
                Some((node_name, b)) => match wire::take_text(b) {
                    None => None,
                    Some((hostname, b)) => Some((
                        protocol::HandshakeView {
                            protocol_version,
                            node_id,
                            node_name,
                            hostname,
                        },
                        b,
                    )),
                },
            },
        },
    }
}

pub open spec fn writable_handshake_ack(v: protocol::HandshakeAckView) -> bool {
    &&& v.node_id.len() == 16
    &&& short_text(v.node_name)
    &&& short_option(v.message)
}

pub open spec fn handshake_ack_bytes(v: protocol::HandshakeAckView) -> Seq<u8> {
    wire::bool_bytes(v.accepted) + wire::blob_bytes(v.node_id) + wire::text_bytes(v.node_name)
        + wire::option_bytes(v.message)
}

#[verifier::opaque]
pub open spec fn take_handshake_ack(b: Seq<u8>) -> Option<(protocol::HandshakeAckView, Seq<u8>)> {
    match wire::take_bool(b) {
        None => None,
        Some((accepted, b)) => match wire::take_id(b) {
            None => None,
            Some((node_id, b)) => match wire::take_text(b) {
                None => None,
                Some((node_name, b)) => match wire::take_option(b) {
                    None => None,
                    Some((message, b)) => Some((
                        protocol::HandshakeAckView {
                            accepted,
                            node_id,
                            node_name,
                            message,
                        },
                        b,
                    )),
                },
            },
        },
    }
}

pub open spec fn writable_pair_request(v: protocol::PairRequestView) -> bool {
    &&& v.auth_token.len() == 4
    &&& v.node_id.len() == 16
    &&& short_text(v.node_name)
    &&& short_text(v.hostname)
}

pub open spec fn pair_request_bytes(v: protocol::PairRequestView) -> Seq<u8> {
    wire::le_bytes(v.protocol_version as nat, 4) + v.auth_token + wire::blob_bytes(v.node_id)
        + wire::text_bytes(v.node_name) + wire::text_bytes(v.hostname)
}

#[verifier::opaque]
pub open spec fn take_pair_request(b: Seq<u8>) -> Option<(protocol::PairRequestView, Seq<u8>)> {
    match wire::take_u32(b) {
        None => None,
        Some((protocol_version, b)) => match wire::take_raw(b, 4) {
            None => None,
            Some((auth_token, b)) => match wire::take_id(b) {
                None => None,
                Some((node_id, b)) => match wire::take_text(b) {
                    None => None,
                    Some((node_name, b)) => match wire::take_text(b) {
                        None => None,
                        Some((hostname, b)) => Some((
                            protocol::PairRequestView {
                                protocol_version,
                                auth_token,
                                node_id,
                                node_name,
                                hostname,
                            },
                            b,
                        )),
                    },
                },
            },
        },
    }
}

pub open spec fn writable_pair_response(v: protocol::PairResponseView) -> bool {
    &&& v.node_id.len() == 16
    &&& short_text(v.node_name)
    &&& short_option(v.virtual_ip)
    &&& short_option(v.message)
}

pub open spec fn pair_response_bytes(v: protocol::PairResponseView) -> Seq<u8> {
    wire::bool_bytes(v.accepted) + wire::blob_bytes(v.node_id) + wire::text_bytes(v.node_name)
        + wire::option_bytes(v.virtual_ip) + wire::option_bytes(v.message)
}

#[verifier::opaque]
pub open spec fn take_pair_response(b: Seq<u8>) -> Option<(protocol::PairResponseView, Seq<u8>)> {
    match wire::take_bool(b) {
        None => None,
        Some((accepted, b)) => match wire::take_id(b) {
            None => None,
            Some((node_id, b)) => match wire::take_text(b) {
                None => None,
                Some((node_name, b)) => match wire::take_option(b) {
                    None => None,
                    Some((virtual_ip, b)) => match wire::take_option(b) {
                        None => None,
                        Some((message, b)) => Some((
                            protocol::PairResponseView {
                                accepted,
                                node_id,
                                node_name,
                                virtual_ip,
                                message,
                            },
                            b,
                        )),
                    },
                },
            },
        },
    }
}

pub open spec fn writable_entry(v: protocol::FileEntryView) -> bool {
    &&& short_text(v.relative_path)
    &&& time_kept(v.modified)
    &&& v.hash.len() == 32
}

pub open spec fn entry_bytes(v: protocol::FileEntryView) -> Seq<u8> {
    wire::text_bytes(v.relative_path) + wire::le_bytes(v.size as nat, 8)
        + wire::time_bytes(v.modified) + v.hash + wire::bool_bytes(v.is_dir)
        + wire::le_bytes(v.mode as nat, 4)
}

#[verifier::opaque]
pub open spec fn take_entry(b: Seq<u8>) -> Option<(protocol::FileEntryView, Seq<u8>)> {
    match wire::take_text(b) {
        None => None,
        Some((relative_path, b)) => match wire::take_u64(b) {
            None => None,
            Some((size, b)) => match wire::take_time(b) {
                None => None,
                Some((modified, b)) => match wire::take_raw(b, 32) {
                    None => None,
                    Some((hash, b)) => match wire::take_bool(b) {
                        None => None,
                        Some((is_dir, b)) => match wire::take_u32(b) {
                            None => None,
                            Some((mode, b)) => Some((
                                protocol::FileEntryView {
                                    relative_path,
                                    size,
                                    modified,
                                    hash,
                                    is_dir,
                                    mode,
                                },
                                b,
                            )),
                        },
                    },
                },
            },
        },
    }
}

pub open spec fn writable_file_index(v: protocol::FileIndexView) -> bool {
    &&& short_text(v.pair_id)
    &&& writable_entries(v.files)
    &&& time_kept(v.timestamp)
}

pub open spec fn file_index_bytes(v: protocol::FileIndexView) -> Seq<u8> {
    wire::text_bytes(v.pair_id) + entries_bytes(v.files) + wire::time_bytes(v.timestamp)
}

#[verifier::opaque]
pub open spec fn take_file_index(b: Seq<u8>) -> Option<(protocol::FileIndexView, Seq<u8>)> {
    match wire::take_text(b) {
        None => None,
        Some((pair_id, b)) => match take_entries(b) {
            None => None,
            Some((files, b)) => match wire::take_time(b) {
                None => None,
                Some((timestamp, b)) => Some((
                    protocol::FileIndexView {
                        pair_id,
                        files,
                        timestamp,
                    },
                    b,
                )),
            },
        },
    }
}

pub open spec fn writable_file_index_ack(v: protocol::FileIndexAckView) -> bool {
    &&& short_text(v.pair_id)
    &&& writable_texts(v.needed_files)
    &&& writable_texts(v.offered_files)
}

pub open spec fn file_index_ack_bytes(v: protocol::FileIndexAckView) -> Seq<u8> {
    wire::text_bytes(v.pair_id) + texts_bytes(v.needed_files) + texts_bytes(v.offered_files)
}

#[verifier::opaque]
pub open spec fn take_file_index_ack(b: Seq<u8>) -> Option<(protocol::FileIndexAckView, Seq<u8>)> {
    match wire::take_text(b) {
        None => None,
        Some((pair_id, b)) => match take_texts(b) {
            None => None,
            Some((needed_files, b)) => match take_texts(b) {
                None => None,
                Some((offered_files, b)) => Some((
                    protocol::FileIndexAckView {
                        pair_id,
                        needed_files,
                        offered_files,
                    },
                    b,
                )),
            },
        },
    }
}

pub open spec fn writable_file_request(v: protocol::FileRequestView) -> bool {
    &&& short_text(v.pair_id)
    &&& writable_texts(v.files)
}

pub open spec fn file_request_bytes(v: protocol::FileRequestView) -> Seq<u8> {
    wire::text_bytes(v.pair_id) + texts_bytes(v.files)
}

#[verifier::opaque]
pub open spec fn take_file_request(b: Seq<u8>) -> Option<(protocol::FileRequestView, Seq<u8>)> {
    match wire::take_text(b) {
        None => None,
        Some((pair_id, b)) => match take_texts(b) {
            None => None,
            Some((files, b)) => Some((protocol::FileRequestView { pair_id, files }, b)),
        },
    }
}

pub open spec fn writable_file_response(v: protocol::FileResponseView) -> bool {
    &&& short_text(v.relative_path)
    &&& v.hash.len() == 32
    &&& short_option(v.error)
}

pub open spec fn file_response_bytes(v: protocol::FileResponseView) -> Seq<u8> {
    wire::text_bytes(v.relative_path) + wire::le_bytes(v.size as nat, 8) + v.hash
        + wire::le_bytes(v.chunk_count as nat, 4) + wire::bool_bytes(v.accepted)
        + wire::option_bytes(v.error)
}

#[verifier::opaque]
pub open spec fn take_file_response(b: Seq<u8>) -> Option<(protocol::FileResponseView, Seq<u8>)> {
    match wire::take_text(b) {
        None => None,
        Some((relative_path, b)) => match wire::take_u64(b) {
            None => None,
            Some((size, b)) => match wire::take_raw(b, 32) {
                None => None,
                Some((hash, b)) => match wire::take_u32(b) {
                    None => None,
                    Some((chunk_count, b)) => match wire::take_bool(b) {
                        None => None,
                        Some((accepted, b)) => match wire::take_option(b) {
                            None => None,
                            Some((error, b)) => Some((
                                protocol::FileResponseView {
                                    relative_path,
                                    size,
                                    hash,
                                    chunk_count,
                                    accepted,
                                    error,
                                },
                                b,
                            )),
                        },
                    },
                },
            },
        },
    }
}

pub open spec fn writable_file_chunk(v: protocol::FileChunkView) -> bool {
    &&& short_text(v.relative_path)
    &&& v.data.len() <= u64::MAX
    &&& v.chunk_hash.len() == 32
}

pub open spec fn file_chunk_bytes(v: protocol::FileChunkView) -> Seq<u8> {
    wire::text_bytes(v.relative_path) + wire::le_bytes(v.chunk_index as nat, 4)
        + wire::le_bytes(v.total_chunks as nat, 4) + wire::blob_bytes(v.data) + v.chunk_hash
}

#[verifier::opaque]
pub open spec fn take_file_chunk(b: Seq<u8>) -> Option<(protocol::FileChunkView, Seq<u8>)> {
    match wire::take_text(b) {
        None => None,
        Some((relative_path, b)) => match wire::take_u32(b) {
            None => None,
            Some((chunk_index, b)) => match wire::take_u32(b) {
                None => None,
                Some((total_chunks, b)) => match wire::take_blob(b) {
                    None => None,
                    Some((data, b)) => match wire::take_raw(b, 32) {
                        None => None,
                        Some((chunk_hash, b)) => Some((
                            protocol::FileChunkView {
                                relative_path,
                                chunk_index,
                                total_chunks,
                                data,
                                chunk_hash,
                            },
                            b,
                        )),
                    },
                },
            },
        },
    }
}

pub open spec fn writable_transfer_complete(v: protocol::TransferCompleteView) -> bool {
    &&& short_text(v.relative_path)
    &&& short_option(v.error)
}

pub open spec fn transfer_complete_bytes(v: protocol::TransferCompleteView) -> Seq<u8> {
    wire::text_bytes(v.relative_path) + wire::bool_bytes(v.success) + wire::option_bytes(v.error)
}

#[verifier::opaque]
pub open spec fn take_transfer_complete(b: Seq<u8>) -> Option<
    (protocol::TransferCompleteView, Seq<u8>),
> {
    match wire::take_text(b) {
        None => None,
        Some((relative_path, b)) => match wire::take_bool(b) {
            None => None,
            Some((success, b)) => match wire::take_option(b) {
                None => None,
                Some((error, b)) => Some((
                    protocol::TransferCompleteView {
                        relative_path,
                        success,
                        error,
                    },
                    b,
                )),
            },
        },
    }
}

pub open spec fn writable_heartbeat(v: protocol::HeartbeatView) -> bool {
    &&& v.node_id.len() == 16
    &&& time_kept(v.timestamp)
}

pub open spec fn heartbeat_bytes(v: protocol::HeartbeatView) -> Seq<u8> {
    wire::blob_bytes(v.node_id) + wire::time_bytes(v.timestamp)
}

#[verifier::opaque]
pub open spec fn take_heartbeat(b: Seq<u8>) -> Option<(protocol::HeartbeatView, Seq<u8>)> {
    match wire::take_id(b) {
        None => None,
        Some((node_id, b)) => match wire::take_time(b) {
            None => None,
            Some((timestamp, b)) => Some((protocol::HeartbeatView { node_id, timestamp }, b)),
        },
    }
}

pub open spec fn writable_heartbeat_ack(v: protocol::HeartbeatAckView) -> bool {
    &&& v.node_id.len() == 16
    &&& time_kept(v.timestamp)
}

pub open spec fn heartbeat_ack_bytes(v: protocol::HeartbeatAckView) -> Seq<u8> {
    wire::blob_bytes(v.node_id) + wire::time_bytes(v.timestamp)
}

#[verifier::opaque]
pub open spec fn take_heartbeat_ack(b: Seq<u8>) -> Option<(protocol::HeartbeatAckView, Seq<u8>)> {
    match wire::take_id(b) {
        None => None,
        Some((node_id, b)) => match wire::take_time(b) {
            None => None,
            Some((timestamp, b)) => Some((protocol::HeartbeatAckView { node_id, timestamp }, b)),
        },
    }
}

pub open spec fn writable_error(v: protocol::ErrorMessageView) -> bool {
    &&& short_text(v.message)
}

pub open spec fn error_bytes(v: protocol::ErrorMessageView) -> Seq<u8> {
    wire::le_bytes(v.code as nat, 4) + wire::text_bytes(v.message)
}

#[verifier::opaque]
pub open spec fn take_error(b: Seq<u8>) -> Option<(protocol::ErrorMessageView, Seq<u8>)> {
    match wire::take_u32(b) {
        None => None,
        Some((code, b)) => match wire::take_text(b) {
            None => None,
            Some((message, b)) => Some((protocol::ErrorMessageView { code, message }, b)),
        },
    }
}

/// The number of a message's kind.
pub open spec fn kind_of(m: protocol::MessageView) -> u32 {
    match m {
        protocol::MessageView::Handshake(_) => 0,
        protocol::MessageView::HandshakeAck(_) => 1,
        protocol::MessageView::PairRequest(_) => 2,
        protocol::MessageView::PairResponse(_) => 3,
        protocol::MessageView::FileIndex(_) => 4,
        protocol::MessageView::FileIndexAck(_) => 5,
        protocol::MessageView::FileRequest(_) => 6,
        protocol::MessageView::FileResponse(_) => 7,
        protocol::MessageView::FileChunk(_) => 8,
        protocol::MessageView::TransferComplete(_) => 9,
        protocol::MessageView::Heartbeat(_) => 10,
        protocol::MessageView::HeartbeatAck(_) => 11,
        protocol::MessageView::Error(_) => 12,
    }
}

/// The bytes of a message's fields.
pub open spec fn body_bytes(m: protocol::MessageView) -> Seq<u8> {
    match m {
        protocol::MessageView::Handshake(v) => handshake_bytes(v),
        protocol::MessageView::HandshakeAck(v) => handshake_ack_bytes(v),
        protocol::MessageView::PairRequest(v) => pair_request_bytes(v),
        protocol::MessageView::PairResponse(v) => pair_response_bytes(v),
        protocol::MessageView::FileIndex(v) => file_index_bytes(v),
        protocol::MessageView::FileIndexAck(v) => file_index_ack_bytes(v),
        protocol::MessageView::FileRequest(v) => file_request_bytes(v),
        protocol::MessageView::FileResponse(v) => file_response_bytes(v),
        protocol::MessageView::FileChunk(v) => file_chunk_bytes(v),
        protocol::MessageView::TransferComplete(v) => transfer_complete_bytes(v),
        protocol::MessageView::Heartbeat(v) => heartbeat_bytes(v),
        protocol::MessageView::HeartbeatAck(v) => heartbeat_ack_bytes(v),
        protocol::MessageView::Error(v) => error_bytes(v),
    }
}

/// The bytes of a message.
pub open spec fn message_bytes(m: protocol::MessageView) -> Seq<u8> {
    wire::le_bytes(kind_of(m) as nat, 4) + body_bytes(m)
}

/// The message can be written, and what it says survives.
pub open spec fn writable(m: protocol::MessageView) -> bool {
    match m {
        protocol::MessageView::Handshake(v) => writable_handshake(v),
        protocol::MessageView::HandshakeAck(v) => writable_handshake_ack(v),
        protocol::MessageView::PairRequest(v) => writable_pair_request(v),
        protocol::MessageView::PairResponse(v) => writable_pair_response(v),
        protocol::MessageView::FileIndex(v) => writable_file_index(v),
        protocol::MessageView::FileIndexAck(v) => writable_file_index_ack(v),
        protocol::MessageView::FileRequest(v) => writable_file_request(v),
        protocol::MessageView::FileResponse(v) => writable_file_response(v),
        protocol::MessageView::FileChunk(v) => writable_file_chunk(v),
        protocol::MessageView::TransferComplete(v) => writable_transfer_complete(v),
        protocol::MessageView::Heartbeat(v) => writable_heartbeat(v),
        protocol::MessageView::HeartbeatAck(v) => writable_heartbeat_ack(v),
        protocol::MessageView::Error(v) => writable_error(v),
    }
}

/// The message of this kind whose fields `b` starts with, if it does.
pub open spec fn body_of(kind: u32, b: Seq<u8>) -> Option<protocol::MessageView> {
    if kind == 0 {
        match take_handshake(b) {
            None => None,
            Some((v, _)) => Some(protocol::MessageView::Handshake(v)),
        }
    } else if kind == 1 {
        match take_handshake_ack(b) {
            None => None,
            Some((v, _)) => Some(protocol::MessageView::HandshakeAck(v)),
        }
    } else if kind == 2 {
        match take_pair_request(b) {
            None => None,
            Some((v, _)) => Some(protocol::MessageView::PairRequest(v)),
        }
    } else if kind == 3 {
        match take_pair_response(b) {
            None => None,
            Some((v, _)) => Some(protocol::MessageView::PairResponse(v)),
        }
    } else if kind == 4 {
        match take_file_index(b) {
            None => None,
            Some((v, _)) => Some(protocol::MessageView::FileIndex(v)),
        }
    } else if kind == 5 {
        match take_file_index_ack(b) {
            None => None,
            Some((v, _)) => Some(protocol::MessageView::FileIndexAck(v)),
        }
    } else if kind == 6 {
        match take_file_request(b) {
            None => None,
            Some((v, _)) => Some(protocol::MessageView::FileRequest(v)),
        }
    } else if kind == 7 {
        match take_file_response(b) {
            None => None,
            Some((v, _)) => Some(protocol::MessageView::FileResponse(v)),
        }
    } else if kind == 8 {
        match take_file_chunk(b) {
            None => None,
            Some((v, _)) => Some(protocol::MessageView::FileChunk(v)),
        }
    } else if kind == 9 {
        match take_transfer_complete(b) {
            None => None,
            Some((v, _)) => Some(protocol::MessageView::TransferComplete(v)),
        }
    } else if kind == 10 {
        match take_heartbeat(b) {
            None => None,
            Some((v, _)) => Some(protocol::MessageView::Heartbeat(v)),
        }
    } else if kind == 11 {
        match take_heartbeat_ack(b) {
            None => None,
            Some((v, _)) => Some(protocol::MessageView::HeartbeatAck(v)),
        }
    } else if kind == 12 {
        match take_error(b) {
            None => None,
            Some((v, _)) => Some(protocol::MessageView::Error(v)),
        }
    } else {
        None
    }
}

/// The message that `b` starts with, if it starts with one. What follows the
/// message does not matter.
pub open spec fn message_of(b: Seq<u8>) -> Option<protocol::MessageView> {
    match wire::take_u32(b) {
        None => None,
        Some((kind, b)) => body_of(kind, b),
    }
}

/// `a` and then `b`.
fn chained(a: Vec<u8>, b: Vec<u8>) -> (res: Vec<u8>)
    ensures
        res@ == a@ + b@,
{
    let mut res = a;
    let mut more = b;
    res.append(&mut more);
    res
}

fn write_entry(m: &FileEntry) -> (res: Result<Vec<u8>, WireError>)
    ensures
        res is Ok,
        res->Ok_0@ == entry_bytes(m@),
        writable_entry(m@),
{
    let b = write_text(&m.relative_path)?;
    let b1 = write_u64(m.size)?;
    let b2 = write_time(&m.modified)?;
    let b3 = write_digest(&m.hash)?;
    let b4 = write_bool(m.is_dir)?;
    let b5 = write_u32(m.mode)?;
    let b = chained(b, b1);
    let b = chained(b, b2);
    let b = chained(b, b3);
    let b = chained(b, b4);
    let b = chained(b, b5);
    Ok(b)
}

fn read_entry(bytes: &[u8], pos: usize) -> (res: Option<(FileEntry, usize)>)
    requires
        pos <= bytes@.len(),
    ensures
        wire::moves(
            bytes@,
            pos,
            take_entry(bytes@.skip(pos as int)),
            match res {
                Some((v, p)) => Some((v@, p)),
                None => None,
            },
        ),
{
    proof {
        reveal(take_entry);
    }
    let (relative_path, pos) = read_text(bytes, pos)?;
    let (size, pos) = read_u64(bytes, pos)?;
    let (modified, pos) = read_time(bytes, pos)?;
    let (hash, pos) = read_digest(bytes, pos)?;
    let (is_dir, pos) = read_bool(bytes, pos)?;
    let (mode, pos) = read_u32(bytes, pos)?;
    Some((FileEntry { relative_path, size, modified, hash, is_dir, mode }, pos))
}

proof fn entry_reads_back(v: protocol::FileEntryView, rest: Seq<u8>)
    requires
        writable_entry(v),
    ensures
        take_entry(entry_bytes(v) + rest) == Some((v, rest)),
{
    reveal(take_entry);
    let r5 = wire::le_bytes(v.mode as nat, 4) + rest;
    let r4 = wire::bool_bytes(v.is_dir) + r5;
    let r3 = v.hash + r4;
    let r2 = wire::time_bytes(v.modified) + r3;
    let r1 = wire::le_bytes(v.size as nat, 8) + r2;
    assert(entry_bytes(v) + rest =~= wire::text_bytes(v.relative_path) + r1);
    wire::text_reads_back(v.relative_path, r1);
    wire::u64_reads_back(v.size, r2);
    wire::time_reads_back(v.modified, r3);
    wire::raw_reads_back(v.hash, r4);
    wire::bool_reads_back(v.is_dir, r5);
    wire::u32_reads_back(v.mode, rest);
}

fn write_texts(v: &Vec<String>) -> (res: Result<Vec<u8>, WireError>)
    ensures
        res is Ok,
        res->Ok_0@ == texts_bytes(text::texts(v@)),
        writable_texts(text::texts(v@)),
{
    let ghost views = text::texts(v@);
    let mut res = write_u64(v.len() as u64)?;
    let ghost count = res@;
    let mut i: usize = 0;
    assert(res@ =~= count + text_items(views.take(0)));
    while i < v.len()
        invariant
            i <= v@.len(),
            views == text::texts(v@),
            res@ == count + text_items(views.take(i as int)),
            forall|k: int| 0 <= k < i ==> short_text(#[trigger] views[k]),
        decreases v@.len() - i,
    {
        let item = write_text(&v[i])?;
        res = chained(res, item);
        proof {
            let now = views.take(i + 1);
            assert(now.drop_last() =~= views.take(i as int));
            assert(now.last() == views[i as int]);
            assert(res@ =~= count + text_items(now));
        }
        i += 1;
    }
    assert(views.take(i as int) =~= views);
    Ok(res)
}

fn read_texts(bytes: &[u8], pos: usize) -> (res: Option<(Vec<String>, usize)>)
    requires
        pos <= bytes@.len(),
    ensures
        wire::moves(
            bytes@,
            pos,
            take_texts(bytes@.skip(pos as int)),
            match res {
                Some((v, p)) => Some((text::texts(v@), p)),
                None => None,
            },
        ),
{
    let (count, start) = read_u64(bytes, pos)?;
    let ghost b = bytes@.skip(start as int);
    let mut res: Vec<String> = Vec::new();
    let mut at: usize = start;
    let mut i: u64 = 0;
    assert(text::texts(res@) =~= Seq::empty());
    while i < count
        invariant
            pos <= at <= bytes@.len(),
            i <= count,
            b == bytes@.skip(start as int),
            take_texts(bytes@.skip(pos as int)) == take_text_items(b, count as nat),
            take_text_items(b, i as nat) == Some((text::texts(res@), bytes@.skip(at as int))),
        decreases count - i,
    {
        let ghost before = text::texts(res@);
        match read_text(bytes, at) {
            None => {
                proof {
                    lemma_text_items_stop(b, (i + 1) as nat, count as nat);
                }
                return None;
            },
            Some((item, next)) => {
                res.push(item);
                at = next;
                assert(text::texts(res@) =~= before.push(item@));
            },
        }
        i += 1;
    }
    Some((res, at))
}

proof fn lemma_text_items_stop(b: Seq<u8>, m: nat, n: nat)
    requires
        take_text_items(b, m) is None,
        m <= n,
    ensures
        take_text_items(b, n) is None,
    decreases n,
{
    if m < n {
        lemma_text_items_stop(b, m, (n - 1) as nat);
    }
}

proof fn text_items_read_back(v: Seq<Seq<char>>, rest: Seq<u8>)
    requires
        forall|i: int| 0 <= i < v.len() ==> short_text(#[trigger] v[i]),
    ensures
        take_text_items(text_items(v) + rest, v.len()) == Some((v, rest)),
    decreases v.len(),
{
    if v.len() == 0 {
        assert(text_items(v) + rest =~= rest);
        assert(v =~= Seq::empty());
    } else {
        let head = v.drop_last();
        let one = wire::text_bytes(v.last());
        assert(text_items(v) + rest =~= text_items(head) + (one + rest));
        assert(short_text(v[v.len() - 1]));
        assert forall|i: int| 0 <= i < head.len() implies short_text(#[trigger] head[i]) by {
            assert(head[i] == v[i]);
        }
        text_items_read_back(head, one + rest);
        wire::text_reads_back(v.last(), rest);
        assert(head.push(v.last()) =~= v);
    }
}

proof fn texts_read_back(v: Seq<Seq<char>>, rest: Seq<u8>)
    requires
        writable_texts(v),
    ensures
        take_texts(texts_bytes(v) + rest) == Some((v, rest)),
{
    assert(texts_bytes(v) + rest =~= wire::le_bytes(v.len(), 8) + (text_items(v) + rest));
    wire::u64_reads_back(v.len() as u64, text_items(v) + rest);
    text_items_read_back(v, rest);
}

fn write_entries(v: &Vec<FileEntry>) -> (res: Result<Vec<u8>, WireError>)
    ensures
        res is Ok,
        res->Ok_0@ == entries_bytes(protocol::entry_views(v@)),
        writable_entries(protocol::entry_views(v@)),
{
    let ghost views = protocol::entry_views(v@);
    let mut res = write_u64(v.len() as u64)?;
    let ghost count = res@;
    let mut i: usize = 0;
    assert(res@ =~= count + entry_items(views.take(0)));
    while i < v.len()
        invariant
            i <= v@.len(),
            views == protocol::entry_views(v@),
            res@ == count + entry_items(views.take(i as int)),
            forall|k: int| 0 <= k < i ==> writable_entry(#[trigger] views[k]),
        decreases v@.len() - i,
    {
        let item = write_entry(&v[i])?;
        res = chained(res, item);
        proof {
            let now = views.take(i + 1);
            assert(now.drop_last() =~= views.take(i as int));
            assert(now.last() == views[i as int]);
            assert(res@ =~= count + entry_items(now));
        }
        i += 1;
    }
    assert(views.take(i as int) =~= views);
    Ok(res)
}

fn read_entries(bytes: &[u8], pos: usize) -> (res: Option<(Vec<FileEntry>, usize)>)
    requires
        pos <= bytes@.len(),
    ensures
        wire::moves(
            bytes@,
            pos,
            take_entries(bytes@.skip(pos as int)),
            match res {
                Some((v, p)) => Some((protocol::entry_views(v@), p)),
                None => None,
            },
        ),
{
    let (count, start) = read_u64(bytes, pos)?;
    let ghost b = bytes@.skip(start as int);
    let mut res: Vec<FileEntry> = Vec::new();
    let mut at: usize = start;
    let mut i: u64 = 0;
    assert(protocol::entry_views(res@) =~= Seq::empty());
    while i < count
        invariant
            pos <= at <= bytes@.len(),
            i <= count,
            b == bytes@.skip(start as int),
            take_entries(bytes@.skip(pos as int)) == take_entry_items(b, count as nat),
            take_entry_items(b, i as nat) == Some(
                (protocol::entry_views(res@), bytes@.skip(at as int)),
            ),
        decreases count - i,
    {
        let ghost before = protocol::entry_views(res@);
        match read_entry(bytes, at) {
            None => {
                proof {
                    lemma_entry_items_stop(b, (i + 1) as nat, count as nat);
                }
                return None;
            },
            Some((item, next)) => {
                res.push(item);
                at = next;
                assert(protocol::entry_views(res@) =~= before.push(item@));
            },
        }
        i += 1;
    }
    Some((res, at))
}

proof fn lemma_entry_items_stop(b: Seq<u8>, m: nat, n: nat)
    requires
        take_entry_items(b, m) is None,
        m <= n,
    ensures
        take_entry_items(b, n) is None,
    decreases n,
{
    if m < n {
        lemma_entry_items_stop(b, m, (n - 1) as nat);
    }
}

proof fn entry_items_read_back(v: Seq<protocol::FileEntryView>, rest: Seq<u8>)
    requires
        forall|i: int| 0 <= i < v.len() ==> writable_entry(#[trigger] v[i]),
    ensures
        take_entry_items(entry_items(v) + rest, v.len()) == Some((v, rest)),
    decreases v.len(),
{
    if v.len() == 0 {
        assert(entry_items(v) + rest =~= rest);
        assert(v =~= Seq::empty());
    } else {
        let head = v.drop_last();
        let one = entry_bytes(v.last());
        assert(entry_items(v) + rest =~= entry_items(head) + (one + rest));
        assert(writable_entry(v[v.len() - 1]));
        assert forall|i: int| 0 <= i < head.len() implies writable_entry(#[trigger] head[i]) by {
            assert(head[i] == v[i]);
        }
        entry_items_read_back(head, one + rest);
        entry_reads_back(v.last(), rest);
        assert(head.push(v.last()) =~= v);
    }
}

proof fn entries_read_back(v: Seq<protocol::FileEntryView>, rest: Seq<u8>)
    requires
        writable_entries(v),
    ensures
        take_entries(entries_bytes(v) + rest) == Some((v, rest)),
{
    assert(entries_bytes(v) + rest =~= wire::le_bytes(v.len(), 8) + (entry_items(v) + rest));
    wire::u64_reads_back(v.len() as u64, entry_items(v) + rest);
    entry_items_read_back(v, rest);
}

fn write_handshake(m: &Handshake) -> (res: Result<Vec<u8>, WireError>)
    ensures
        res is Ok,
        res->Ok_0@ == handshake_bytes(m@),
        writable_handshake(m@),
{
    let b = write_u32(m.protocol_version)?;
    let b1 = write_id(&m.node_id)?;
    let b2 = write_text(&m.node_name)?;
    let b3 = write_text(&m.hostname)?;
    let b = chained(b, b1);
    let b = chained(b, b2);
    let b = chained(b, b3);
    Ok(b)
}

fn read_handshake(bytes: &[u8], pos: usize) -> (res: Option<(Handshake, usize)>)
    requires
        pos <= bytes@.len(),
    ensures
        wire::moves(
            bytes@,
            pos,
            take_handshake(bytes@.skip(pos as int)),
            match res {
                Some((v, p)) => Some((v@, p)),
                None => None,
            },
        ),
{
    proof {
        reveal(take_handshake);
    }
    let (protocol_version, pos) = read_u32(bytes, pos)?;
    let (node_id, pos) = read_id(bytes, pos)?;
    let (node_name, pos) = read_text(bytes, pos)?;
    let (hostname, pos) = read_text(bytes, pos)?;
    Some((Handshake { protocol_version, node_id, node_name, hostname }, pos))
}

proof fn handshake_reads_back(v: protocol::HandshakeView, rest: Seq<u8>)
    requires
        writable_handshake(v),
    ensures
        take_handshake(handshake_bytes(v) + rest) == Some((v, rest)),
{
    reveal(take_handshake);
    let r3 = wire::text_bytes(v.hostname) + rest;
    let r2 = wire::text_bytes(v.node_name) + r3;
    let r1 = wire::blob_bytes(v.node_id) + r2;
    assert(handshake_bytes(v) + rest =~= wire::le_bytes(v.protocol_version as nat, 4) + r1);
    wire::u32_reads_back(v.protocol_version, r1);
    wire::blob_reads_back(v.node_id, r2);
    wire::text_reads_back(v.node_name, r3);
    wire::text_reads_back(v.hostname, rest);
}

fn write_handshake_ack(m: &HandshakeAck) -> (res: Result<Vec<u8>, WireError>)
    ensures
        res is Ok,
        res->Ok_0@ == handshake_ack_bytes(m@),
        writable_handshake_ack(m@),
{
    let b = write_bool(m.accepted)?;
    let b1 = write_id(&m.node_id)?;
    let b2 = write_text(&m.node_name)?;
    let b3 = write_option(&m.message)?;
    let b = chained(b, b1);
    let b = chained(b, b2);
    let b = chained(b, b3);
    Ok(b)
}

fn read_handshake_ack(bytes: &[u8], pos: usize) -> (res: Option<(HandshakeAck, usize)>)
    requires
        pos <= bytes@.len(),
    ensures
        wire::moves(
            bytes@,
            pos,
            take_handshake_ack(bytes@.skip(pos as int)),
            match res {
                Some((v, p)) => Some((v@, p)),
                None => None,
            },
        ),
{
    proof {
        reveal(take_handshake_ack);
    }
    let (accepted, pos) = read_bool(bytes, pos)?;
    let (node_id, pos) = read_id(bytes, pos)?;
    let (node_name, pos) = read_text(bytes, pos)?;
    let (message, pos) = read_option(bytes, pos)?;
    Some((HandshakeAck { accepted, node_id, node_name, message }, pos))
}

proof fn handshake_ack_reads_back(v: protocol::HandshakeAckView, rest: Seq<u8>)
    requires
        writable_handshake_ack(v),
    ensures
        take_handshake_ack(handshake_ack_bytes(v) + rest) == Some((v, rest)),
{
    reveal(take_handshake_ack);
    let r3 = wire::option_bytes(v.message) + rest;
    let r2 = wire::text_bytes(v.node_name) + r3;
    let r1 = wire::blob_bytes(v.node_id) + r2;
    assert(handshake_ack_bytes(v) + rest =~= wire::bool_bytes(v.accepted) + r1);
    wire::bool_reads_back(v.accepted, r1);
    wire::blob_reads_back(v.node_id, r2);
    wire::text_reads_back(v.node_name, r3);
    wire::option_reads_back(v.message, rest);
}

fn write_pair_request(m: &PairRequest) -> (res: Result<Vec<u8>, WireError>)
    ensures
        res is Ok,
        res->Ok_0@ == pair_request_bytes(m@),
        writable_pair_request(m@),
{
    let b = write_u32(m.protocol_version)?;
    let b1 = write_token(&m.auth_token)?;
    let b2 = write_id(&m.node_id)?;
    let b3 = write_text(&m.node_name)?;
    let b4 = write_text(&m.hostname)?;
    let b = chained(b, b1);
    let b = chained(b, b2);
    let b = chained(b, b3);
    let b = chained(b, b4);
    Ok(b)
}

fn read_pair_request(bytes: &[u8], pos: usize) -> (res: Option<(PairRequest, usize)>)
    requires
        pos <= bytes@.len(),
    ensures
        wire::moves(
            bytes@,
            pos,
            take_pair_request(bytes@.skip(pos as int)),
            match res {
                Some((v, p)) => Some((v@, p)),
                None => None,
            },
        ),
{
    proof {
        reveal(take_pair_request);
    }
    let (protocol_version, pos) = read_u32(bytes, pos)?;
    let (auth_token, pos) = read_token(bytes, pos)?;
    let (node_id, pos) = read_id(bytes, pos)?;
    let (node_name, pos) = read_text(bytes, pos)?;
    let (hostname, pos) = read_text(bytes, pos)?;
    Some((PairRequest { protocol_version, auth_token, node_id, node_name, hostname }, pos))
}

proof fn pair_request_reads_back(v: protocol::PairRequestView, rest: Seq<u8>)
    requires
        writable_pair_request(v),
    ensures
        take_pair_request(pair_request_bytes(v) + rest) == Some((v, rest)),
{
    reveal(take_pair_request);
    let r4 = wire::text_bytes(v.hostname) + rest;
    let r3 = wire::text_bytes(v.node_name) + r4;
    let r2 = wire::blob_bytes(v.node_id) + r3;
    let r1 = v.auth_token + r2;
    assert(pair_request_bytes(v) + rest =~= wire::le_bytes(v.protocol_version as nat, 4) + r1);
    wire::u32_reads_back(v.protocol_version, r1);
    wire::raw_reads_back(v.auth_token, r2);
    wire::blob_reads_back(v.node_id, r3);
    wire::text_reads_back(v.node_name, r4);
    wire::text_reads_back(v.hostname, rest);
}

fn write_pair_response(m: &PairResponse) -> (res: Result<Vec<u8>, WireError>)
    ensures
        res is Ok,
        res->Ok_0@ == pair_response_bytes(m@),
        writable_pair_response(m@),
{
    let b = write_bool(m.accepted)?;
    let b1 = write_id(&m.node_id)?;
    let b2 = write_text(&m.node_name)?;
    let b3 = write_option(&m.virtual_ip)?;
    let b4 = write_option(&m.message)?;
    let b = chained(b, b1);
    let b = chained(b, b2);
    let b = chained(b, b3);
    let b = chained(b, b4);
    Ok(b)
}

fn read_pair_response(bytes: &[u8], pos: usize) -> (res: Option<(PairResponse, usize)>)
    requires
        pos <= bytes@.len(),
    ensures
        wire::moves(
            bytes@,
            pos,
            take_pair_response(bytes@.skip(pos as int)),
            match res {
                Some((v, p)) => Some((v@, p)),
                None => None,
            },
        ),
{
    proof {
        reveal(take_pair_response);
    }
    let (accepted, pos) = read_bool(bytes, pos)?;
    let (node_id, pos) = read_id(bytes, pos)?;
    let (node_name, pos) = read_text(bytes, pos)?;
    let (virtual_ip, pos) = read_option(bytes, pos)?;
    let (message, pos) = read_option(bytes, pos)?;
    Some((PairResponse { accepted, node_id, node_name, virtual_ip, message }, pos))
}

proof fn pair_response_reads_back(v: protocol::PairResponseView, rest: Seq<u8>)
    requires
        writable_pair_response(v),
    ensures
        take_pair_response(pair_response_bytes(v) + rest) == Some((v, rest)),
{
    reveal(take_pair_response);
    let r4 = wire::option_bytes(v.message) + rest;
    let r3 = wire::option_bytes(v.virtual_ip) + r4;
    let r2 = wire::text_bytes(v.node_name) + r3;
    let r1 = wire::blob_bytes(v.node_id) + r2;
    assert(pair_response_bytes(v) + rest =~= wire::bool_bytes(v.accepted) + r1);
    wire::bool_reads_back(v.accepted, r1);
    wire::blob_reads_back(v.node_id, r2);
    wire::text_reads_back(v.node_name, r3);
    wire::option_reads_back(v.virtual_ip, r4);
    wire::option_reads_back(v.message, rest);
}

fn write_file_index(m: &FileIndex) -> (res: Result<Vec<u8>, WireError>)
    ensures
        res is Ok,
        res->Ok_0@ == file_index_bytes(m@),
        writable_file_index(m@),
{
    let b = write_text(&m.pair_id)?;
    let b1 = write_entries(&m.files)?;
    let b2 = write_time(&m.timestamp)?;
    let b = chained(b, b1);
    let b = chained(b, b2);
    Ok(b)
}

fn read_file_index(bytes: &[u8], pos: usize) -> (res: Option<(FileIndex, usize)>)
    requires
        pos <= bytes@.len(),
    ensures
        wire::moves(
            bytes@,
            pos,
            take_file_index(bytes@.skip(pos as int)),
            match res {
                Some((v, p)) => Some((v@, p)),
                None => None,
            },
        ),
{
    proof {
        reveal(take_file_index);
    }
    let (pair_id, pos) = read_text(bytes, pos)?;
    let (files, pos) = read_entries(bytes, pos)?;
    let (timestamp, pos) = read_time(bytes, pos)?;
    Some((FileIndex { pair_id, files, timestamp }, pos))
}

proof fn file_index_reads_back(v: protocol::FileIndexView, rest: Seq<u8>)
    requires
        writable_file_index(v),
    ensures
        take_file_index(file_index_bytes(v) + rest) == Some((v, rest)),
{
    reveal(take_file_index);
    let r2 = wire::time_bytes(v.timestamp) + rest;
    let r1 = entries_bytes(v.files) + r2;
    assert(file_index_bytes(v) + rest =~= wire::text_bytes(v.pair_id) + r1);
    wire::text_reads_back(v.pair_id, r1);
    entries_read_back(v.files, r2);
    wire::time_reads_back(v.timestamp, rest);
}

fn write_file_index_ack(m: &FileIndexAck) -> (res: Result<Vec<u8>, WireError>)
    ensures
        res is Ok,
        res->Ok_0@ == file_index_ack_bytes(m@),
        writable_file_index_ack(m@),
{
    let b = write_text(&m.pair_id)?;
    let b1 = write_texts(&m.needed_files)?;
    let b2 = write_texts(&m.offered_files)?;
    let b = chained(b, b1);
    let b = chained(b, b2);
    Ok(b)
}

fn read_file_index_ack(bytes: &[u8], pos: usize) -> (res: Option<(FileIndexAck, usize)>)
    requires
        pos <= bytes@.len(),
    ensures
        wire::moves(
            bytes@,
            pos,
            take_file_index_ack(bytes@.skip(pos as int)),
            match res {
                Some((v, p)) => Some((v@, p)),
                None => None,
            },
        ),
{
    proof {
        reveal(take_file_index_ack);
    }
    let (pair_id, pos) = read_text(bytes, pos)?;
    let (needed_files, pos) = read_texts(bytes, pos)?;
    let (offered_files, pos) = read_texts(bytes, pos)?;
    Some((FileIndexAck { pair_id, needed_files, offered_files }, pos))
}

proof fn file_index_ack_reads_back(v: protocol::FileIndexAckView, rest: Seq<u8>)
    requires
        writable_file_index_ack(v),
    ensures
        take_file_index_ack(file_index_ack_bytes(v) + rest) == Some((v, rest)),
{
    reveal(take_file_index_ack);
    let r2 = texts_bytes(v.offered_files) + rest;
    let r1 = texts_bytes(v.needed_files) + r2;
    assert(file_index_ack_bytes(v) + rest =~= wire::text_bytes(v.pair_id) + r1);
    wire::text_reads_back(v.pair_id, r1);
    texts_read_back(v.needed_files, r2);
    texts_read_back(v.offered_files, rest);
}

fn write_file_request(m: &FileRequest) -> (res: Result<Vec<u8>, WireError>)
    ensures
        res is Ok,
        res->Ok_0@ == file_request_bytes(m@),
        writable_file_request(m@),
{
    let b = write_text(&m.pair_id)?;
    let b1 = write_texts(&m.files)?;
    let b = chained(b, b1);
    Ok(b)
}

fn read_file_request(bytes: &[u8], pos: usize) -> (res: Option<(FileRequest, usize)>)
    requires
        pos <= bytes@.len(),
    ensures
        wire::moves(
            bytes@,
            pos,
            take_file_request(bytes@.skip(pos as int)),
            match res {
                Some((v, p)) => Some((v@, p)),
                None => None,
            },
        ),
{
    proof {
        reveal(take_file_request);
    }
    let (pair_id, pos) = read_text(bytes, pos)?;
    let (files, pos) = read_texts(bytes, pos)?;
    Some((FileRequest { pair_id, files }, pos))
}

proof fn file_request_reads_back(v: protocol::FileRequestView, rest: Seq<u8>)
    requires
        writable_file_request(v),
    ensures
        take_file_request(file_request_bytes(v) + rest) == Some((v, rest)),
{
    reveal(take_file_request);
    let r1 = texts_bytes(v.files) + rest;
    assert(file_request_bytes(v) + rest =~= wire::text_bytes(v.pair_id) + r1);
    wire::text_reads_back(v.pair_id, r1);
    texts_read_back(v.files, rest);
}

fn write_file_response(m: &FileResponse) -> (res: Result<Vec<u8>, WireError>)
    ensures
        res is Ok,
        res->Ok_0@ == file_response_bytes(m@),
        writable_file_response(m@),
{
    let b = write_text(&m.relative_path)?;
    let b1 = write_u64(m.size)?;
    let b2 = write_digest(&m.hash)?;
    let b3 = write_u32(m.chunk_count)?;
    let b4 = write_bool(m.accepted)?;
    let b5 = write_option(&m.error)?;
    let b = chained(b, b1);
    let b = chained(b, b2);
    let b = chained(b, b3);
    let b = chained(b, b4);
    let b = chained(b, b5);
    Ok(b)
}

fn read_file_response(bytes: &[u8], pos: usize) -> (res: Option<(FileResponse, usize)>)
    requires
        pos <= bytes@.len(),
    ensures
        wire::moves(
            bytes@,
            pos,
            take_file_response(bytes@.skip(pos as int)),
            match res {
                Some((v, p)) => Some((v@, p)),
                None => None,
            },
        ),
{
    proof {
        reveal(take_file_response);
    }
    let (relative_path, pos) = read_text(bytes, pos)?;
    let (size, pos) = read_u64(bytes, pos)?;
    let (hash, pos) = read_digest(bytes, pos)?;
    let (chunk_count, pos) = read_u32(bytes, pos)?;
    let (accepted, pos) = read_bool(bytes, pos)?;
    let (error, pos) = read_option(bytes, pos)?;
    Some((FileResponse { relative_path, size, hash, chunk_count, accepted, error }, pos))
}

proof fn file_response_reads_back(v: protocol::FileResponseView, rest: Seq<u8>)
    requires
        writable_file_response(v),
    ensures
        take_file_response(file_response_bytes(v) + rest) == Some((v, rest)),
{
    reveal(take_file_response);
    let r5 = wire::option_bytes(v.error) + rest;
    let r4 = wire::bool_bytes(v.accepted) + r5;
    let r3 = wire::le_bytes(v.chunk_count as nat, 4) + r4;
    let r2 = v.hash + r3;
    let r1 = wire::le_bytes(v.size as nat, 8) + r2;
    assert(file_response_bytes(v) + rest =~= wire::text_bytes(v.relative_path) + r1);
    wire::text_reads_back(v.relative_path, r1);
    wire::u64_reads_back(v.size, r2);
    wire::raw_reads_back(v.hash, r3);
    wire::u32_reads_back(v.chunk_count, r4);
    wire::bool_reads_back(v.accepted, r5);
    wire::option_reads_back(v.error, rest);
}

fn write_file_chunk(m: &FileChunk) -> (res: Result<Vec<u8>, WireError>)
    ensures
        res is Ok,
        res->Ok_0@ == file_chunk_bytes(m@),
        writable_file_chunk(m@),
{
    let b = write_text(&m.relative_path)?;
    let b1 = write_u32(m.chunk_index)?;
    let b2 = write_u32(m.total_chunks)?;
    let b3 = write_blob(&m.data)?;
    let b4 = write_digest(&m.chunk_hash)?;
    let b = chained(b, b1);
    let b = chained(b, b2);
    let b = chained(b, b3);
    let b = chained(b, b4);
    Ok(b)
}

fn read_file_chunk(bytes: &[u8], pos: usize) -> (res: Option<(FileChunk, usize)>)
    requires
        pos <= bytes@.len(),
    ensures
        wire::moves(
            bytes@,
            pos,
            take_file_chunk(bytes@.skip(pos as int)),
            match res {
                Some((v, p)) => Some((v@, p)),
                None => None,
            },
        ),
{
    proof {
        reveal(take_file_chunk);
    }
    let (relative_path, pos) = read_text(bytes, pos)?;
    let (chunk_index, pos) = read_u32(bytes, pos)?;
    let (total_chunks, pos) = read_u32(bytes, pos)?;
    let (data, pos) = read_blob(bytes, pos)?;
    let (chunk_hash, pos) = read_digest(bytes, pos)?;
    Some((FileChunk { relative_path, chunk_index, total_chunks, data, chunk_hash }, pos))
}

proof fn file_chunk_reads_back(v: protocol::FileChunkView, rest: Seq<u8>)
    requires
        writable_file_chunk(v),
    ensures
        take_file_chunk(file_chunk_bytes(v) + rest) == Some((v, rest)),
{
    reveal(take_file_chunk);
    let r4 = v.chunk_hash + rest;
    let r3 = wire::blob_bytes(v.data) + r4;
    let r2 = wire::le_bytes(v.total_chunks as nat, 4) + r3;
    let r1 = wire::le_bytes(v.chunk_index as nat, 4) + r2;
    assert(file_chunk_bytes(v) + rest =~= wire::text_bytes(v.relative_path) + r1);
    wire::text_reads_back(v.relative_path, r1);
    wire::u32_reads_back(v.chunk_index, r2);
    wire::u32_reads_back(v.total_chunks, r3);
    wire::blob_reads_back(v.data, r4);
    wire::raw_reads_back(v.chunk_hash, rest);
}

fn write_transfer_complete(m: &TransferComplete) -> (res: Result<Vec<u8>, WireError>)
    ensures
        res is Ok,
        res->Ok_0@ == transfer_complete_bytes(m@),
        writable_transfer_complete(m@),
{
    let b = write_text(&m.relative_path)?;
    let b1 = write_bool(m.success)?;
    let b2 = write_option(&m.error)?;
    let b = chained(b, b1);
    let b = chained(b, b2);
    Ok(b)
}

fn read_transfer_complete(bytes: &[u8], pos: usize) -> (res: Option<(TransferComplete, usize)>)
    requires
        pos <= bytes@.len(),
    ensures
        wire::moves(
            bytes@,
            pos,
            take_transfer_complete(bytes@.skip(pos as int)),
            match res {
                Some((v, p)) => Some((v@, p)),
                None => None,
            },
        ),
{
    proof {
        reveal(take_transfer_complete);
    }
    let (relative_path, pos) = read_text(bytes, pos)?;
    let (success, pos) = read_bool(bytes, pos)?;
    let (error, pos) = read_option(bytes, pos)?;
    Some((TransferComplete { relative_path, success, error }, pos))
}

proof fn transfer_complete_reads_back(v: protocol::TransferCompleteView, rest: Seq<u8>)
    requires
        writable_transfer_complete(v),
    ensures
        take_transfer_complete(transfer_complete_bytes(v) + rest) == Some((v, rest)),
{
    reveal(take_transfer_complete);
    let r2 = wire::option_bytes(v.error) + rest;
    let r1 = wire::bool_bytes(v.success) + r2;
    assert(transfer_complete_bytes(v) + rest =~= wire::text_bytes(v.relative_path) + r1);
    wire::text_reads_back(v.relative_path, r1);
    wire::bool_reads_back(v.success, r2);
    wire::option_reads_back(v.error, rest);
}

fn write_heartbeat(m: &Heartbeat) -> (res: Result<Vec<u8>, WireError>)
    ensures
        res is Ok,
        res->Ok_0@ == heartbeat_bytes(m@),
        writable_heartbeat(m@),
{
    let b = write_id(&m.node_id)?;
    let b1 = write_time(&m.timestamp)?;
    let b = chained(b, b1);
    Ok(b)
}

fn read_heartbeat(bytes: &[u8], pos: usize) -> (res: Option<(Heartbeat, usize)>)
    requires
        pos <= bytes@.len(),
    ensures
        wire::moves(
            bytes@,
            pos,
            take_heartbeat(bytes@.skip(pos as int)),
            match res {
                Some((v, p)) => Some((v@, p)),
                None => None,
            },
        ),
{
    proof {
        reveal(take_heartbeat);
    }
    let (node_id, pos) = read_id(bytes, pos)?;
    let (timestamp, pos) = read_time(bytes, pos)?;
    Some((Heartbeat { node_id, timestamp }, pos))
}

proof fn heartbeat_reads_back(v: protocol::HeartbeatView, rest: Seq<u8>)
    requires
        writable_heartbeat(v),
    ensures
        take_heartbeat(heartbeat_bytes(v) + rest) == Some((v, rest)),
{
    reveal(take_heartbeat);
    let r1 = wire::time_bytes(v.timestamp) + rest;
    assert(heartbeat_bytes(v) + rest =~= wire::blob_bytes(v.node_id) + r1);
    wire::blob_reads_back(v.node_id, r1);
    wire::time_reads_back(v.timestamp, rest);
}

fn write_heartbeat_ack(m: &HeartbeatAck) -> (res: Result<Vec<u8>, WireError>)
    ensures
        res is Ok,
        res->Ok_0@ == heartbeat_ack_bytes(m@),
        writable_heartbeat_ack(m@),
{
    let b = write_id(&m.node_id)?;
    let b1 = write_time(&m.timestamp)?;
    let b = chained(b, b1);
    Ok(b)
}

fn read_heartbeat_ack(bytes: &[u8], pos: usize) -> (res: Option<(HeartbeatAck, usize)>)
    requires
        pos <= bytes@.len(),
    ensures
        wire::moves(
            bytes@,
            pos,
            take_heartbeat_ack(bytes@.skip(pos as int)),
            match res {
                Some((v, p)) => Some((v@, p)),
                None => None,
            },
        ),
{
    proof {
        reveal(take_heartbeat_ack);
    }
    let (node_id, pos) = read_id(bytes, pos)?;
    let (timestamp, pos) = read_time(bytes, pos)?;
    Some((HeartbeatAck { node_id, timestamp }, pos))
}

proof fn heartbeat_ack_reads_back(v: protocol::HeartbeatAckView, rest: Seq<u8>)
    requires
        writable_heartbeat_ack(v),
    ensures
        take_heartbeat_ack(heartbeat_ack_bytes(v) + rest) == Some((v, rest)),
{
    reveal(take_heartbeat_ack);
    let r1 = wire::time_bytes(v.timestamp) + rest;
    assert(heartbeat_ack_bytes(v) + rest =~= wire::blob_bytes(v.node_id) + r1);
    wire::blob_reads_back(v.node_id, r1);
    wire::time_reads_back(v.timestamp, rest);
}

fn write_error(m: &ErrorMessage) -> (res: Result<Vec<u8>, WireError>)
    ensures
        res is Ok,
        res->Ok_0@ == error_bytes(m@),
        writable_error(m@),
{
    let b = write_u32(m.code)?;
    let b1 = write_text(&m.message)?;
    let b = chained(b, b1);
    Ok(b)
}

fn read_error(bytes: &[u8], pos: usize) -> (res: Option<(ErrorMessage, usize)>)
    requires
        pos <= bytes@.len(),
    ensures
        wire::moves(
            bytes@,
            pos,
            take_error(bytes@.skip(pos as int)),
            match res {
                Some((v, p)) => Some((v@, p)),
                None => None,
            },
        ),
{
    proof {
        reveal(take_error);
    }
    let (code, pos) = read_u32(bytes, pos)?;
    let (message, pos) = read_text(bytes, pos)?;
    Some((ErrorMessage { code, message }, pos))
}

proof fn error_reads_back(v: protocol::ErrorMessageView, rest: Seq<u8>)
    requires
        writable_error(v),
    ensures
        take_error(error_bytes(v) + rest) == Some((v, rest)),
{
    reveal(take_error);
    let r1 = wire::text_bytes(v.message) + rest;
    assert(error_bytes(v) + rest =~= wire::le_bytes(v.code as nat, 4) + r1);
    wire::u32_reads_back(v.code, r1);
    wire::text_reads_back(v.message, rest);
}

proof fn body_reads_back(m: protocol::MessageView, rest: Seq<u8>)
    requires
        writable(m),
    ensures
        body_of(kind_of(m), body_bytes(m) + rest) == Some(m),
{
    match m {
        protocol::MessageView::Handshake(v) => handshake_reads_back(v, rest),
        protocol::MessageView::HandshakeAck(v) => handshake_ack_reads_back(v, rest),
        protocol::MessageView::PairRequest(v) => pair_request_reads_back(v, rest),
        protocol::MessageView::PairResponse(v) => pair_response_reads_back(v, rest),
        protocol::MessageView::FileIndex(v) => file_index_reads_back(v, rest),
        protocol::MessageView::FileIndexAck(v) => file_index_ack_reads_back(v, rest),
        protocol::MessageView::FileRequest(v) => file_request_reads_back(v, rest),
        protocol::MessageView::FileResponse(v) => file_response_reads_back(v, rest),
        protocol::MessageView::FileChunk(v) => file_chunk_reads_back(v, rest),
        protocol::MessageView::TransferComplete(v) => transfer_complete_reads_back(v, rest),
        protocol::MessageView::Heartbeat(v) => heartbeat_reads_back(v, rest),
        protocol::MessageView::HeartbeatAck(v) => heartbeat_ack_reads_back(v, rest),
        protocol::MessageView::Error(v) => error_reads_back(v, rest),
    }
}

/// Reading the bytes of a message gives the message back.
pub proof fn decode_undoes_encode(m: protocol::MessageView, rest: Seq<u8>)
    requires
        writable(m),
    ensures
        message_of(message_bytes(m) + rest) == Some(m),
{
    assert(message_bytes(m) + rest =~= wire::le_bytes(kind_of(m) as nat, 4) + (body_bytes(m)
        + rest));
    wire::u32_reads_back(kind_of(m), body_bytes(m) + rest);
    body_reads_back(m, rest);
}

impl Message {
    /// The number of the message's kind.
    pub fn kind(&self) -> (res: u32)
        ensures
            res == kind_of(self@),
    {
        match self {
            Message::Handshake(_) => 0,
            Message::HandshakeAck(_) => 1,
            Message::PairRequest(_) => 2,
            Message::PairResponse(_) => 3,
            Message::FileIndex(_) => 4,
            Message::FileIndexAck(_) => 5,
            Message::FileRequest(_) => 6,
            Message::FileResponse(_) => 7,
            Message::FileChunk(_) => 8,
            Message::TransferComplete(_) => 9,
            Message::Heartbeat(_) => 10,
            Message::HeartbeatAck(_) => 11,
            Message::Error(_) => 12,
        }
    }

    /// The bytes of the message. Reading them gives the message back, whatever
    /// follows them.
    pub fn to_bytes(&self) -> (res: Result<Vec<u8>, WireError>)
        ensures
            res is Ok,
            res->Ok_0@ == message_bytes(self@),
            forall|rest: Seq<u8>| message_of(#[trigger] (res->Ok_0@ + rest)) == Some(self@),
            message_of(res->Ok_0@) == Some(self@),
    {
        let body = match self {
            Message::Handshake(m) => write_handshake(m)?,
            Message::HandshakeAck(m) => write_handshake_ack(m)?,
            Message::PairRequest(m) => write_pair_request(m)?,
            Message::PairResponse(m) => write_pair_response(m)?,
            Message::FileIndex(m) => write_file_index(m)?,
            Message::FileIndexAck(m) => write_file_index_ack(m)?,
            Message::FileRequest(m) => write_file_request(m)?,
            Message::FileResponse(m) => write_file_response(m)?,
            Message::FileChunk(m) => write_file_chunk(m)?,
            Message::TransferComplete(m) => write_transfer_complete(m)?,
            Message::Heartbeat(m) => write_heartbeat(m)?,
            Message::HeartbeatAck(m) => write_heartbeat_ack(m)?,
            Message::Error(m) => write_error(m)?,
        };
        let head = write_u32(self.kind())?;
        let res = chained(head, body);
        proof {
            assert forall|rest: Seq<u8>| message_of(#[trigger] (res@ + rest)) == Some(self@) by {
                decode_undoes_encode(self@, rest);
            }
            assert(res@ + Seq::<u8>::empty() =~= res@);
        }
        Ok(res)
    }

    /// The message that `data` starts with.
    pub fn from_bytes(data: &[u8]) -> (res: Result<Message, WireError>)
        ensures
            match message_of(data@) {
                Some(m) => res is Ok && res->Ok_0@ == m,
                None => res is Err,
            },
    {
        match read_message(data) {
            Some(m) => Ok(m),
            None => Err(WireError::Malformed),
        }
    }
}

fn read_message(bytes: &[u8]) -> (res: Option<Message>)
    ensures
        message_of(bytes@) == match res {
            Some(m) => Some(m@),
            None => None,
        },
{
    assert(bytes@.skip(0) =~= bytes@);
    let (kind, pos) = read_u32(bytes, 0)?;
    match kind {
        0 => {
            let (m, _) = read_handshake(bytes, pos)?;
            Some(Message::Handshake(m))
        },
        1 => {
            let (m, _) = read_handshake_ack(bytes, pos)?;
            Some(Message::HandshakeAck(m))
        },
        2 => {
            let (m, _) = read_pair_request(bytes, pos)?;
            Some(Message::PairRequest(m))
        },
        3 => {
            let (m, _) = read_pair_response(bytes, pos)?;
            Some(Message::PairResponse(m))
        },
        4 => {
            let (m, _) = read_file_index(bytes, pos)?;
            Some(Message::FileIndex(m))
        },
        5 => {
            let (m, _) = read_file_index_ack(bytes, pos)?;
            Some(Message::FileIndexAck(m))
        },
        6 => {
            let (m, _) = read_file_request(bytes, pos)?;
            Some(Message::FileRequest(m))
        },
        7 => {
            let (m, _) = read_file_response(bytes, pos)?;
            Some(Message::FileResponse(m))
        },
        8 => {
            let (m, _) = read_file_chunk(bytes, pos)?;
            Some(Message::FileChunk(m))
        },
        9 => {
            let (m, _) = read_transfer_complete(bytes, pos)?;
            Some(Message::TransferComplete(m))
        },
        10 => {
            let (m, _) = read_heartbeat(bytes, pos)?;
            Some(Message::Heartbeat(m))
        },
        11 => {
            let (m, _) = read_heartbeat_ack(bytes, pos)?;
            Some(Message::HeartbeatAck(m))
        },
        12 => {
            let (m, _) = read_error(bytes, pos)?;
            Some(Message::Error(m))
        },
        _ => None,
    }
}

/// Reading the bytes of a message, whatever follows them, gives a message that
/// agrees with it in everything.
pub proof fn messages_read_back(
    m: Message,
    bytes: Vec<u8>,
    rest: Seq<u8>,
    data: &[u8],
    res: Result<Message, WireError>,
)
    requires
        call_ensures(Message::to_bytes, (&m,), Ok(bytes)),
        call_ensures(Message::from_bytes, (data,), res),
        data@ == bytes@ + rest,
    ensures
        res matches Ok(got) && protocol::same_message(got, m),
{
    assert(message_of(bytes@ + rest) == Some(m@));
    protocol::views_leave_nothing_out(res->Ok_0, m);
}

/// Two messages with the same bytes agree in everything.
pub proof fn bytes_tell_messages_apart(a: Message, b: Message, x: Vec<u8>, y: Vec<u8>)
    requires
        call_ensures(Message::to_bytes, (&a,), Ok(x)),
        call_ensures(Message::to_bytes, (&b,), Ok(y)),
        x@ == y@,
    ensures
        protocol::same_message(a, b),
{
    protocol::views_leave_nothing_out(a, b);
}

/// The fields of a message in the order in which they are written.
pub open spec fn laid_out(m: Message) -> Seq<u8> {
    match m {
        Message::Handshake(v) => wire::le_bytes(v.protocol_version as nat, 4) + wire::blob_bytes(
            v.node_id.bytes@,
        ) + wire::text_bytes(v.node_name@) + wire::text_bytes(v.hostname@),
        Message::HandshakeAck(v) => wire::bool_bytes(v.accepted) + wire::blob_bytes(
            v.node_id.bytes@,
        ) + wire::text_bytes(v.node_name@) + wire::option_bytes(text::option_text(v.message)),
        Message::PairRequest(v) => wire::le_bytes(v.protocol_version as nat, 4) + v.auth_token@
            + wire::blob_bytes(v.node_id.bytes@) + wire::text_bytes(v.node_name@)
            + wire::text_bytes(v.hostname@),
        Message::PairResponse(v) => wire::bool_bytes(v.accepted) + wire::blob_bytes(
            v.node_id.bytes@,
        ) + wire::text_bytes(v.node_name@) + wire::option_bytes(text::option_text(v.virtual_ip))
            + wire::option_bytes(text::option_text(v.message)),
        Message::FileIndex(v) => wire::text_bytes(v.pair_id@) + wire::le_bytes(v.files@.len(), 8)
            + entry_items(protocol::entry_views(v.files@)) + wire::time_bytes(v.timestamp@),
        Message::FileIndexAck(v) => wire::text_bytes(v.pair_id@) + texts_bytes(
            text::texts(v.needed_files@),
        ) + texts_bytes(text::texts(v.offered_files@)),
        Message::FileRequest(v) => wire::text_bytes(v.pair_id@) + texts_bytes(
            text::texts(v.files@),
        ),
        Message::FileResponse(v) => wire::text_bytes(v.relative_path@) + wire::le_bytes(
            v.size as nat,
            8,
        ) + v.hash.bytes@ + wire::le_bytes(v.chunk_count as nat, 4) + wire::bool_bytes(v.accepted)
            + wire::option_bytes(text::option_text(v.error)),
        Message::FileChunk(v) => wire::text_bytes(v.relative_path@) + wire::le_bytes(
            v.chunk_index as nat,
            4,
        ) + wire::le_bytes(v.total_chunks as nat, 4) + wire::blob_bytes(v.data@)
            + v.chunk_hash.bytes@,
        Message::TransferComplete(v) => wire::text_bytes(v.relative_path@) + wire::bool_bytes(
            v.success,
        ) + wire::option_bytes(text::option_text(v.error)),
        Message::Heartbeat(v) => wire::blob_bytes(v.node_id.bytes@) + wire::time_bytes(
            v.timestamp@,
        ),
        Message::HeartbeatAck(v) => wire::blob_bytes(v.node_id.bytes@) + wire::time_bytes(
            v.timestamp@,
        ),
        Message::Error(v) => wire::le_bytes(v.code as nat, 4) + wire::text_bytes(v.message@),
    }
}

/// A message is written as the number of its kind, lowest byte first, and its
/// fields in the order in which they are declared.
pub proof fn fields_are_written_in_order(m: Message, bytes: Vec<u8>, kind: u32)
    requires
        call_ensures(Message::to_bytes, (&m,), Ok(bytes)),
        call_ensures(Message::kind, (&m,), kind),
    ensures
        bytes@.len() >= 4,
        bytes@[0] == kind && bytes@[1] == 0 && bytes@[2] == 0 && bytes@[3] == 0,
        bytes@.skip(4) == laid_out(m),
{
    reveal_with_fuel(wire::le_bytes, 5);
    let k = wire::le_bytes(kind as nat, 4);
    assert(kind <= 12);
    assert(k.len() == 4 && k[0] == kind && k[1] == 0 && k[2] == 0 && k[3] == 0);
    assert(bytes@ == k + body_bytes(m@));
    assert(bytes@.skip(4) =~= body_bytes(m@));
    assert(body_bytes(m@) =~= laid_out(m));
}

/// The kinds are numbered in the order in which a conversation meets them.
pub proof fn kinds_are_numbered(m: &Message, kind: u32)
    requires
        call_ensures(Message::kind, (m,), kind),
    ensures
        *m is Handshake == (kind == 0),
        *m is HandshakeAck == (kind == 1),
        *m is PairRequest == (kind == 2),
        *m is PairResponse == (kind == 3),
        *m is FileIndex == (kind == 4),
        *m is FileIndexAck == (kind == 5),
        *m is FileRequest == (kind == 6),
        *m is FileResponse == (kind == 7),
        *m is FileChunk == (kind == 8),
        *m is TransferComplete == (kind == 9),
        *m is Heartbeat == (kind == 10),
        *m is HeartbeatAck == (kind == 11),
        *m is Error == (kind == 12),
{
}

/// The items of an index are written one after the other, each with its path,
/// size, time, digest, kind and mode in this order.
pub proof fn entries_are_written_in_order(v: Seq<protocol::FileEntryView>, e: FileEntry)
    ensures
        entry_items(v.push(e@)) == entry_items(v) + wire::text_bytes(e.relative_path@)
            + wire::le_bytes(e.size as nat, 8) + wire::time_bytes(e.modified@) + e.hash.bytes@
            + wire::bool_bytes(e.is_dir) + wire::le_bytes(e.mode as nat, 4),
        entry_items(Seq::empty()).len() == 0,
{
    let w = v.push(e@);
    assert(w.drop_last() =~= v);
    assert(entry_items(w) == entry_items(v) + entry_bytes(e@));
    assert(entry_items(w) =~= entry_items(v) + wire::text_bytes(e.relative_path@) + wire::le_bytes(
        e.size as nat,
        8,
    ) + wire::time_bytes(e.modified@) + e.hash.bytes@ + wire::bool_bytes(e.is_dir)
        + wire::le_bytes(e.mode as nat, 4));
}

/// The items of a list of texts are written one after the other.
pub proof fn texts_are_written_in_order(v: Seq<Seq<char>>, s: Seq<char>)
    ensures
        text_items(v.push(s)) == text_items(v) + wire::text_bytes(s),
        text_items(Seq::empty()).len() == 0,
{
    assert(v.push(s).drop_last() =~= v);
}

} // verus!
