//! Messages and their bytes.

use crossbag::clock::Timestamp;
use crossbag::digest::Digest;
use crossbag::identity::NodeId;
use crossbag::protocol::{
    error_codes, ErrorMessage, FileChunk, FileEntry, FileIndex, FileIndexAck, FileRequest,
    FileResponse, Handshake, HandshakeAck, Heartbeat, HeartbeatAck, Message, PairRequest,
    PairResponse, TransferComplete, CHUNK_SIZE, DEFAULT_PORT, PROTOCOL_VERSION,
};
use crossbag::wire::WireError;

fn entry(path: &str, size: u64, content: &[u8]) -> FileEntry {
    FileEntry {
        relative_path: path.to_string(),
        size,
        modified: Timestamp::now(),
        hash: Digest::of(content),
        is_dir: false,
        mode: 0,
    }
}

#[test]
fn test_handshake_roundtrip() {
    let original = Message::Handshake(Handshake {
        protocol_version: PROTOCOL_VERSION,
        node_id: NodeId::new_v4(),
        node_name: "test-node".into(),
        hostname: "test-host".into(),
    });

    let bytes = original.to_bytes().expect("serialize");
    let decoded = Message::from_bytes(&bytes).expect("deserialize");

    match decoded {
        Message::Handshake(h) => {
            assert_eq!(h.protocol_version, PROTOCOL_VERSION);
            assert_eq!(h.node_name, "test-node");
            assert_eq!(h.hostname, "test-host");
        }
        _ => panic!("Expected Handshake"),
    }
}

#[test]
fn test_all_message_types_roundtrip() {
    let messages = vec![
        Message::Handshake(Handshake {
            protocol_version: 1,
            node_id: NodeId::new_v4(),
            node_name: "n1".into(),
            hostname: "h1".into(),
        }),
        Message::HandshakeAck(HandshakeAck {
            accepted: true,
            node_id: NodeId::new_v4(),
            node_name: "n2".into(),
            message: None,
        }),
        Message::PairRequest(PairRequest {
            protocol_version: 1,
            auth_token: [0xDE, 0xAD, 0xBE, 0xEF],
            node_id: NodeId::new_v4(),
            node_name: "pair-node".into(),
            hostname: "pair-host".into(),
        }),
        Message::PairResponse(PairResponse {
            accepted: true,
            node_id: NodeId::new_v4(),
            node_name: "resp-node".into(),
            virtual_ip: Some("10.144.144.1".into()),
            message: None,
        }),
        Message::Heartbeat(Heartbeat {
            node_id: NodeId::new_v4(),
            timestamp: Timestamp::now(),
        }),
        Message::HeartbeatAck(HeartbeatAck {
            node_id: NodeId::new_v4(),
            timestamp: Timestamp::now(),
        }),
        Message::Error(ErrorMessage {
            code: error_codes::TIMEOUT,
            message: "test error".into(),
        }),
    ];

    for msg in messages {
        let bytes = msg.to_bytes().expect("serialize");
        let decoded = Message::from_bytes(&bytes).expect("deserialize");
        assert_eq!(
            std::mem::discriminant(&msg),
            std::mem::discriminant(&decoded),
            "Message type mismatch after roundtrip"
        );
    }
}

#[test]
fn test_pair_request_roundtrip() {
    let original = Message::PairRequest(PairRequest {
        protocol_version: PROTOCOL_VERSION,
        auth_token: [0x0A, 0x1B, 0x2C, 0x3D],
        node_id: NodeId::new_v4(),
        node_name: "node-b".into(),
        hostname: "workstation-b".into(),
    });

    let bytes = original.to_bytes().expect("serialize");
    let decoded = Message::from_bytes(&bytes).expect("deserialize");

    match decoded {
        Message::PairRequest(req) => {
            assert_eq!(req.protocol_version, PROTOCOL_VERSION);
            assert_eq!(req.auth_token, [0x0A, 0x1B, 0x2C, 0x3D]);
            assert_eq!(req.node_name, "node-b");
            assert_eq!(req.hostname, "workstation-b");
        }
        _ => panic!("Expected PairRequest"),
    }
}

#[test]
fn test_pair_response_with_virtual_ip() {
    let original = Message::PairResponse(PairResponse {
        accepted: true,
        node_id: NodeId::new_v4(),
        node_name: "node-a".into(),
        virtual_ip: Some("10.144.144.5".into()),
        message: None,
    });

    let bytes = original.to_bytes().expect("serialize");
    let decoded = Message::from_bytes(&bytes).expect("deserialize");

    match decoded {
        Message::PairResponse(resp) => {
            assert!(resp.accepted);
            assert_eq!(resp.node_name, "node-a");
            assert_eq!(resp.virtual_ip.as_deref(), Some("10.144.144.5"));
        }
        _ => panic!("Expected PairResponse"),
    }
}

#[test]
fn test_pair_response_rejected() {
    let original = Message::PairResponse(PairResponse {
        accepted: false,
        node_id: NodeId::new_v4(),
        node_name: "node-a".into(),
        virtual_ip: None,
        message: Some("Auth token mismatch".into()),
    });

    let bytes = original.to_bytes().expect("serialize");
    let decoded = Message::from_bytes(&bytes).expect("deserialize");

    match decoded {
        Message::PairResponse(resp) => {
            assert!(!resp.accepted);
            assert!(resp.virtual_ip.is_none());
            assert_eq!(resp.message.as_deref(), Some("Auth token mismatch"));
        }
        _ => panic!("Expected PairResponse"),
    }
}

#[test]
fn test_file_entry_equality() {
    let entry1 = entry("/test/file.txt", 100, b"hello");
    let entry2 = entry("/test/file.txt", 100, b"hello");
    let entry3 = entry("/test/file.txt", 200, b"world");

    assert!(entry1.is_same_as(&entry2));
    assert!(!entry1.is_same_as(&entry3));
}

#[test]
fn test_file_index_serialization() {
    let index = Message::FileIndex(FileIndex {
        pair_id: "sync-1".into(),
        files: vec![entry("docs/readme.md", 1024, b"content")],
        timestamp: Timestamp::now(),
    });

    let bytes = index.to_bytes().expect("serialize");
    let decoded = Message::from_bytes(&bytes).expect("deserialize");

    match decoded {
        Message::FileIndex(idx) => {
            assert_eq!(idx.pair_id, "sync-1");
            assert_eq!(idx.files.len(), 1);
            assert_eq!(idx.files[0].relative_path, "docs/readme.md");
            assert_eq!(idx.files[0].size, 1024);
        }
        _ => panic!("Expected FileIndex"),
    }
}

#[test]
fn test_file_chunk_roundtrip() {
    let data = vec![0u8; CHUNK_SIZE];
    let chunk = Message::FileChunk(FileChunk {
        relative_path: "bigfile.bin".into(),
        chunk_index: 0,
        total_chunks: 4,
        data: data.clone(),
        chunk_hash: Digest::of(&data),
    });

    let bytes = chunk.to_bytes().expect("serialize");
    let decoded = Message::from_bytes(&bytes).expect("deserialize");

    match decoded {
        Message::FileChunk(c) => {
            assert_eq!(c.relative_path, "bigfile.bin");
            assert_eq!(c.chunk_index, 0);
            assert_eq!(c.total_chunks, 4);
            assert_eq!(c.data.len(), CHUNK_SIZE);
        }
        _ => panic!("Expected FileChunk"),
    }
}

#[test]
fn test_large_message() {
    let mut files = Vec::new();
    for i in 0..500 {
        files.push(entry(
            &format!("dir/file_{}.txt", i),
            (i * 100) as u64,
            format!("file{}", i).as_bytes(),
        ));
    }

    let index = Message::FileIndex(FileIndex {
        pair_id: "large-sync".into(),
        files,
        timestamp: Timestamp::now(),
    });

    let bytes = index.to_bytes().expect("serialize large index");
    let decoded = Message::from_bytes(&bytes).expect("deserialize large index");

    match decoded {
        Message::FileIndex(idx) => {
            assert_eq!(idx.files.len(), 500);
        }
        _ => panic!("Expected FileIndex"),
    }
}

const ID: [u8; 16] = [1, 2, 3, 4, 5, 6, 7, 8, 9, 10, 11, 12, 13, 14, 15, 16];

/// Each kind of message has the bytes that bincode gives for the number of the
/// kind and the fields.
#[test]
fn messages_have_the_bytes_of_bincode() {
    let id = NodeId { bytes: ID };
    let uuid = uuid::Uuid::from_bytes(ID);
    let time = Timestamp::new(1_700_000_000, 250_000_000).unwrap();
    let stamp = "2023-11-14T22:13:20.250Z";
    let digest = Digest::of(b"content");
    let hash = blake3::hash(b"content");

    let handshake = Message::Handshake(Handshake {
        protocol_version: 7,
        node_id: id,
        node_name: "näme".into(),
        hostname: "host".into(),
    });
    assert_eq!(
        handshake.to_bytes().unwrap(),
        bincode::serialize(&(0u32, 7u32, uuid, "näme", "host")).unwrap()
    );

    let ack = Message::HandshakeAck(HandshakeAck {
        accepted: false,
        node_id: id,
        node_name: "n".into(),
        message: Some("why".into()),
    });
    assert_eq!(
        ack.to_bytes().unwrap(),
        bincode::serialize(&(1u32, false, uuid, "n", Some("why"))).unwrap()
    );

    let request = Message::PairRequest(PairRequest {
        protocol_version: 1,
        auth_token: [9, 8, 7, 6],
        node_id: id,
        node_name: "n".into(),
        hostname: "h".into(),
    });
    assert_eq!(
        request.to_bytes().unwrap(),
        bincode::serialize(&(2u32, 1u32, [9u8, 8, 7, 6], uuid, "n", "h")).unwrap()
    );

    let response = Message::PairResponse(PairResponse {
        accepted: true,
        node_id: id,
        node_name: "n".into(),
        virtual_ip: None,
        message: None,
    });
    let none: Option<&str> = None;
    assert_eq!(
        response.to_bytes().unwrap(),
        bincode::serialize(&(3u32, true, uuid, "n", none, none)).unwrap()
    );

    let index = Message::FileIndex(FileIndex {
        pair_id: "p".into(),
        files: vec![FileEntry {
            relative_path: "a/b".into(),
            size: 5,
            modified: time,
            hash: digest,
            is_dir: false,
            mode: 0,
        }],
        timestamp: time,
    });
    let files = vec![("a/b", 5u64, stamp, hash, false, 0u32)];
    assert_eq!(
        index.to_bytes().unwrap(),
        bincode::serialize(&(4u32, "p", files, stamp)).unwrap()
    );

    let index_ack = Message::FileIndexAck(FileIndexAck {
        pair_id: "p".into(),
        needed_files: vec!["x".into(), "y".into()],
        offered_files: vec![],
    });
    let offered: Vec<&str> = vec![];
    assert_eq!(
        index_ack.to_bytes().unwrap(),
        bincode::serialize(&(5u32, "p", vec!["x", "y"], offered)).unwrap()
    );

    let file_request = Message::FileRequest(FileRequest {
        pair_id: "p".into(),
        files: vec!["x".into()],
    });
    assert_eq!(
        file_request.to_bytes().unwrap(),
        bincode::serialize(&(6u32, "p", vec!["x"])).unwrap()
    );

    let file_response = Message::FileResponse(FileResponse {
        relative_path: "x".into(),
        size: 1,
        hash: digest,
        chunk_count: 2,
        accepted: true,
        error: Some("e".into()),
    });
    assert_eq!(
        file_response.to_bytes().unwrap(),
        bincode::serialize(&(7u32, "x", 1u64, hash, 2u32, true, Some("e"))).unwrap()
    );

    let chunk = Message::FileChunk(FileChunk {
        relative_path: "x".into(),
        chunk_index: 3,
        total_chunks: 4,
        data: vec![1, 2, 3],
        chunk_hash: digest,
    });
    assert_eq!(
        chunk.to_bytes().unwrap(),
        bincode::serialize(&(8u32, "x", 3u32, 4u32, vec![1u8, 2, 3], hash)).unwrap()
    );

    let complete = Message::TransferComplete(TransferComplete {
        relative_path: "x".into(),
        success: true,
        error: None,
    });
    assert_eq!(
        complete.to_bytes().unwrap(),
        bincode::serialize(&(9u32, "x", true, none)).unwrap()
    );

    let heartbeat = Message::Heartbeat(Heartbeat {
        node_id: id,
        timestamp: time,
    });
    assert_eq!(
        heartbeat.to_bytes().unwrap(),
        bincode::serialize(&(10u32, uuid, stamp)).unwrap()
    );

    let heartbeat_ack = Message::HeartbeatAck(HeartbeatAck {
        node_id: id,
        timestamp: time,
    });
    assert_eq!(
        heartbeat_ack.to_bytes().unwrap(),
        bincode::serialize(&(11u32, uuid, stamp)).unwrap()
    );

    let error = Message::Error(ErrorMessage {
        code: 4002,
        message: "m".into(),
    });
    assert_eq!(
        error.to_bytes().unwrap(),
        bincode::serialize(&(12u32, 4002u32, "m")).unwrap()
    );
}

#[test]
fn bytes_of_a_message() {
    let chunk = Message::FileChunk(FileChunk {
        relative_path: "ä".into(),
        chunk_index: 0x0102,
        total_chunks: 0xFFFF_FFFF,
        data: vec![7, 8],
        chunk_hash: Digest { bytes: [5; 32] },
    });
    let mut expected = vec![8, 0, 0, 0];
    expected.extend_from_slice(&[2, 0, 0, 0, 0, 0, 0, 0, 0xC3, 0xA4]);
    expected.extend_from_slice(&[2, 1, 0, 0, 0xFF, 0xFF, 0xFF, 0xFF]);
    expected.extend_from_slice(&[2, 0, 0, 0, 0, 0, 0, 0, 7, 8]);
    expected.extend_from_slice(&[5; 32]);
    assert_eq!(chunk.to_bytes().unwrap(), expected);

    let ack = Message::HandshakeAck(HandshakeAck {
        accepted: true,
        node_id: NodeId { bytes: ID },
        node_name: "n".into(),
        message: Some("m".into()),
    });
    let mut expected = vec![1, 0, 0, 0, 1];
    expected.extend_from_slice(&[16, 0, 0, 0, 0, 0, 0, 0]);
    expected.extend_from_slice(&ID);
    expected.extend_from_slice(&[1, 0, 0, 0, 0, 0, 0, 0, b'n']);
    expected.extend_from_slice(&[1, 1, 0, 0, 0, 0, 0, 0, 0, b'm']);
    assert_eq!(ack.to_bytes().unwrap(), expected);

    let request = Message::PairRequest(PairRequest {
        protocol_version: 1,
        auth_token: [9, 8, 7, 6],
        node_id: NodeId { bytes: ID },
        node_name: "".into(),
        hostname: "".into(),
    });
    assert_eq!(
        request.to_bytes().unwrap()[..12],
        [2, 0, 0, 0, 1, 0, 0, 0, 9, 8, 7, 6]
    );
}

/// The time in a message is what chrono's own serialisation writes.
#[test]
fn times_have_the_bytes_of_chrono() {
    for (secs, nanos) in [
        (0i64, 0u32),
        (1_700_000_000, 123_456_789),
        (-1, 999_999_999),
        (253_402_300_800, 0),
        (59, 1_500_000_000),
        (crossbag::clock::MIN_SECS, 0),
        (crossbag::clock::MAX_SECS, 999_999_999),
    ] {
        let time = Timestamp::new(secs, nanos).unwrap();
        let chrono_time = chrono::DateTime::from_timestamp(secs, nanos).unwrap();
        let message = Message::Heartbeat(Heartbeat {
            node_id: NodeId { bytes: ID },
            timestamp: time,
        });
        let bytes = message.to_bytes().unwrap();
        assert_eq!(
            bytes,
            bincode::serialize(&(10u32, uuid::Uuid::from_bytes(ID), chrono_time)).unwrap()
        );
        match Message::from_bytes(&bytes).unwrap() {
            Message::Heartbeat(h) => assert_eq!(h.timestamp, time),
            _ => panic!("Expected Heartbeat"),
        }
    }
}

/// Every message survives, whatever follows it.
#[test]
fn messages_survive_with_bytes_after_them() {
    let message = Message::FileIndexAck(FileIndexAck {
        pair_id: "pair".into(),
        needed_files: vec!["a".into(), "".into()],
        offered_files: vec!["ü/β".into()],
    });
    let mut bytes = message.to_bytes().unwrap();
    bytes.extend_from_slice(&[0xFF; 9]);
    match Message::from_bytes(&bytes).unwrap() {
        Message::FileIndexAck(a) => {
            assert_eq!(a.pair_id, "pair");
            assert_eq!(a.needed_files, vec!["a".to_string(), "".to_string()]);
            assert_eq!(a.offered_files, vec!["ü/β".to_string()]);
        }
        _ => panic!("Expected FileIndexAck"),
    }
}

#[test]
fn malformed_messages_are_refused() {
    let malformed = Some(WireError::Malformed);
    let good = Message::HandshakeAck(HandshakeAck {
        accepted: true,
        node_id: NodeId { bytes: ID },
        node_name: "node".into(),
        message: None,
    })
    .to_bytes()
    .unwrap();
    // Cut short anywhere.
    for n in 0..good.len() {
        assert_eq!(Message::from_bytes(&good[..n]).err(), malformed);
    }
    // An unknown kind.
    let mut bytes = good.clone();
    bytes[0] = 13;
    assert_eq!(Message::from_bytes(&bytes).err(), malformed);
    // A truth value that is none.
    let mut bytes = good.clone();
    bytes[4] = 2;
    assert_eq!(Message::from_bytes(&bytes).err(), malformed);
    // An identifier of another length.
    let mut bytes = good.clone();
    bytes[5] = 15;
    assert_eq!(Message::from_bytes(&bytes).err(), malformed);
    // A text that is no UTF-8.
    let mut bytes = good.clone();
    let at = bytes.len() - 2;
    bytes[at] = 0xFF;
    assert_eq!(Message::from_bytes(&bytes).err(), malformed);
    // An option that is none.
    let mut bytes = good.clone();
    let at = bytes.len() - 1;
    bytes[at] = 7;
    assert_eq!(Message::from_bytes(&bytes).err(), malformed);
    // A length beyond all bounds.
    let mut bytes = good.clone();
    for i in 5..13 {
        bytes[i] = 0xFF;
    }
    assert_eq!(Message::from_bytes(&bytes).err(), malformed);
    // A time that is none.
    let bytes =
        bincode::serialize(&(10u32, uuid::Uuid::from_bytes(ID), "yesterday")).unwrap();
    assert_eq!(Message::from_bytes(&bytes).err(), malformed);
    assert!(Message::from_bytes(&good).is_ok());
}

/// A time with an offset is read in UTC.
#[test]
fn times_with_offsets_are_read() {
    let bytes = bincode::serialize(&(
        11u32,
        uuid::Uuid::from_bytes(ID),
        "1970-01-01T01:00:01+01:00",
    ))
    .unwrap();
    match Message::from_bytes(&bytes).unwrap() {
        Message::HeartbeatAck(h) => {
            assert_eq!(h.timestamp.secs(), 1);
            assert_eq!(h.timestamp.nanos(), 0);
            assert_eq!(h.node_id.bytes, ID);
        }
        _ => panic!("Expected HeartbeatAck"),
    }
}

#[test]
fn protocol_constants() {
    assert_eq!(PROTOCOL_VERSION, 1);
    assert_eq!(DEFAULT_PORT, 9527);
    assert_eq!(CHUNK_SIZE, 64 * 1024);
    assert_eq!(error_codes::VERSION_MISMATCH, 1001);
    assert_eq!(error_codes::AUTH_FAILED, 1002);
    assert_eq!(error_codes::FILE_NOT_FOUND, 2001);
    assert_eq!(error_codes::PERMISSION_DENIED, 2002);
    assert_eq!(error_codes::TRANSFER_FAILED, 3001);
    assert_eq!(error_codes::CHECKSUM_MISMATCH, 3002);
    assert_eq!(error_codes::NODE_UNREACHABLE, 4001);
    assert_eq!(error_codes::TIMEOUT, 4002);
}
