//! Pairing codes.

use crossbag::base32::{base32_decode, base32_encode, format_pairing_code, CodeError};
use crossbag::config::CrossBagConfig;
use crossbag::identity::NodeId;
use crossbag::pairing::{
    blake3_hash4, port_of_listeners, save_peer_to_config, PairingCode, PairingError, PairingListener,
    PeerInfo,
};
use std::sync::Arc;

fn config() -> CrossBagConfig {
    CrossBagConfig::for_node(
        NodeId { bytes: [3; 16] },
        "node-a".to_string(),
        "instance".to_string(),
    )
}

#[test]
fn test_base32_encode_decode_roundtrip() {
    let data = vec![0xDE, 0xAD, 0xBE, 0xEF, 0xCA, 0xFE, 0xBA, 0xBE];
    let encoded = base32_encode(&data);
    let decoded = base32_decode(&encoded).unwrap();
    assert_eq!(data, decoded);
}

#[test]
fn test_base32_empty() {
    let encoded = base32_encode(&[]);
    assert_eq!(encoded, "");
}

#[test]
fn test_base32_single_byte() {
    let data = vec![0xFF];
    let encoded = base32_encode(&data);
    let decoded = base32_decode(&encoded).unwrap();
    assert_eq!(data, decoded);
}

#[test]
fn test_base32_invalid_char() {
    let result = base32_decode("HELLO@WORLD");
    assert!(result.is_err());
}

#[test]
fn test_base32_case_insensitive() {
    let upper = base32_encode(&[0x48, 0x65, 0x6C, 0x6C, 0x6F]);
    let decoded_upper = base32_decode(&upper).unwrap();
    let decoded_lower = base32_decode(&upper.to_lowercase()).unwrap();
    assert_eq!(decoded_upper, decoded_lower);
}

#[test]
fn test_pairing_code_roundtrip() {
    let code =
        PairingCode::generate([192, 168, 1, 100], 11010, "test-network", "test-secret").unwrap();

    let encoded = code.encode();
    let decoded = PairingCode::decode(&encoded).unwrap();

    assert_eq!(code.physical_ip, decoded.physical_ip);
    assert_eq!(code.easytier_port, decoded.easytier_port);
    assert_eq!(code.network_name_hash, decoded.network_name_hash);
    assert_eq!(code.network_secret_hash, decoded.network_secret_hash);
    assert_eq!(code.auth_token, decoded.auth_token);
}

#[test]
fn test_pairing_code_no_physical_ip() {
    let code = PairingCode::generate([0, 0, 0, 0], 11010, "my-net", "my-secret").unwrap();

    assert!(!code.has_physical_ip());

    let encoded = code.encode();
    let decoded = PairingCode::decode(&encoded).unwrap();
    assert!(!decoded.has_physical_ip());
    assert_eq!(decoded.physical_ip, [0, 0, 0, 0]);
}

#[test]
fn test_pairing_code_verify_network() {
    let code =
        PairingCode::generate([10, 0, 0, 1], 11010, "correct-network", "correct-secret").unwrap();

    assert!(code.verify_network("correct-network", "correct-secret"));
    assert!(!code.verify_network("wrong-network", "correct-secret"));
    assert!(!code.verify_network("correct-network", "wrong-secret"));
    assert!(!code.verify_network("wrong-network", "wrong-secret"));
}

#[test]
fn test_pairing_code_format() {
    let code = PairingCode::generate([192, 168, 1, 1], 11010, "net", "secret").unwrap();

    let encoded = code.encode();
    assert_eq!(encoded.matches('-').count(), 5);
    let groups: Vec<&str> = encoded.split('-').collect();
    assert_eq!(groups.len(), 6);
    for (i, group) in groups.iter().enumerate() {
        if i < 5 {
            assert_eq!(group.len(), 5);
        } else {
            assert_eq!(group.len(), 4);
        }
    }
}

#[test]
fn test_pairing_code_dashes_optional() {
    let code = PairingCode::generate([172, 16, 0, 1], 11010, "dash-test", "dash-secret").unwrap();

    let with_dashes = code.encode();
    let without_dashes = with_dashes.replace('-', "");

    let decoded_with = PairingCode::decode(&with_dashes).unwrap();
    let decoded_without = PairingCode::decode(&without_dashes).unwrap();

    assert_eq!(decoded_with.auth_token, decoded_without.auth_token);
    assert_eq!(decoded_with.physical_ip, decoded_without.physical_ip);
}

#[test]
fn test_pairing_code_peer_url() {
    let code = PairingCode::generate([192, 168, 1, 100], 11010, "net", "secret").unwrap();

    assert_eq!(code.peer_url(), "tcp://192.168.1.100:11010");
}

#[test]
fn test_blake3_hash4_deterministic() {
    let h1 = blake3_hash4("hello");
    let h2 = blake3_hash4("hello");
    assert_eq!(h1, h2);

    let h3 = blake3_hash4("world");
    assert_ne!(h1, h3);
}

#[test]
fn test_format_pairing_code() {
    let raw = "ABCDE12345FGHIJ";
    let formatted = format_pairing_code(raw);
    assert_eq!(formatted, "ABCDE-12345-FGHIJ");
}

#[test]
fn base32_has_known_codes() {
    assert_eq!(base32_encode(&[0x00]), "00");
    assert_eq!(base32_encode(&[0xFF]), "ZW");
    assert_eq!(base32_encode(b"Hello"), "91JPRV3F");
    assert_eq!(base32_decode("91JPRV3F").unwrap(), b"Hello".to_vec());
    assert_eq!(base32_decode("9iJ-prv3F").unwrap(), b"Hello".to_vec());
    assert_eq!(base32_decode("OL").unwrap(), vec![0]);
    assert_eq!(base32_decode("Z").unwrap(), Vec::<u8>::new());
}

#[test]
fn base32_errors() {
    assert_eq!(base32_decode("").unwrap_err(), CodeError::Empty);
    assert_eq!(base32_decode("---").unwrap_err(), CodeError::Empty);
    assert_eq!(
        base32_decode("AB@C!").unwrap_err(),
        CodeError::InvalidCharacter('@')
    );
    assert_eq!(
        base32_decode("ABU").unwrap_err(),
        CodeError::InvalidCharacter('U')
    );
    assert_eq!(
        base32_decode("AB码").unwrap_err(),
        CodeError::InvalidCharacter('码')
    );
    assert_eq!(
        PairingCode::decode("91JPRV3F").unwrap_err(),
        CodeError::WrongLength(5)
    );
    assert_eq!(PairingCode::decode("-").unwrap_err(), CodeError::Empty);
}

#[test]
fn errors_in_words() {
    assert_eq!(CodeError::Empty.text(), "Empty pairing code");
    assert_eq!(
        base32_decode("AB@").unwrap_err().text(),
        "Invalid character in pairing code: '@'"
    );
    assert_eq!(
        PairingCode::decode("91JPRV3F").unwrap_err().text(),
        "Invalid pairing code length: expected 18 bytes, got 5"
    );
    assert_eq!(
        PairingError::NoRandomness("no entropy".into()).text(),
        "Failed to generate random auth token: no entropy"
    );
}

#[test]
fn every_length_survives_base32() {
    for n in 1..64usize {
        let data: Vec<u8> = (0..n).map(|i| (i * 37 + n) as u8).collect();
        let code = base32_encode(&data);
        assert_eq!(code.len(), (8 * n + 4) / 5);
        assert_eq!(base32_decode(&code).unwrap(), data);
        assert_eq!(base32_decode(&format_pairing_code(&code)).unwrap(), data);
        assert_eq!(base32_decode(&code.to_lowercase()).unwrap(), data);
    }
}

#[test]
fn grouping_by_five() {
    assert_eq!(format_pairing_code(""), "");
    assert_eq!(format_pairing_code("12345"), "12345");
    assert_eq!(format_pairing_code("123456"), "12345-6");
}

#[test]
fn a_code_holds_what_it_was_made_of() {
    let code = PairingCode::with_token([1, 2, 3, 4], 0x1234, "net", "secret", [9, 8, 7, 6]);
    assert_eq!(code.network_name_hash, blake3::hash(b"net").as_bytes()[..4]);
    assert_eq!(
        code.network_secret_hash,
        blake3::hash(b"secret").as_bytes()[..4]
    );
    assert_eq!(code.easytier_port(), 0x1234);
    assert_eq!(code.auth_token(), [9, 8, 7, 6]);
    assert_eq!(code.physical_ip_str(), "1.2.3.4");
    assert!(code.has_physical_ip());

    let bytes = base32_decode(&code.encode()).unwrap();
    assert_eq!(bytes.len(), 18);
    assert_eq!(bytes[..6], [1, 2, 3, 4, 0x12, 0x34]);
    assert_eq!(bytes[14..], [9, 8, 7, 6]);

    let typed = PairingCode::decode(&code.encode().to_lowercase()).unwrap();
    assert_eq!(typed.auth_token, code.auth_token);
    assert_eq!(typed.easytier_port, code.easytier_port);
}

#[test]
fn tokens_are_drawn_anew() {
    let tokens: Vec<[u8; 4]> = (0..8)
        .map(|_| PairingCode::generate([0; 4], 1, "n", "s").unwrap().auth_token)
        .collect();
    assert!(tokens.iter().any(|t| *t != tokens[0]));
}

#[test]
fn a_draw_decides_the_code() {
    let code = PairingCode::with_draw([1, 2, 3, 4], 7, "n", "s", Ok([9, 8, 7, 6])).unwrap();
    assert_eq!(code.physical_ip, [1, 2, 3, 4]);
    assert_eq!(code.easytier_port, 7);
    assert!(code.verify_network("n", "s"));
    assert_eq!(code.auth_token, [9, 8, 7, 6]);
    let none = PairingCode::with_draw([1, 2, 3, 4], 7, "n", "s", Err("dry".into()));
    assert_eq!(
        none.unwrap_err().text(),
        "Failed to generate random auth token: dry"
    );

    let mut listener = PairingListener::new(Arc::new(config()));
    let shown = listener.show_draw([10, 0, 0, 7], Ok([5, 6, 7, 8])).unwrap();
    assert_eq!(listener.auth_token(), [5, 6, 7, 8]);
    let code = PairingCode::decode(&shown).unwrap();
    assert_eq!(code.auth_token, [5, 6, 7, 8]);
    assert_eq!(code.physical_ip, [10, 0, 0, 7]);
    let none = listener.show_draw([0; 4], Err("dry".into()));
    assert_eq!(
        none.unwrap_err().text(),
        "Failed to generate random auth token: dry"
    );
    assert_eq!(listener.auth_token(), [5, 6, 7, 8]);
}

#[test]
fn port_of_the_first_listener() {
    let port = |l: &[&str]| port_of_listeners(&l.iter().map(|s| s.to_string()).collect());
    assert_eq!(port(&[]), 11010);
    assert_eq!(port(&["tcp://0.0.0.0:22020", "udp://0.0.0.0:1"]), 22020);
    assert_eq!(port(&["4711"]), 4711);
    assert_eq!(port(&["tcp://host:+80"]), 80);
    assert_eq!(port(&["tcp://host:"]), 11010);
    assert_eq!(port(&["tcp://host:65536"]), 11010);
    assert_eq!(port(&["tcp://host:65535"]), 65535);
    assert_eq!(port(&["tcp://host:0080"]), 80);
    assert_eq!(port(&["tcp://host:80/path"]), 11010);
    assert_eq!(port(&["tcp://host"]), 11010);
}

#[test]
fn a_listener_shows_its_token() {
    let mut listener = PairingListener::new(Arc::new(config()));
    assert_eq!(listener.auth_token(), [0, 0, 0, 0]);
    let shown = listener.generate_code([10, 0, 0, 7]).unwrap();
    let code = PairingCode::decode(&shown).unwrap();
    assert_eq!(code.auth_token, listener.auth_token());
    assert_eq!(code.physical_ip, [10, 0, 0, 7]);
    assert_eq!(code.easytier_port, 11010);
    assert!(code.verify_network("crossbag-network", ""));

    let shown = listener.show_code([0; 4], [5, 6, 7, 8]);
    assert_eq!(listener.auth_token(), [5, 6, 7, 8]);
    assert_eq!(PairingCode::decode(&shown).unwrap().auth_token, [5, 6, 7, 8]);
}

#[test]
fn a_paired_node_becomes_a_peer() {
    let mut c = config();
    c.put_peer("other".into(), "Other".into(), "10.0.0.1:1".into());
    let peer = PeerInfo {
        node_id: NodeId {
            bytes: [
                0x55, 0x0e, 0x84, 0x00, 0xe2, 0x9b, 0x41, 0xd4, 0xa7, 0x16, 0x44, 0x66, 0x55, 0x44,
                0x00, 0x00,
            ],
        },
        node_name: "Office".into(),
        hostname: "office-pc".into(),
        virtual_ip: "10.144.144.2".into(),
    };
    save_peer_to_config(&mut c, &peer);
    assert_eq!(c.network.peers.len(), 2);
    let saved = c
        .network
        .peers
        .get("550e8400-e29b-41d4-a716-446655440000")
        .unwrap();
    assert_eq!(saved.name, "Office");
    assert_eq!(saved.address, "10.144.144.2:9527");
    assert_eq!(c.network.peers.get("other").unwrap().name, "Other");

    let again = PeerInfo {
        virtual_ip: "10.144.144.3".into(),
        ..peer
    };
    save_peer_to_config(&mut c, &again);
    assert_eq!(c.network.peers.len(), 2);
}
