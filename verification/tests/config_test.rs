//! The configuration.

use crossbag::cli::StartConnectArgs;
use crossbag::config::{
    find_config_path, AdvancedConfig, ConfigChoice, ConfigError, CrossBagConfig, EasytierConfig,
    PeerConfig, Place, Platform, Surroundings, SyncDirection, DEFAULT_CONFIG_FILE,
};
use crossbag::identity::NodeId;
use crossbag::report::{
    init_allowed, init_path, list_lines, status_lines, sync_line, version_lines,
};
use crossbag::sync::SyncResult;
use crossbag::table::Table;

fn config() -> CrossBagConfig {
    let mut c = CrossBagConfig::for_node(
        NodeId { bytes: [0xab; 16] },
        "home".to_string(),
        "home-et".to_string(),
    );
    c.put_peer("office".into(), "Office PC".into(), "10.0.0.2:9527".into());
    c
}

fn surroundings(platform: Platform) -> Surroundings {
    Surroundings {
        platform,
        xdg_config_home: None,
        home: Some("/home/u".into()),
        app_data: Some("C:\\AppData".into()),
    }
}

#[test]
fn config_test_easytier_config_defaults() {
    let config = EasytierConfig::default();
    assert_eq!(config.binary_path, "easytier-core");
    assert_eq!(config.network_name, "crossbag-network");
    assert_eq!(config.listeners.len(), 2);
    assert!(config.auto_start);
    assert_eq!(config.health_check_interval, 10);
    assert_eq!(config.max_restarts, 5);
    assert_eq!(config.startup_timeout, 30);
}

#[test]
fn test_sync_direction_default() {
    assert_eq!(SyncDirection::default(), SyncDirection::Bidirectional);
}

#[test]
fn test_validate_empty_peers() {
    let mut config = CrossBagConfig::default_config();
    config.network.peers = Table::new();
    let result = config.validate(&vec![]);
    assert!(result.is_err());
    assert!(result.unwrap_err().text().contains("peer"));
}

#[test]
fn test_validate_valid_config() {
    let mut config = CrossBagConfig::default_config();
    config.network.peers.insert(
        "test-peer".into(),
        PeerConfig {
            name: "Test Peer".into(),
            address: "10.0.0.1:9527".into(),
        },
    );
    let result = config.validate(&vec![]);
    assert!(
        result.is_ok(),
        "Expected valid config, got: {:?}",
        result.err()
    );
}

#[test]
fn defaults_of_a_node() {
    let c = CrossBagConfig::default_config();
    assert_eq!(c.node.listen_addr, "0.0.0.0");
    assert_eq!(c.node.port, 9527);
    assert_eq!(c.listen_text(), "0.0.0.0:9527");
    assert_eq!(c.network.connect_timeout, 30);
    assert_eq!(c.network.heartbeat_interval, 10);
    assert_eq!(c.network.transfer_timeout, 300);
    assert!(c.network.peers.is_empty());
    assert!(c.sync_pairs.is_empty());
    assert_eq!(c.easytier.listeners[1], "udp://0.0.0.0:11010");
    let a = AdvancedConfig::default();
    assert_eq!(a.hash_algorithm, "blake3");
    assert_eq!(a.chunk_size, 65536);
    assert_eq!(a.max_concurrent_transfers, 4);
    assert_eq!(a.log_level, "info");
    assert!(a.metadata_dir.is_none());
    // Version 4, variant 1.
    assert_eq!(c.node.node_id.bytes[6] >> 4, 4);
    assert_eq!(c.node.node_id.bytes[8] >> 6, 2);
    let other = CrossBagConfig::default_config();
    assert_ne!(c.node.node_id.bytes, other.node.node_id.bytes);
}

#[test]
fn the_name_of_a_node() {
    assert_eq!(crossbag::config::node_name(Some("box".into())), "box");
    assert_eq!(crossbag::config::node_name(None), "crossbag-node");
    let host = hostname::get().unwrap().to_string_lossy().to_string();
    assert_eq!(CrossBagConfig::default_config().node.name, host);
}

#[test]
fn pairs_are_added_once() {
    let mut c = config();
    c.add_pair("docs".into(), "/l".into(), "office".into(), "/r".into())
        .unwrap();
    assert_eq!(c.sync_pairs.len(), 1);
    let p = &c.sync_pairs[0];
    assert_eq!(p.id, "docs");
    assert_eq!(p.local_path, "/l");
    assert_eq!(p.remote_node, "office");
    assert_eq!(p.remote_path, "/r");
    assert_eq!(p.direction, SyncDirection::Bidirectional);
    assert!(p.exclude_patterns.is_empty());
    assert!(p.enabled && p.watch);
    assert_eq!(p.full_sync_interval, 300);

    let e = c
        .add_pair("docs".into(), "/x".into(), "office".into(), "/y".into())
        .unwrap_err();
    assert_eq!(e.text(), "Sync pair 'docs' already exists");
    let e = c
        .add_pair("new".into(), "/x".into(), "nowhere".into(), "/y".into())
        .unwrap_err();
    assert_eq!(
        e.text(),
        "Remote node 'nowhere' not found in peers. Add it first."
    );
    assert_eq!(c.sync_pairs.len(), 1);
    assert_eq!(c.find_pair("docs"), Some(0));
    assert_eq!(c.find_pair("new"), None);
}

#[test]
fn validation_names_the_first_problem() {
    let mut c = config();
    for id in ["a", "b", "c"] {
        c.add_pair(id.into(), format!("/l/{}", id), "office".into(), "/r".into())
            .unwrap();
    }
    assert!(c.validate(&vec![true, true, true]).is_ok());
    match c.validate(&vec![true, false, false]).unwrap_err() {
        ConfigError::LocalPathMissing {
            pair_id,
            local_path,
        } => {
            assert_eq!(pair_id, "b");
            assert_eq!(local_path, "/l/b");
        }
        e => panic!("{:?}", e),
    }
    assert_eq!(
        c.validate(&vec![true, false, true]).unwrap_err().text(),
        "Local path does not exist for sync pair 'b': \"/l/b\""
    );
    c.sync_pairs[0].remote_node = "gone".into();
    assert_eq!(
        c.validate(&vec![true, false, true]).unwrap_err().text(),
        "Remote node 'gone' not found in peers for sync pair 'a'"
    );
}

#[test]
fn pairs_to_work_on() {
    let mut c = config();
    for id in ["a", "b", "c", "d"] {
        c.add_pair(id.into(), "/l".into(), "office".into(), "/r".into())
            .unwrap();
    }
    c.sync_pairs[1].watch = false;
    c.sync_pairs[2].enabled = false;
    c.sync_pairs[3].full_sync_interval = 0;
    assert_eq!(c.select_pairs(&None), vec![0, 1, 2, 3]);
    assert_eq!(c.select_pairs(&Some("c".into())), vec![2]);
    assert_eq!(c.select_pairs(&Some("x".into())), Vec::<usize>::new());
    assert_eq!(c.watched_pairs(&None), vec![0, 3]);
    assert_eq!(c.watched_pairs(&Some("d".into())), vec![3]);
    assert_eq!(c.watched_pairs(&Some("b".into())), Vec::<usize>::new());
    assert_eq!(c.periodic_pairs(), vec![0, 1]);
}

#[test]
fn where_the_configuration_stands() {
    let place = CrossBagConfig::default_path(&surroundings(Platform::Linux));
    assert_eq!(place.base, "/home/u");
    assert_eq!(place.steps, vec![".config", "crossbag", "crossbag.toml"]);

    let mut s = surroundings(Platform::Linux);
    s.xdg_config_home = Some("/xdg".into());
    let place = CrossBagConfig::default_path(&s);
    assert_eq!(place.base, "/xdg");
    assert_eq!(place.steps, vec!["crossbag", "crossbag.toml"]);

    // The same place, whether the environment names `.config` or not.
    s.xdg_config_home = Some("/home/u/.config".into());
    let named = CrossBagConfig::default_path(&s);
    let home = CrossBagConfig::default_path(&surroundings(Platform::Linux));
    let whole = |p: &Place| format!("{}/{}", p.base, p.steps.join("/"));
    assert_eq!(whole(&named), "/home/u/.config/crossbag/crossbag.toml");
    assert_eq!(whole(&home), whole(&named));

    let place = CrossBagConfig::default_path(&surroundings(Platform::MacOs));
    assert_eq!(
        place.steps,
        vec!["Library", "Application Support", "crossbag", "crossbag.toml"]
    );

    let place = CrossBagConfig::default_path(&surroundings(Platform::Windows));
    assert_eq!(place.base, "C:\\AppData");
    assert_eq!(place.steps, vec!["crossbag", "crossbag.toml"]);

    let place = CrossBagConfig::default_path(&surroundings(Platform::Other));
    assert_eq!(place.base, ".");
    assert_eq!(place.steps, vec![DEFAULT_CONFIG_FILE]);

    let mut s = surroundings(Platform::Linux);
    s.home = None;
    assert_eq!(CrossBagConfig::default_path(&s).base, ".");
}

#[test]
fn which_configuration_is_read() {
    let given = || Some("/etc/c.toml".to_string());
    assert!(matches!(
        find_config_path(given(), true, true),
        ConfigChoice::Given(p) if p == "/etc/c.toml"
    ));
    assert!(matches!(
        find_config_path(given(), false, true),
        ConfigChoice::CurrentDir
    ));
    assert!(matches!(
        find_config_path(None, true, true),
        ConfigChoice::CurrentDir
    ));
    assert!(matches!(
        find_config_path(given(), false, false),
        ConfigChoice::DefaultPlace
    ));
}

#[test]
fn a_list_of_pairs() {
    let mut c = config();
    assert_eq!(list_lines(&c), vec!["No sync pairs configured."]);
    c.add_pair("docs".into(), "/l".into(), "office".into(), "/r".into())
        .unwrap();
    let lines = list_lines(&c);
    assert_eq!(lines.len(), 3);
    assert_eq!(
        lines[0],
        format!(
            "{:<20} {:<40} {:<20} {:<40}",
            "ID", "Local Path", "Remote Node", "Remote Path"
        )
    );
    assert_eq!(lines[1], "-".repeat(120));
    assert_eq!(
        lines[2],
        format!("{:<20} {:<40} {:<20} {:<40}", "docs", "/l", "office", "/r")
    );
}

#[test]
fn the_status_of_a_node() {
    let mut c = config();
    c.add_pair("docs".into(), "/l\"q".into(), "office".into(), "/r".into())
        .unwrap();
    c.add_pair("pics".into(), "/p".into(), "office".into(), "/r".into())
        .unwrap();
    c.sync_pairs[1].enabled = false;
    c.sync_pairs[1].direction = SyncDirection::PullOnly;
    c.sync_pairs[1].exclude_patterns = vec!["*.tmp".into(), "a\"b".into()];
    assert_eq!(
        status_lines(&c, &None, false),
        vec![
            "=== CrossBag Status ===",
            "Node ID:   abababab-abab-abab-abab-abababababab",
            "Node Name: home",
            "Listen:    0.0.0.0:9527",
            "",
            "Sync Pairs: 2",
            "  [✓] docs",
            "    Local:  \"/l\\\"q\"",
            "    Remote: office -> \"/r\"",
            "    Direction: Bidirectional",
            "",
            "  [✗] pics",
            "    Local:  \"/p\"",
            "    Remote: office -> \"/r\"",
            "    Direction: PullOnly",
            "",
            "",
            "Peers: 1",
            "  office: Office PC (10.0.0.2:9527)",
        ]
    );
    let lines = status_lines(&c, &Some("pics".into()), true);
    assert_eq!(lines[5], "Sync Pairs: 1");
    assert_eq!(lines[10], "    Watch: true");
    assert_eq!(lines[11], "    Full Sync Interval: 300s");
    assert_eq!(
        lines[12],
        format!("    Exclude: {:?}", c.sync_pairs[1].exclude_patterns)
    );
}

#[test]
fn other_output() {
    assert_eq!(
        version_lines(),
        vec![
            "CrossBag 0.1.0",
            "Protocol version: 1",
            "License: Apache-2.0",
            "Repository: https://github.com/bit-torch/CrossBag",
        ]
    );
    let r = SyncResult {
        pair_id: "docs".into(),
        files_synced: 12,
        files_deleted: 0,
        bytes_transferred: 3400,
        errors: vec![],
    };
    assert_eq!(
        sync_line(&r),
        "Pair 'docs': 12 files synced, 3400 bytes transferred"
    );
    assert_eq!(init_path(None), "crossbag.toml");
    assert_eq!(init_path(Some("x.toml".into())), "x.toml");
    assert!(init_allowed(false, false));
    assert!(init_allowed(true, true));
    assert!(!init_allowed(true, false));
    assert_eq!(StartConnectArgs { timeout: 0 }.wait_seconds(), None);
    assert_eq!(StartConnectArgs { timeout: 9 }.wait_seconds(), Some(9));
}
