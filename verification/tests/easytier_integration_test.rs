//! The process of the virtual network.

use crossbag::config::EasytierConfig;
use crossbag::easytier::{
    is_error_line, BinaryLookup, ChildStatus, EasytierManager, EasytierState, HealthPlan,
    ReadyStep,
};
use crossbag::protocol::PROTOCOL_VERSION;

fn small() -> EasytierConfig {
    EasytierConfig {
        max_restarts: 2,
        ..EasytierConfig::for_instance("node-a".into())
    }
}

#[test]
fn easytier_integration_test_test_easytier_config_defaults() {
    let config = EasytierConfig::default();
    assert_eq!(config.binary_path, "easytier-core");
    assert_eq!(config.network_name, "crossbag-network");
    assert!(config.listeners.len() >= 2);
    assert!(config.auto_start);
    assert_eq!(config.max_restarts, 5);
    assert_eq!(config.startup_timeout, 30);
    assert_eq!(config.health_check_interval, 10);
}

#[test]
fn test_easytier_custom_config() {
    let config = EasytierConfig {
        binary_path: "/usr/local/bin/easytier-core".into(),
        network_name: "my-network".into(),
        network_secret: "secret123".into(),
        instance_name: "node-a".into(),
        listeners: vec!["tcp://0.0.0.0:22020".into()],
        auto_start: false,
        health_check_interval: 30,
        max_restarts: 3,
        startup_timeout: 60,
    };

    assert_eq!(config.binary_path, "/usr/local/bin/easytier-core");
    assert_eq!(config.network_name, "my-network");
    assert!(!config.auto_start);
    assert_eq!(config.max_restarts, 3);
}

#[test]
fn test_manager_initial_state() {
    let config = EasytierConfig::default();
    let mgr = EasytierManager::new(config);
    assert!(!mgr.is_running());
}

#[test]
fn test_binary_detection() {
    let config = EasytierConfig {
        binary_path: "nonexistent-easytier-binary-xyz".into(),
        ..EasytierConfig::default()
    };
    let mgr = EasytierManager::new(config);
    // The search finds nothing.
    let result = mgr.check_binary(false, &None);
    assert!(result.is_err(), "Should fail for nonexistent binary");
}

#[test]
fn test_binary_detection_existing() {
    let config = EasytierConfig {
        binary_path: "cargo".into(),
        ..EasytierConfig::default()
    };
    let mgr = EasytierManager::new(config);
    // The search prints where it is.
    let result = mgr.check_binary(false, &Some("/usr/bin/cargo\n".into()));
    assert!(result.is_ok(), "Should find cargo: {:?}", result.err());
}

#[test]
fn test_state_transitions() {
    let config = EasytierConfig::default();
    let mut mgr = EasytierManager::new(config);

    let state = mgr.status(ChildStatus::Running);
    assert_eq!(state, EasytierState::Stopped);
}

#[test]
fn test_protocol_version_compatibility() {
    assert!(PROTOCOL_VERSION > 0);

    assert_eq!(PROTOCOL_VERSION, 1);
}

#[test]
fn test_crossbag_semver() {
    let version = crossbag::report::VERSION;

    let parts: Vec<&str> = version.split('.').collect();
    assert_eq!(parts.len(), 3, "Version should be semver: {}", version);
    assert!(
        parts[0].parse::<u32>().is_ok(),
        "Major version should be number"
    );
    assert!(
        parts[1].parse::<u32>().is_ok(),
        "Minor version should be number"
    );
    assert!(
        parts[2].parse::<u32>().is_ok(),
        "Patch version should be number"
    );
}

#[test]
fn how_the_program_is_found() {
    let mgr = EasytierManager::new(small());
    assert!(matches!(
        mgr.binary_lookup(false),
        BinaryLookup::Search(c) if c == "which easytier-core"
    ));
    assert!(matches!(
        mgr.binary_lookup(true),
        BinaryLookup::Search(c) if c == "where easytier-core"
    ));
    assert_eq!(
        mgr.check_binary(true, &Some("  /opt/et \r\n/usr/et\n".into()))
            .unwrap(),
        "/opt/et"
    );
    assert_eq!(
        mgr.check_binary(true, &Some("".into())).unwrap(),
        "easytier-core"
    );
    assert_eq!(
        mgr.check_binary(true, &None).unwrap_err().text(),
        "Easytier binary 'easytier-core' not found in PATH. Please install easytier or specify full path in config."
    );

    // No path at all is a search for the usual name.
    let empty = EasytierManager::new(EasytierConfig {
        binary_path: "".into(),
        ..small()
    });
    assert!(matches!(
        empty.binary_lookup(false),
        BinaryLookup::Search(c) if c == "which easytier-core"
    ));
    assert!(matches!(
        empty.binary_lookup(true),
        BinaryLookup::Search(c) if c == "where easytier-core"
    ));
    assert_eq!(
        empty
            .check_binary(false, &Some("/usr/bin/easytier-core\n".into()))
            .unwrap(),
        "/usr/bin/easytier-core"
    );
    assert_eq!(empty.check_binary(false, &Some("".into())).unwrap(), "easytier-core");
    assert_eq!(
        empty.check_binary(false, &None).unwrap_err().text(),
        "Easytier binary 'easytier-core' not found in PATH. Please install easytier or specify full path in config."
    );

    for path in ["/opt/et", "C:\\et.exe"] {
        let mgr = EasytierManager::new(EasytierConfig {
            binary_path: path.into(),
            ..small()
        });
        assert!(matches!(mgr.binary_lookup(false), BinaryLookup::AtPath(p) if p == path));
        assert_eq!(mgr.check_binary(true, &None).unwrap(), path);
        assert_eq!(
            mgr.check_binary(false, &Some("/usr/bin/et".into()))
                .unwrap_err()
                .text(),
            format!("Easytier binary not found at: {}", path)
        );
    }
}

#[test]
fn the_arguments_of_the_program() {
    let mgr = EasytierManager::new(EasytierConfig::for_instance("home".into()));
    assert_eq!(
        mgr.build_args(),
        vec![
            "--instance-name",
            "home",
            "--network-name",
            "crossbag-network",
            "--listeners",
            "tcp://0.0.0.0:11010 udp://0.0.0.0:11010",
            "--disable-dhcp",
        ]
    );
    let mgr = EasytierManager::new(EasytierConfig {
        network_secret: "s".into(),
        listeners: vec![],
        ..EasytierConfig::for_instance("home".into())
    });
    assert_eq!(
        mgr.build_args(),
        vec![
            "--instance-name",
            "home",
            "--network-name",
            "crossbag-network",
            "--network-secret",
            "s",
            "--disable-dhcp",
        ]
    );
}

#[test]
fn a_crashing_process_is_restarted_so_often() {
    let mut mgr = EasytierManager::new(small());
    assert!(mgr.start());
    mgr.spawned();
    assert!(!mgr.start());
    assert!(matches!(
        mgr.health_check(ChildStatus::Running),
        HealthPlan::Settled(EasytierState::Running)
    ));
    for _ in 0..2 {
        assert!(matches!(
            mgr.health_check(ChildStatus::Exited("exit status: 1".into())),
            HealthPlan::Restart
        ));
        mgr.spawned();
        assert_eq!(mgr.restarted(Ok(())), EasytierState::Running);
    }
    match mgr.health_check(ChildStatus::Exited("exit status: 1".into())) {
        HealthPlan::Settled(s) => assert_eq!(
            s,
            EasytierState::Crashed(
                "Easytier exited unexpectedly with status: exit status: 1".into()
            )
        ),
        p => panic!("{:?}", p),
    }
    match mgr.health_check(ChildStatus::Running) {
        HealthPlan::Settled(s) => {
            assert_eq!(s, EasytierState::Failed("Max restarts (2) reached".into()))
        }
        p => panic!("{:?}", p),
    }
    assert_eq!(
        mgr.restarted(Err("no binary".into())),
        EasytierState::Failed("no binary".into())
    );
    // Stopping a process starts the count anew.
    mgr.spawned();
    assert!(mgr.stop());
    assert!(!mgr.stop());
    assert!(matches!(
        mgr.health_check(ChildStatus::Running),
        HealthPlan::Restart
    ));
}

#[test]
fn no_limit_and_no_restart() {
    let mut mgr = EasytierManager::new(EasytierConfig {
        max_restarts: 0,
        ..small()
    });
    for _ in 0..100 {
        assert!(matches!(
            mgr.health_check(ChildStatus::Running),
            HealthPlan::Restart
        ));
    }
    let mut mgr = EasytierManager::new(EasytierConfig {
        auto_start: false,
        ..small()
    });
    assert!(matches!(
        mgr.health_check(ChildStatus::Running),
        HealthPlan::Settled(EasytierState::Stopped)
    ));
    mgr.spawned();
    assert!(matches!(
        mgr.health_check(ChildStatus::Unknown("e".into())),
        HealthPlan::Settled(EasytierState::Crashed(w)) if w == "e"
    ));
    assert!(mgr.is_running());
    assert!(matches!(
        mgr.health_check(ChildStatus::Exited("s".into())),
        HealthPlan::Settled(EasytierState::Crashed(_))
    ));
    assert!(!mgr.is_running());
}

#[test]
fn how_the_process_stands() {
    let mut mgr = EasytierManager::new(small());
    mgr.spawned();
    assert_eq!(mgr.status(ChildStatus::Running), EasytierState::Running);
    assert_eq!(
        mgr.status(ChildStatus::Unknown("e".into())),
        EasytierState::Crashed("e".into())
    );
    assert_eq!(
        mgr.status(ChildStatus::Exited("s".into())),
        EasytierState::Crashed("Process exited".into())
    );
    assert_eq!(mgr.status(ChildStatus::Running), EasytierState::Stopped);
}

#[test]
fn waiting_for_the_network() {
    let mgr = EasytierManager::new(EasytierConfig {
        startup_timeout: 2,
        ..small()
    });
    assert!(matches!(
        mgr.wait_for_ready(&ChildStatus::Running, true, 9000),
        ReadyStep::Ready
    ));
    assert!(matches!(
        mgr.wait_for_ready(&ChildStatus::Running, false, 0),
        ReadyStep::Again
    ));
    assert!(matches!(
        mgr.wait_for_ready(&ChildStatus::Running, false, 1500),
        ReadyStep::Again
    ));
    assert!(matches!(
        mgr.wait_for_ready(&ChildStatus::Running, false, 1501),
        ReadyStep::GoOn(499)
    ));
    assert!(matches!(
        mgr.wait_for_ready(&ChildStatus::Running, false, u64::MAX),
        ReadyStep::GoOn(0)
    ));
    assert!(matches!(
        mgr.wait_for_ready(&ChildStatus::Exited("1".into()), true, 0),
        ReadyStep::Fail(w) if w == "Easytier exited early with status: 1"
    ));
    assert!(matches!(
        mgr.wait_for_ready(&ChildStatus::Unknown("e".into()), true, 0),
        ReadyStep::Fail(w) if w == "Failed to check Easytier status: e"
    ));
    let forever = EasytierManager::new(EasytierConfig {
        startup_timeout: u64::MAX,
        ..small()
    });
    assert!(matches!(
        forever.wait_for_ready(&ChildStatus::Running, false, u64::MAX),
        ReadyStep::Again
    ));
    assert!(is_error_line("an error happened"));
    assert!(is_error_line("ERROR"));
    assert!(!is_error_line("Error? warning"));
}
