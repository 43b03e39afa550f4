//! The node as a service of the system.

use crossbag::config::Platform;
use crossbag::service::{
    install, launchd_plist, plist_place, query_status, start_service, stop_service, systemd_unit,
    uninstall, Need, ServiceError, ServiceStep, StatusQuery,
};

fn line(step: &ServiceStep) -> String {
    match step {
        ServiceStep::Run {
            program,
            args,
            need,
        } => format!("{} {} {:?}", program, args.join(" "), need),
        ServiceStep::WriteFile {
            path, make_dirs, ..
        } => format!("write {} {}", path, make_dirs),
        ServiceStep::RemoveFile(path) => format!("remove {}", path),
    }
}

fn lines(steps: &[ServiceStep]) -> Vec<String> {
    steps.iter().map(line).collect()
}

#[test]
fn installing() {
    let steps = install(Platform::Linux, "/bin/cb", true, "/etc/c.toml", "").unwrap();
    assert_eq!(
        lines(&steps),
        vec![
            "write /etc/systemd/system/crossbag.service false",
            "systemctl daemon-reload Nothing",
            "systemctl enable crossbag Nothing",
        ]
    );
    match &steps[0] {
        ServiceStep::WriteFile { content, .. } => assert_eq!(
            *content,
            "[Unit]
Description=CrossBag File Sync Service
After=network.target easytier.service
Wants=network.target

[Service]
Type=simple
ExecStart=/bin/cb serve -c /etc/c.toml
Restart=on-failure
RestartSec=10
StandardOutput=journal
StandardError=journal
SyslogIdentifier=crossbag

[Install]
WantedBy=multi-user.target
"
        ),
        _ => panic!("no file"),
    }
    assert_eq!(
        systemd_unit("a", "b").lines().nth(7),
        Some("ExecStart=a serve -c b")
    );

    let steps = install(Platform::MacOs, "/bin/cb", true, "/c.toml", "/p.plist").unwrap();
    assert_eq!(
        lines(&steps),
        vec!["write /p.plist true", "launchctl load -w /p.plist Nothing"]
    );
    let plist = launchd_plist("/bin/cb", "/c.toml");
    assert!(plist.starts_with("<?xml version=\"1.0\" encoding=\"UTF-8\"?>\n<!DOCTYPE plist PUBLIC"));
    assert!(plist.contains(
        "    <array>
        <string>/bin/cb</string>
        <string>serve</string>
        <string>-c</string>
        <string>/c.toml</string>
    </array>
    <key>RunAtLoad</key>"
    ));
    assert!(plist.ends_with("<string>/tmp/crossbag.err.log</string>\n</dict>\n</plist>"));

    let steps = install(Platform::Windows, "C:\\cb.exe", true, "C:\\c.toml", "").unwrap();
    assert_eq!(
        lines(&steps),
        vec![
            "sc delete CrossBag Nothing",
            "sc create CrossBag binPath= \"C:\\cb.exe\" serve -c \"C:\\c.toml\" start= auto DisplayName= CrossBag File Sync Description= CrossBag - Cross-machine file sync over Easytier Success",
            "sc failure CrossBag reset= 86400 actions= restart/5000/restart/10000/restart/30000 Nothing",
        ]
    );
}

#[test]
fn what_cannot_be_installed() {
    let e = install(Platform::Linux, "/no\"where", false, "", "").unwrap_err();
    assert!(matches!(&e, ServiceError::BinaryNotFound(p) if p == "/no\"where"));
    assert_eq!(
        e.text(),
        format!("CrossBag binary not found: {:?}", "/no\"where")
    );
    let e = install(Platform::Other, "/bin/cb", true, "", "").unwrap_err();
    assert_eq!(e.text(), "Service installation not supported on this platform");
    let e = uninstall(Platform::Other, "").unwrap_err();
    assert_eq!(
        e.text(),
        "Service uninstallation not supported on this platform"
    );
}

#[test]
fn removing() {
    assert_eq!(
        lines(&uninstall(Platform::Linux, "").unwrap()),
        vec![
            "systemctl stop crossbag Nothing",
            "systemctl disable crossbag Nothing",
            "remove /etc/systemd/system/crossbag.service",
            "systemctl daemon-reload Nothing",
        ]
    );
    assert_eq!(
        lines(&uninstall(Platform::MacOs, "/p").unwrap()),
        vec!["launchctl unload /p Nothing", "remove /p"]
    );
    assert_eq!(
        lines(&uninstall(Platform::Windows, "").unwrap()),
        vec!["sc stop CrossBag Nothing", "sc delete CrossBag Success"]
    );
}

#[test]
fn starting_stopping_asking() {
    assert_eq!(
        lines(&start_service(Platform::Linux)),
        vec!["systemctl start crossbag Success"]
    );
    assert_eq!(
        lines(&start_service(Platform::Windows)),
        vec!["sc start CrossBag Success"]
    );
    assert!(start_service(Platform::MacOs).is_empty());
    assert_eq!(
        lines(&stop_service(Platform::Linux)),
        vec!["systemctl stop crossbag Start"]
    );
    assert_eq!(
        lines(&stop_service(Platform::Windows)),
        vec!["sc stop CrossBag Start"]
    );
    assert!(stop_service(Platform::Other).is_empty());
    match query_status(Platform::Linux) {
        StatusQuery::Ask(step) => {
            assert_eq!(line(&step), "systemctl status crossbag --no-pager Start")
        }
        StatusQuery::Answer(_) => panic!("answer"),
    }
    match query_status(Platform::Windows) {
        StatusQuery::Ask(ServiceStep::Run { need, .. }) => assert_eq!(need, Need::Start),
        _ => panic!("answer"),
    }
    match query_status(Platform::MacOs) {
        StatusQuery::Answer(s) => {
            assert_eq!(s, "Service status query not supported on this platform")
        }
        StatusQuery::Ask(_) => panic!("question"),
    }
}

#[test]
fn where_launchd_looks() {
    let place = plist_place(&Some("/Users/u".into()));
    assert_eq!(place.base, "/Users/u");
    assert_eq!(
        place.steps,
        vec!["Library", "LaunchAgents", "com.crossbag.sync.plist"]
    );
    let place = plist_place(&None);
    assert_eq!(place.base, "/tmp");
    assert_eq!(place.steps, vec!["com.crossbag.sync.plist"]);
}
