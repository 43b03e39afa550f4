//! The node as a service of the system.
//!
//! What it takes to install, start or remove the service is a list of steps;
//! the caller takes them one after the other.

use vstd::prelude::*;

use crate::config::{Place, Platform};
use crate::config;
use crate::text;

verus! {

/// How far a program has to get.
#[derive(Debug, Clone, Copy, PartialEq, Eq, Structural)]
pub enum Need {
    /// It does not matter.
    Nothing,
    /// It has to be started.
    Start,
    /// It has to succeed.
    Success,
}

/// One step.
#[derive(Debug, Clone)]
pub enum ServiceStep {
    Run { program: String, args: Vec<String>, need: Need },
    /// Has to succeed. Directories that are missing are made if `make_dirs`.
    WriteFile { path: String, content: String, make_dirs: bool },
    /// Whether it succeeds does not matter.
    RemoveFile(String),
}

#[verifier::ext_equal]
pub ghost enum StepView {
    Run { program: Seq<char>, args: Seq<Seq<char>>, need: Need },
    WriteFile { path: Seq<char>, content: Seq<char>, make_dirs: bool },
    RemoveFile(Seq<char>),
}

impl View for ServiceStep {
    type V = StepView;

    open spec fn view(&self) -> StepView {
        match *self {
            ServiceStep::Run { program, args, need } => StepView::Run {
                program: program@,
                args: text::texts(args@),
                need,
            },
            ServiceStep::WriteFile { path, content, make_dirs } => StepView::WriteFile {
                path: path@,
                content: content@,
                make_dirs,
            },
            ServiceStep::RemoveFile(path) => StepView::RemoveFile(path@),
        }
    }
}

/// The steps.
pub open spec fn step_views(v: Seq<ServiceStep>) -> Seq<StepView> {
    v.map_values(|s: ServiceStep| s@)
}

/// Why there is nothing to do.
#[derive(Debug, Clone)]
pub enum ServiceError {
    /// Nothing stands at the path of the program.
    BinaryNotFound(String),
    /// The service cannot be installed on this system.
    NoInstall,
    /// The service cannot be removed on this system.
    NoUninstall,
}

impl ServiceError {
    /// The error in words.
    pub fn text(&self) -> (res: String)
        ensures
            res@ == match *self {
                ServiceError::BinaryNotFound(path) => "CrossBag binary not found: "@
                    + text::debug_text(path@),
                ServiceError::NoInstall => "Service installation not supported on this platform"@,
                ServiceError::NoUninstall =>
                    "Service uninstallation not supported on this platform"@,
            },
    {
        match self {
            ServiceError::BinaryNotFound(path) => {
                let mut res = "CrossBag binary not found: ".to_owned();
                res.append(&text::quoted(path));
                res
            },
            ServiceError::NoInstall => {
                "Service installation not supported on this platform".to_owned()
            },
            ServiceError::NoUninstall => {
                "Service uninstallation not supported on this platform".to_owned()
            },
        }
    }
}

/// Where the unit of systemd stands.
pub const UNIT_PATH: &'static str = "/etc/systemd/system/crossbag.service";

/// The unit of systemd up to the path of the program.
pub const UNIT_HEAD: &'static str =
    "[Unit]\nDescription=CrossBag File Sync Service\nAfter=network.target easytier.service\nWants=network.target\n\n[Service]\nType=simple\nExecStart=";

/// The unit of systemd after the path of the configuration.
pub const UNIT_TAIL: &'static str =
    "\nRestart=on-failure\nRestartSec=10\nStandardOutput=journal\nStandardError=journal\nSyslogIdentifier=crossbag\n\n[Install]\nWantedBy=multi-user.target\n";

/// The description for launchd up to the path of the program.
pub const PLIST_HEAD: &'static str =
    "<?xml version=\"1.0\" encoding=\"UTF-8\"?>\n<!DOCTYPE plist PUBLIC \"-//Apple//DTD PLIST 1.0//EN\" \"http://www.apple.com/DTDs/PropertyList-1.0.dtd\">\n<plist version=\"1.0\">\n<dict>\n    <key>Label</key>\n    <string>com.crossbag.sync</string>\n    <key>ProgramArguments</key>\n    <array>\n        <string>";

/// The description for launchd between the paths.
pub const PLIST_MIDDLE: &'static str =
    "</string>\n        <string>serve</string>\n        <string>-c</string>\n        <string>";

/// The description for launchd after the path of the configuration.
pub const PLIST_TAIL: &'static str =
    "</string>\n    </array>\n    <key>RunAtLoad</key>\n    <true/>\n    <key>KeepAlive</key>\n    <true/>\n    <key>StandardOutPath</key>\n    <string>/tmp/crossbag.log</string>\n    <key>StandardErrorPath</key>\n    <string>/tmp/crossbag.err.log</string>\n</dict>\n</plist>";

/// The unit of systemd.
pub open spec fn unit_text(binary: Seq<char>, config_path: Seq<char>) -> Seq<char> {
    UNIT_HEAD@ + binary + " serve -c "@ + config_path + UNIT_TAIL@
}

/// The description for launchd.
pub open spec fn plist_text(binary: Seq<char>, config_path: Seq<char>) -> Seq<char> {
    PLIST_HEAD@ + binary + PLIST_MIDDLE@ + config_path + PLIST_TAIL@
}

/// A program with its arguments.
pub open spec fn run(program: Seq<char>, args: Seq<Seq<char>>, need: Need) -> StepView {
    StepView::Run { program, args, need }
}

/// The steps that install the service.
pub open spec fn install_steps(
    platform: Platform,
    binary: Seq<char>,
    config_path: Seq<char>,
    plist: Seq<char>,
) -> Seq<StepView> {
    match platform {
        Platform::Windows => seq![
            run("sc"@, seq!["delete"@, "CrossBag"@], Need::Nothing),
            run(
                "sc"@,
                seq![
                    "create"@,
                    "CrossBag"@,
                    "binPath="@,
                    "\""@ + binary + "\" serve -c \""@ + config_path + "\""@,
                    "start="@,
                    "auto"@,
                    "DisplayName="@,
                    "CrossBag File Sync"@,
                    "Description="@,
                    "CrossBag - Cross-machine file sync over Easytier"@,
                ],
                Need::Success,
            ),
            run(
                "sc"@,
                seq![
                    "failure"@,
                    "CrossBag"@,
                    "reset="@,
                    "86400"@,
                    "actions="@,
                    "restart/5000/restart/10000/restart/30000"@,
                ],
                Need::Nothing,
            ),
        ],
        Platform::Linux => seq![
            StepView::WriteFile {
                path: UNIT_PATH@,
                content: unit_text(binary, config_path),
                make_dirs: false,
            },
            run("systemctl"@, seq!["daemon-reload"@], Need::Nothing),
            run("systemctl"@, seq!["enable"@, "crossbag"@], Need::Nothing),
        ],
        Platform::MacOs => seq![
            StepView::WriteFile {
                path: plist,
                content: plist_text(binary, config_path),
                make_dirs: true,
            },
            run("launchctl"@, seq!["load"@, "-w"@, plist], Need::Nothing),
        ],
        Platform::Other => Seq::empty(),
    }
}

/// The steps that remove the service.
pub open spec fn uninstall_steps(platform: Platform, plist: Seq<char>) -> Seq<StepView> {
    match platform {
        Platform::Windows => seq![
            run("sc"@, seq!["stop"@, "CrossBag"@], Need::Nothing),
            run("sc"@, seq!["delete"@, "CrossBag"@], Need::Success),
        ],
        Platform::Linux => seq![
            run("systemctl"@, seq!["stop"@, "crossbag"@], Need::Nothing),
            run("systemctl"@, seq!["disable"@, "crossbag"@], Need::Nothing),
            StepView::RemoveFile(UNIT_PATH@),
            run("systemctl"@, seq!["daemon-reload"@], Need::Nothing),
        ],
        Platform::MacOs => seq![
            run("launchctl"@, seq!["unload"@, plist], Need::Nothing),
            StepView::RemoveFile(plist),
        ],
        Platform::Other => Seq::empty(),
    }
}

/// The steps that start the service.
pub open spec fn start_steps(platform: Platform) -> Seq<StepView> {
    match platform {
        Platform::Windows => seq![run("sc"@, seq!["start"@, "CrossBag"@], Need::Success)],
        Platform::Linux => seq![run("systemctl"@, seq!["start"@, "crossbag"@], Need::Success)],
        _ => Seq::empty(),
    }
}

/// The steps that stop the service.
pub open spec fn stop_steps(platform: Platform) -> Seq<StepView> {
    match platform {
        Platform::Windows => seq![run("sc"@, seq!["stop"@, "CrossBag"@], Need::Start)],
        Platform::Linux => seq![run("systemctl"@, seq!["stop"@, "crossbag"@], Need::Start)],
        _ => Seq::empty(),
    }
}

fn run1(program: &str, a: &str, need: Need) -> (res: ServiceStep)
    ensures
        res@ == run(program@, seq![a@], need),
{
    let mut args: Vec<String> = Vec::new();
    args.push(a.to_owned());
    assert(text::texts(args@) =~= seq![a@]);
    ServiceStep::Run { program: program.to_owned(), args, need }
}

fn run2(program: &str, a: &str, b: &str, need: Need) -> (res: ServiceStep)
    ensures
        res@ == run(program@, seq![a@, b@], need),
{
    let mut args: Vec<String> = Vec::new();
    args.push(a.to_owned());
    args.push(b.to_owned());
    assert(text::texts(args@) =~= seq![a@, b@]);
    ServiceStep::Run { program: program.to_owned(), args, need }
}

fn run3(program: &str, a: &str, b: &str, c: &str, need: Need) -> (res: ServiceStep)
    ensures
        res@ == run(program@, seq![a@, b@, c@], need),
{
    let mut args: Vec<String> = Vec::new();
    args.push(a.to_owned());
    args.push(b.to_owned());
    args.push(c.to_owned());
    assert(text::texts(args@) =~= seq![a@, b@, c@]);
    ServiceStep::Run { program: program.to_owned(), args, need }
}

/// The unit of systemd.
pub fn systemd_unit(binary: &str, config_path: &str) -> (res: String)
    ensures
        res@ == unit_text(binary@, config_path@),
{
    let mut res = UNIT_HEAD.to_owned();
    res.append(binary);
    res.append(" serve -c ");
    res.append(config_path);
    res.append(UNIT_TAIL);
    res
}

/// The description for launchd.
pub fn launchd_plist(binary: &str, config_path: &str) -> (res: String)
    ensures
        res@ == plist_text(binary@, config_path@),
{
    let mut res = PLIST_HEAD.to_owned();
    res.append(binary);
    res.append(PLIST_MIDDLE);
    res.append(config_path);
    res.append(PLIST_TAIL);
    res
}

fn install_windows(binary: &str, config_path: &str) -> (res: Vec<ServiceStep>)
    ensures
        step_views(res@) == install_steps(
            Platform::Windows,
            binary@,
            config_path@,
            Seq::<char>::empty(),
        ),
{
    let mut bin_path = "\"".to_owned();
    bin_path.append(binary);
    bin_path.append("\" serve -c \"");
    bin_path.append(config_path);
    bin_path.append("\"");
    let mut create: Vec<String> = Vec::new();
    create.push("create".to_owned());
    create.push("CrossBag".to_owned());
    create.push("binPath=".to_owned());
    create.push(bin_path);
    create.push("start=".to_owned());
    create.push("auto".to_owned());
    create.push("DisplayName=".to_owned());
    create.push("CrossBag File Sync".to_owned());
    create.push("Description=".to_owned());
    create.push("CrossBag - Cross-machine file sync over Easytier".to_owned());
    let mut failure: Vec<String> = Vec::new();
    failure.push("failure".to_owned());
    failure.push("CrossBag".to_owned());
    failure.push("reset=".to_owned());
    failure.push("86400".to_owned());
    failure.push("actions=".to_owned());
    failure.push("restart/5000/restart/10000/restart/30000".to_owned());
    proof {
        assert(text::texts(create@) =~= seq![
            "create"@,
            "CrossBag"@,
            "binPath="@,
            "\""@ + binary@ + "\" serve -c \""@ + config_path@ + "\""@,
            "start="@,
            "auto"@,
            "DisplayName="@,
            "CrossBag File Sync"@,
            "Description="@,
            "CrossBag - Cross-machine file sync over Easytier"@,
        ]);
        assert(text::texts(failure@) =~= seq![
            "failure"@,
            "CrossBag"@,
            "reset="@,
            "86400"@,
            "actions="@,
            "restart/5000/restart/10000/restart/30000"@,
        ]);
    }
    let mut res: Vec<ServiceStep> = Vec::new();
    res.push(run2("sc", "delete", "CrossBag", Need::Nothing));
    res.push(ServiceStep::Run { program: "sc".to_owned(), args: create, need: Need::Success });
    res.push(ServiceStep::Run { program: "sc".to_owned(), args: failure, need: Need::Nothing });
    assert(step_views(res@) =~= install_steps(
        Platform::Windows,
        binary@,
        config_path@,
        Seq::<char>::empty(),
    ));
    res
}

/// What it takes to install the service. `plist` is where launchd looks for its
/// description.
pub fn install(
    platform: Platform,
    binary: &str,
    binary_exists: bool,
    config_path: &str,
    plist: &str,
) -> (res: Result<Vec<ServiceStep>, ServiceError>)
    ensures
        match res {
            Ok(steps) => binary_exists && platform != Platform::Other && step_views(steps@)
                == install_steps(platform, binary@, config_path@, plist@),
            Err(ServiceError::BinaryNotFound(path)) => !binary_exists && path@ == binary@,
            Err(ServiceError::NoInstall) => binary_exists && platform == Platform::Other,
            Err(_) => false,
        },
{
    if !binary_exists {
        return Err(ServiceError::BinaryNotFound(binary.to_owned()));
    }
    let mut steps: Vec<ServiceStep> = Vec::new();
    match platform {
        Platform::Windows => {
            steps = install_windows(binary, config_path);
        },
        Platform::Linux => {
            steps.push(
                ServiceStep::WriteFile {
                    path: UNIT_PATH.to_owned(),
                    content: systemd_unit(binary, config_path),
                    make_dirs: false,
                },
            );
            steps.push(run1("systemctl", "daemon-reload", Need::Nothing));
            steps.push(run2("systemctl", "enable", "crossbag", Need::Nothing));
        },
        Platform::MacOs => {
            steps.push(
                ServiceStep::WriteFile {
                    path: plist.to_owned(),
                    content: launchd_plist(binary, config_path),
                    make_dirs: true,
                },
            );
            steps.push(run3("launchctl", "load", "-w", plist, Need::Nothing));
        },
        Platform::Other => {
            return Err(ServiceError::NoInstall);
        },
    }
    assert(step_views(steps@) =~= install_steps(platform, binary@, config_path@, plist@));
    Ok(steps)
}

/// What it takes to remove the service.
pub fn uninstall(platform: Platform, plist: &str) -> (res: Result<Vec<ServiceStep>, ServiceError>)
    ensures
        match res {
            Ok(steps) => platform != Platform::Other && step_views(steps@) == uninstall_steps(
                platform,
                plist@,
            ),
            Err(ServiceError::NoUninstall) => platform == Platform::Other,
            Err(_) => false,
        },
{
    let mut steps: Vec<ServiceStep> = Vec::new();
    match platform {
        Platform::Windows => {
            steps.push(run2("sc", "stop", "CrossBag", Need::Nothing));
            steps.push(run2("sc", "delete", "CrossBag", Need::Success));
        },
        Platform::Linux => {
            steps.push(run2("systemctl", "stop", "crossbag", Need::Nothing));
            steps.push(run2("systemctl", "disable", "crossbag", Need::Nothing));
            steps.push(ServiceStep::RemoveFile(UNIT_PATH.to_owned()));
            steps.push(run1("systemctl", "daemon-reload", Need::Nothing));
        },
        Platform::MacOs => {
            steps.push(run2("launchctl", "unload", plist, Need::Nothing));
            steps.push(ServiceStep::RemoveFile(plist.to_owned()));
        },
        Platform::Other => {
            return Err(ServiceError::NoUninstall);
        },
    }
    assert(step_views(steps@) =~= uninstall_steps(platform, plist@));
    Ok(steps)
}

/// What it takes to start the service.
pub fn start_service(platform: Platform) -> (res: Vec<ServiceStep>)
    ensures
        step_views(res@) == start_steps(platform),
{
    let mut res: Vec<ServiceStep> = Vec::new();
    match platform {
        Platform::Windows => {
            res.push(run2("sc", "start", "CrossBag", Need::Success));
        },
        Platform::Linux => {
            res.push(run2("systemctl", "start", "crossbag", Need::Success));
        },
        _ => {},
    }
    assert(step_views(res@) =~= start_steps(platform));
    res
}

/// What it takes to stop the service.
pub fn stop_service(platform: Platform) -> (res: Vec<ServiceStep>)
    ensures
        step_views(res@) == stop_steps(platform),
{
    let mut res: Vec<ServiceStep> = Vec::new();
    match platform {
        Platform::Windows => {
            res.push(run2("sc", "stop", "CrossBag", Need::Start));
        },
        Platform::Linux => {
            res.push(run2("systemctl", "stop", "crossbag", Need::Start));
        },
        _ => {},
    }
    assert(step_views(res@) =~= stop_steps(platform));
    res
}

/// How the service stands: what a program prints, or a text.
#[derive(Debug, Clone)]
pub enum StatusQuery {
    /// What this step prints.
    Ask(ServiceStep),
    Answer(String),
}

/// How to tell how the service stands.
pub fn query_status(platform: Platform) -> (res: StatusQuery)
    ensures
        match platform {
            Platform::Windows => res matches StatusQuery::Ask(step) && step@ == run(
                "sc"@,
                seq!["query"@, "CrossBag"@],
                Need::Start,
            ),
            Platform::Linux => res matches StatusQuery::Ask(step) && step@ == run(
                "systemctl"@,
                seq!["status"@, "crossbag"@, "--no-pager"@],
                Need::Start,
            ),
            _ => res matches StatusQuery::Answer(s) && s@
                == "Service status query not supported on this platform"@,
        },
{
    match platform {
        Platform::Windows => StatusQuery::Ask(run2("sc", "query", "CrossBag", Need::Start)),
        Platform::Linux => StatusQuery::Ask(
            run3("systemctl", "status", "crossbag", "--no-pager", Need::Start),
        ),
        _ => StatusQuery::Answer(
            "Service status query not supported on this platform".to_owned(),
        ),
    }
}

/// Where launchd looks for the description of the service.
pub fn plist_place(home: &Option<String>) -> (res: Place)
    ensures
        config::place_view(res) == match *home {
            Some(h) => (
                h@,
                seq!["Library"@, "LaunchAgents"@, "com.crossbag.sync.plist"@],
            ),
            None => ("/tmp"@, seq!["com.crossbag.sync.plist"@]),
        },
{
    let mut steps: Vec<String> = Vec::new();
    let base = match home {
        Some(h) => {
            steps.push("Library".to_owned());
            steps.push("LaunchAgents".to_owned());
            h.clone()
        },
        None => "/tmp".to_owned(),
    };
    steps.push("com.crossbag.sync.plist".to_owned());
    let res = Place { base, steps };
    assert(config::place_view(res).1 =~= match *home {
        Some(h) => seq!["Library"@, "LaunchAgents"@, "com.crossbag.sync.plist"@],
        None => seq!["com.crossbag.sync.plist"@],
    });
    res
}

/// The step runs the program with these arguments.
pub open spec fn runs(step: ServiceStep, name: &str, words: Seq<&str>, how: Need) -> bool {
    step matches ServiceStep::Run { program, args, need } && program@ == name@ && need == how
        && args@.len() == words.len() && forall|i: int|
        0 <= i < words.len() ==> (#[trigger] args@[i])@ == words[i]@
}

proof fn lemma_runs(step: ServiceStep, name: &str, words: Seq<&str>, how: Need)
    requires
        step@ == run(name@, words.map_values(|w: &str| w@), how),
    ensures
        runs(step, name, words, how),
{
    if let ServiceStep::Run { program, args, need } = step {
        let t = text::texts(args@);
        let u = words.map_values(|w: &str| w@);
        assert(t == u);
        assert(t.len() == args@.len());
        assert forall|i: int| 0 <= i < words.len() implies (#[trigger] args@[i])@ == words[i]@ by {
            assert(t[i] == args@[i]@);
            assert(u[i] == words[i]@);
        }
    }
}

proof fn lemma_steps(v: Vec<ServiceStep>)
    ensures
        step_views(v@).len() == v@.len(),
        forall|i: int| 0 <= i < v@.len() ==> step_views(v@)[i] == (#[trigger] v@[i])@,
{
}

/// The service is started and stopped by its name with the program of the system;
/// a start has to succeed, a stop only to be tried. Where there is no such
/// program there is nothing to do.
pub proof fn services_are_started_by_name(
    platform: Platform,
    starts: Vec<ServiceStep>,
    stops: Vec<ServiceStep>,
)
    requires
        call_ensures(start_service, (platform,), starts),
        call_ensures(stop_service, (platform,), stops),
    ensures
        platform is Linux ==> starts@.len() == 1 && runs(
            starts@[0],
            "systemctl",
            seq!["start", "crossbag"],
            Need::Success,
        ) && stops@.len() == 1 && runs(
            stops@[0],
            "systemctl",
            seq!["stop", "crossbag"],
            Need::Start,
        ),
        platform is Windows ==> starts@.len() == 1 && runs(
            starts@[0],
            "sc",
            seq!["start", "CrossBag"],
            Need::Success,
        ) && stops@.len() == 1 && runs(stops@[0], "sc", seq!["stop", "CrossBag"], Need::Start),
        platform is MacOs || platform is Other ==> starts@.len() == 0 && stops@.len() == 0,
{
    lemma_steps(starts);
    lemma_steps(stops);
    if platform is Linux {
        let a: Seq<&str> = seq!["start", "crossbag"];
        let b: Seq<&str> = seq!["stop", "crossbag"];
        assert(a.map_values(|w: &str| w@) =~= seq!["start"@, "crossbag"@]);
        assert(b.map_values(|w: &str| w@) =~= seq!["stop"@, "crossbag"@]);
        assert(step_views(starts@)[0] == starts@[0]@);
        assert(step_views(stops@)[0] == stops@[0]@);
        lemma_runs(starts@[0], "systemctl", a, Need::Success);
        lemma_runs(stops@[0], "systemctl", b, Need::Start);
    }
    if platform is Windows {
        let a: Seq<&str> = seq!["start", "CrossBag"];
        let b: Seq<&str> = seq!["stop", "CrossBag"];
        assert(a.map_values(|w: &str| w@) =~= seq!["start"@, "CrossBag"@]);
        assert(b.map_values(|w: &str| w@) =~= seq!["stop"@, "CrossBag"@]);
        assert(step_views(starts@)[0] == starts@[0]@);
        assert(step_views(stops@)[0] == stops@[0]@);
        lemma_runs(starts@[0], "sc", a, Need::Success);
        lemma_runs(stops@[0], "sc", b, Need::Start);
    }
}

/// The text holds the one path and, behind it, the other.
pub open spec fn holds_both(s: Seq<char>, binary: Seq<char>, config_path: Seq<char>) -> bool {
    exists|a: int, b: int| #[trigger]
        text::stands_at(s, binary, a) && #[trigger] text::stands_at(s, config_path, b) && a
            + binary.len() < b
}

proof fn lemma_holds_both(
    head: Seq<char>,
    binary: Seq<char>,
    middle: Seq<char>,
    config_path: Seq<char>,
    tail: Seq<char>,
)
    requires
        middle.len() > 0,
    ensures
        holds_both(head + binary + middle + config_path + tail, binary, config_path),
{
    let s = head + binary + middle + config_path + tail;
    let a = head.len() as int;
    let b = a + binary.len() + middle.len();
    assert(s.subrange(a, a + binary.len()) =~= binary);
    assert(s.subrange(b, b + config_path.len()) =~= config_path);
    assert(text::stands_at(s, binary, a));
    assert(text::stands_at(s, config_path, b));
}

/// A program that is not there is not installed, whatever the system; one that is
/// there is, where services are known.
pub proof fn only_programs_that_exist_are_installed(
    platform: Platform,
    binary: &str,
    binary_exists: bool,
    config_path: &str,
    plist: &str,
    res: Result<Vec<ServiceStep>, ServiceError>,
)
    requires
        call_ensures(install, (platform, binary, binary_exists, config_path, plist), res),
    ensures
        !binary_exists ==> (res matches Err(ServiceError::BinaryNotFound(p)) && p@ == binary@),
        binary_exists ==> res is Err == platform is Other,
        binary_exists && platform is Other ==> (res matches Err(e) && e is NoInstall),
{
}

/// The file that describes the service names the program and, behind it, the
/// configuration. What is written for the installation is removed with it, and
/// where a service can be installed it can be removed.
pub proof fn removal_undoes_installation(
    platform: Platform,
    binary: &str,
    config_path: &str,
    plist: &str,
    steps: Vec<ServiceStep>,
    res: Result<Vec<ServiceStep>, ServiceError>,
    i: int,
)
    requires
        call_ensures(install, (platform, binary, true, config_path, plist), Ok(steps)),
        call_ensures(uninstall, (platform, plist), res),
        0 <= i < steps@.len(),
    ensures
        res is Ok,
        steps@[i] matches ServiceStep::WriteFile { path, content, make_dirs } ==> holds_both(
            content@,
            binary@,
            config_path@,
        ) && (res matches Ok(others) && exists|j: int|
            0 <= j < others@.len() && (#[trigger] others@[j] matches ServiceStep::RemoveFile(p)
                && p@ == path@)),
        platform is Linux ==> (steps@[0] matches ServiceStep::WriteFile { path, content, make_dirs }
            && path@ == "/etc/systemd/system/crossbag.service"@),
        platform is MacOs ==> (steps@[0] matches ServiceStep::WriteFile { path, content, make_dirs }
            && path@ == plist@ && make_dirs),
{
    lemma_steps(steps);
    assert(step_views(steps@)[i] == steps@[i]@);
    let others = res->Ok_0;
    lemma_steps(others);
    match platform {
        Platform::Linux => {
            reveal_strlit(" serve -c ");
            lemma_holds_both(UNIT_HEAD@, binary@, " serve -c "@, config_path@, UNIT_TAIL@);
            assert(step_views(steps@)[0] == steps@[0]@);
            assert(step_views(others@)[2] == others@[2]@);
        },
        Platform::MacOs => {
            assert(PLIST_MIDDLE@.len() > 0) by {
                reveal_strlit(
                    "</string>\n        <string>serve</string>\n        <string>-c</string>\n        <string>",
                );
            }
            lemma_holds_both(PLIST_HEAD@, binary@, PLIST_MIDDLE@, config_path@, PLIST_TAIL@);
            assert(step_views(steps@)[0] == steps@[0]@);
            assert(step_views(others@)[1] == others@[1]@);
        },
        _ => {},
    }
}

} // verus!
