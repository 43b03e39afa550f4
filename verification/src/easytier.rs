//! The process of the virtual network: how it is started, watched and started
//! again.

use vstd::prelude::*;

use crate::config::EasytierConfig;
use crate::numbers;
use crate::numbers::decimal_text;
use crate::text;
use crate::text::{chars_of, contains_text, lines_of, trim_text};

verus! {

/// How the process stands.
#[derive(Debug, Clone, PartialEq)]
pub enum EasytierState {
    Stopped,
    Starting,
    Running,
    /// It ended by itself, or nothing can be told of it.
    Crashed(String),
    /// It could not be started, or was started too often.
    Failed(String),
}

#[verifier::ext_equal]
pub ghost enum EasytierStateView {
    Stopped,
    Starting,
    Running,
    Crashed(Seq<char>),
    Failed(Seq<char>),
}

impl View for EasytierState {
    type V = EasytierStateView;

    open spec fn view(&self) -> EasytierStateView {
        match *self {
            EasytierState::Stopped => EasytierStateView::Stopped,
            EasytierState::Starting => EasytierStateView::Starting,
            EasytierState::Running => EasytierStateView::Running,
            EasytierState::Crashed(why) => EasytierStateView::Crashed(why@),
            EasytierState::Failed(why) => EasytierStateView::Failed(why@),
        }
    }
}

/// What the system says of the process.
#[derive(Debug, Clone)]
pub enum ChildStatus {
    Running,
    /// It has ended, with this status.
    Exited(String),
    /// The system does not say, and why.
    Unknown(String),
}

/// How the program is to be found.
#[derive(Debug, Clone)]
pub enum BinaryLookup {
    /// At this path, if something stands there.
    AtPath(String),
    /// By this command of the shell.
    Search(String),
}

/// Why the program cannot be started.
#[derive(Debug, Clone)]
pub enum BinaryError {
    /// Nothing stands at this path.
    NotFoundAt(String),
    /// The program of this name is nowhere to be found.
    NotInPath(String),
}

impl BinaryError {
    /// The error in words.
    pub fn text(&self) -> (res: String)
        ensures
            res@ == match *self {
                BinaryError::NotFoundAt(path) => "Easytier binary not found at: "@ + path@,
                BinaryError::NotInPath(name) => "Easytier binary '"@ + name@
                    + "' not found in PATH. Please install easytier or specify full path in config."@,
            },
    {
        match self {
            BinaryError::NotFoundAt(path) => {
                let mut res = "Easytier binary not found at: ".to_owned();
                res.append(path);
                res
            },
            BinaryError::NotInPath(name) => {
                let mut res = "Easytier binary '".to_owned();
                res.append(name);
                res.append(
                    "' not found in PATH. Please install easytier or specify full path in config.",
                );
                res
            },
        }
    }
}

/// What to do after a look at the process.
#[derive(Debug)]
pub enum HealthPlan {
    /// Start it, and say how that went.
    Restart,
    /// Nothing: it stands so.
    Settled(EasytierState),
}

#[verifier::ext_equal]
pub ghost enum HealthPlanView {
    Restart,
    Settled(EasytierStateView),
}

impl View for HealthPlan {
    type V = HealthPlanView;

    open spec fn view(&self) -> HealthPlanView {
        match *self {
            HealthPlan::Restart => HealthPlanView::Restart,
            HealthPlan::Settled(s) => HealthPlanView::Settled(s@),
        }
    }
}

/// What to do while the process starts.
#[derive(Debug)]
pub enum ReadyStep {
    /// The network is up.
    Ready,
    /// Look again in half a second.
    Again,
    /// There is no time for another look: go on after so many milliseconds,
    /// though the network may still be on its way.
    GoOn(u64),
    Fail(String),
}

/// The milliseconds between two looks at a process that starts.
pub const LOOK_PAUSE: u64 = 500;

/// The usual name of the program.
pub const BINARY_NAME: &'static str = "easytier-core";

/// The name that is searched for where the configuration has `path`, which is no
/// path: the usual one where it is empty.
pub open spec fn searched_name(path: Seq<char>) -> Seq<char> {
    if path.len() == 0 {
        BINARY_NAME@
    } else {
        path
    }
}

/// The arguments of the program.
pub open spec fn program_args(c: EasytierConfig) -> Seq<Seq<char>> {
    let named = seq![
        "--instance-name"@,
        c.instance_name@,
        "--network-name"@,
        c.network_name@,
    ];
    let secret = if c.network_secret@.len() > 0 {
        seq!["--network-secret"@, c.network_secret@]
    } else {
        Seq::empty()
    };
    let listeners = if c.listeners@.len() > 0 {
        seq!["--listeners"@, text::joined(text::texts(c.listeners@), " "@)]
    } else {
        Seq::empty()
    };
    named + secret + listeners + seq!["--disable-dhcp"@]
}

/// A path, not a name: there is a separator in it.
pub open spec fn is_path(s: Seq<char>) -> bool {
    s.contains('/') || s.contains('\\')
}

/// The process may be started once more after `count` times.
pub open spec fn may_restart(c: EasytierConfig, count: u32) -> bool {
    c.max_restarts == 0 || count < c.max_restarts
}

/// The count after one more start.
pub open spec fn counted(count: u32) -> u32 {
    if count < u32::MAX {
        (count + 1) as u32
    } else {
        count
    }
}

/// What follows from a look at the process: whether it is there, how often it
/// was started again, and what to do.
pub open spec fn health(
    c: EasytierConfig,
    there: bool,
    count: u32,
    seen: ChildStatus,
) -> (bool, u32, HealthPlanView) {
    if !there {
        if c.auto_start && may_restart(c, count) {
            (false, counted(count), HealthPlanView::Restart)
        } else if !may_restart(c, count) {
            (
                false,
                count,
                HealthPlanView::Settled(
                    EasytierStateView::Failed(
                        "Max restarts ("@ + numbers::decimal(c.max_restarts as nat)
                            + ") reached"@,
                    ),
                ),
            )
        } else {
            (false, count, HealthPlanView::Settled(EasytierStateView::Stopped))
        }
    } else {
        match seen {
            ChildStatus::Running => (
                true,
                count,
                HealthPlanView::Settled(EasytierStateView::Running),
            ),
            ChildStatus::Exited(status) => if c.auto_start && may_restart(c, count) {
                (false, counted(count), HealthPlanView::Restart)
            } else {
                (
                    false,
                    count,
                    HealthPlanView::Settled(
                        EasytierStateView::Crashed(
                            "Easytier exited unexpectedly with status: "@ + status@,
                        ),
                    ),
                )
            },
            ChildStatus::Unknown(why) => (
                true,
                count,
                HealthPlanView::Settled(EasytierStateView::Crashed(why@)),
            ),
        }
    }
}

/// A line of the program's error output that reports an error.
pub fn is_error_line(line: &str) -> (res: bool)
    ensures
        res == (text::contains(line@, "ERROR"@) || text::contains(line@, "error"@)),
{
    contains_text(line, "ERROR") || contains_text(line, "error")
}

/// The texts with spaces between them.
fn spaced(parts: &Vec<String>) -> (res: String)
    ensures
        res@ == text::joined(text::texts(parts@), " "@),
{
    let ghost all = text::texts(parts@);
    let mut res = String::new();
    let mut i: usize = 0;
    assert(all.take(0).len() == 0);
    while i < parts.len()
        invariant
            i <= parts@.len(),
            all == text::texts(parts@),
            res@ == text::joined(all.take(i as int), " "@),
        decreases parts@.len() - i,
    {
        if i > 0 {
            res.append(" ");
        }
        res.append(&parts[i]);
        proof {
            let now = all.take(i + 1);
            assert(now.drop_last() =~= all.take(i as int));
            assert(now.last() == parts@[i as int]@);
            if i == 0 {
                assert(res@ =~= now[0]);
            }
        }
        i += 1;
    }
    assert(all.take(i as int) =~= all);
    res
}

fn has_separator(s: &str) -> (res: bool)
    ensures
        res == is_path(s@),
{
    let chars = chars_of(s);
    let mut i: usize = 0;
    while i < chars.len()
        invariant
            i <= chars@.len(),
            chars@ == s@,
            forall|k: int| 0 <= k < i ==> s@[k] != '/' && s@[k] != '\\',
        decreases chars@.len() - i,
    {
        if chars[i] == '/' || chars[i] == '\\' {
            return true;
        }
        i += 1;
    }
    false
}

/// Watches over the process.
pub struct EasytierManager {
    config: EasytierConfig,
    started: bool,
    restart_count: u32,
}

impl EasytierManager {
    pub closed spec fn settings(&self) -> EasytierConfig {
        self.config
    }

    /// A process was started and has not been seen to end.
    pub closed spec fn there(&self) -> bool {
        self.started
    }

    /// How often it was started again.
    pub closed spec fn restarts(&self) -> u32 {
        self.restart_count
    }

    pub fn new(config: EasytierConfig) -> (res: EasytierManager)
        ensures
            res.settings() == config,
            !res.there(),
            res.restarts() == 0,
    {
        EasytierManager { config, started: false, restart_count: 0 }
    }

    /// The name that is searched for.
    fn search_name(&self) -> (res: String)
        ensures
            res@ == searched_name(self.settings().binary_path@),
    {
        if self.config.binary_path.as_str().is_empty() {
            BINARY_NAME.to_owned()
        } else {
            self.config.binary_path.clone()
        }
    }

    /// How the program is to be found: at its path, or, where the configuration
    /// has only its name or nothing, by a search.
    pub fn binary_lookup(&self, windows: bool) -> (res: BinaryLookup)
        ensures
            match res {
                BinaryLookup::AtPath(path) => is_path(self.settings().binary_path@) && path@
                    == self.settings().binary_path@,
                BinaryLookup::Search(command) => !is_path(self.settings().binary_path@)
                    && command@ == (if windows {
                    "where "@
                } else {
                    "which "@
                }) + searched_name(self.settings().binary_path@),
            },
    {
        if has_separator(&self.config.binary_path) {
            BinaryLookup::AtPath(self.config.binary_path.clone())
        } else {
            let mut command = if windows {
                "where ".to_owned()
            } else {
                "which ".to_owned()
            };
            command.append(&self.search_name());
            BinaryLookup::Search(command)
        }
    }

    /// Where the program stands. `exists` says whether something stands at the
    /// path of the configuration; `found` is what the search printed, if it
    /// succeeded.
    pub fn check_binary(&self, exists: bool, found: &Option<String>) -> (res: Result<
        String,
        BinaryError,
    >)
        ensures
            is_path(self.settings().binary_path@) ==> match res {
                Ok(path) => exists && path@ == self.settings().binary_path@,
                Err(e) => !exists && (e matches BinaryError::NotFoundAt(path) && path@
                    == self.settings().binary_path@),
            },
            !is_path(self.settings().binary_path@) ==> match res {
                Ok(path) => found is Some && path@ == text::trimmed(
                    if text::lines(found->Some_0@).len() > 0 {
                        text::lines(found->Some_0@)[0]
                    } else {
                        searched_name(self.settings().binary_path@)
                    },
                ),
                Err(e) => found is None && (e matches BinaryError::NotInPath(name) && name@
                    == searched_name(self.settings().binary_path@)),
            },
    {
        let path = &self.config.binary_path;
        if has_separator(path) {
            if exists {
                Ok(path.clone())
            } else {
                Err(BinaryError::NotFoundAt(path.clone()))
            }
        } else {
            match found {
                Some(output) => {
                    let lines = lines_of(output);
                    assert(text::texts(lines@).len() == lines@.len());
                    if lines.len() > 0 {
                        assert(text::texts(lines@)[0] == lines@[0]@);
                        Ok(trim_text(&lines[0]))
                    } else {
                        Ok(trim_text(&self.search_name()))
                    }
                },
                None => Err(BinaryError::NotInPath(self.search_name())),
            }
        }
    }

    /// The arguments of the program.
    pub fn build_args(&self) -> (res: Vec<String>)
        ensures
            text::texts(res@) == program_args(self.settings()),
    {
        let mut args: Vec<String> = Vec::new();
        args.push("--instance-name".to_owned());
        args.push(self.config.instance_name.clone());
        args.push("--network-name".to_owned());
        args.push(self.config.network_name.clone());
        if !self.config.network_secret.as_str().is_empty() {
            args.push("--network-secret".to_owned());
            args.push(self.config.network_secret.clone());
        }
        if self.config.listeners.len() > 0 {
            args.push("--listeners".to_owned());
            args.push(spaced(&self.config.listeners));
        }
        args.push("--disable-dhcp".to_owned());
        assert(text::texts(args@) =~= program_args(self.settings()));
        args
    }

    /// Whether there is something to start: nothing runs yet.
    pub fn start(&self) -> (res: bool)
        ensures
            res == !self.there(),
    {
        !self.started
    }

    /// The process was started.
    pub fn spawned(&mut self)
        ensures
            final(self).there(),
            final(self).settings() == old(self).settings(),
            final(self).restarts() == old(self).restarts(),
    {
        self.started = true;
    }

    /// What to do while the process starts, after a look at it; `network_up` is
    /// whether the network answers, `waited` for how many milliseconds the
    /// process has been starting. Once the time for the start is over, the node
    /// goes on without the network.
    pub fn wait_for_ready(&self, seen: &ChildStatus, network_up: bool, waited: u64) -> (res:
        ReadyStep)
        ensures
            match *seen {
                ChildStatus::Exited(status) => res matches ReadyStep::Fail(why) && why@
                    == "Easytier exited early with status: "@ + status@,
                ChildStatus::Unknown(e) => res matches ReadyStep::Fail(why) && why@
                    == "Failed to check Easytier status: "@ + e@,
                ChildStatus::Running => {
                    let left = self.settings().startup_timeout * 1000 - waited;
                    if network_up {
                        res is Ready
                    } else if left >= LOOK_PAUSE {
                        res is Again
                    } else {
                        res matches ReadyStep::GoOn(pause) && pause == if left > 0 {
                            left
                        } else {
                            0
                        }
                    }
                },
            },
    {
        match seen {
            ChildStatus::Exited(status) => {
                let mut why = "Easytier exited early with status: ".to_owned();
                why.append(status);
                ReadyStep::Fail(why)
            },
            ChildStatus::Unknown(e) => {
                let mut why = "Failed to check Easytier status: ".to_owned();
                why.append(e);
                ReadyStep::Fail(why)
            },
            ChildStatus::Running => {
                let limit: u128 = self.config.startup_timeout as u128 * 1000;
                if network_up {
                    ReadyStep::Ready
                } else if limit <= waited as u128 {
                    ReadyStep::GoOn(0)
                } else if limit - waited as u128 >= LOOK_PAUSE as u128 {
                    ReadyStep::Again
                } else {
                    ReadyStep::GoOn((limit - waited as u128) as u64)
                }
            },
        }
    }

    /// The process is to be stopped. Whether there is one.
    pub fn stop(&mut self) -> (res: bool)
        ensures
            res == old(self).there(),
            !final(self).there(),
            final(self).settings() == old(self).settings(),
            final(self).restarts() == if old(self).there() {
                0
            } else {
                old(self).restarts()
            },
    {
        if self.started {
            self.started = false;
            self.restart_count = 0;
            true
        } else {
            false
        }
    }

    /// Whether there is a process.
    pub fn is_running(&self) -> (res: bool)
        ensures
            res == self.there(),
    {
        self.started
    }

    /// What to do after a look at the process: start it again if it has ended,
    /// as often as the configuration lets.
    pub fn health_check(&mut self, seen: ChildStatus) -> (res: HealthPlan)
        ensures
            (final(self).there(), final(self).restarts(), res@) == health(
                old(self).settings(),
                old(self).there(),
                old(self).restarts(),
                seen,
            ),
            final(self).settings() == old(self).settings(),
            ({
                let limit = old(self).settings().max_restarts;
                limit > 0 && old(self).restarts() <= limit ==> final(self).restarts() <= limit
            }),
    {
        let may = self.config.max_restarts == 0 || self.restart_count < self.config.max_restarts;
        let restart = self.config.auto_start && may;
        if !self.started {
            if restart {
                if self.restart_count < u32::MAX {
                    self.restart_count = self.restart_count + 1;
                }
                HealthPlan::Restart
            } else if !may {
                let mut why = "Max restarts (".to_owned();
                why.append(&decimal_text(self.config.max_restarts as u64));
                why.append(") reached");
                HealthPlan::Settled(EasytierState::Failed(why))
            } else {
                HealthPlan::Settled(EasytierState::Stopped)
            }
        } else {
            match seen {
                ChildStatus::Running => HealthPlan::Settled(EasytierState::Running),
                ChildStatus::Exited(status) => {
                    self.started = false;
                    if restart {
                        if self.restart_count < u32::MAX {
                            self.restart_count = self.restart_count + 1;
                        }
                        HealthPlan::Restart
                    } else {
                        let mut why = "Easytier exited unexpectedly with status: ".to_owned();
                        why.append(&status);
                        HealthPlan::Settled(EasytierState::Crashed(why))
                    }
                },
                ChildStatus::Unknown(why) => HealthPlan::Settled(EasytierState::Crashed(why)),
            }
        }
    }

    /// How the process stands after an attempt to start it again.
    pub fn restarted(&self, outcome: Result<(), String>) -> (res: EasytierState)
        ensures
            res@ == match outcome {
                Ok(_) => EasytierStateView::Running,
                Err(why) => EasytierStateView::Failed(why@),
            },
    {
        match outcome {
            Ok(_) => EasytierState::Running,
            Err(why) => EasytierState::Failed(why),
        }
    }

    /// How the process stands. Nothing is started.
    pub fn status(&mut self, seen: ChildStatus) -> (res: EasytierState)
        ensures
            final(self).settings() == old(self).settings(),
            final(self).restarts() == old(self).restarts(),
            final(self).there() == (old(self).there() && !(seen is Exited)),
            res@ == if !old(self).there() {
                EasytierStateView::Stopped
            } else {
                match seen {
                    ChildStatus::Running => EasytierStateView::Running,
                    ChildStatus::Exited(_) => EasytierStateView::Crashed("Process exited"@),
                    ChildStatus::Unknown(why) => EasytierStateView::Crashed(why@),
                }
            },
    {
        if !self.started {
            return EasytierState::Stopped;
        }
        match seen {
            ChildStatus::Running => EasytierState::Running,
            ChildStatus::Exited(_) => {
                self.started = false;
                EasytierState::Crashed("Process exited".to_owned())
            },
            ChildStatus::Unknown(why) => EasytierState::Crashed(why),
        }
    }
}

/// A process that ends every time it is looked at is started again as often as
/// the configuration lets, and then no more.
pub open spec fn restarts_after(c: EasytierConfig, count: u32, ends: nat) -> u32
    decreases ends,
{
    if ends == 0 {
        count
    } else {
        let before = restarts_after(c, count, (ends - 1) as nat);
        health(c, false, before, ChildStatus::Running).1
    }
}

/// However often the process ends, it is not started again more often than the
/// configuration lets; and it is, as often as that.
pub proof fn restarts_are_limited(c: EasytierConfig, ends: nat)
    requires
        c.auto_start,
        c.max_restarts > 0,
    ensures
        restarts_after(c, 0, ends) == if ends < c.max_restarts {
            ends as u32
        } else {
            c.max_restarts
        },
    decreases ends,
{
    if ends > 0 {
        restarts_are_limited(c, (ends - 1) as nat);
    }
}

/// Without a limit the process is always started again.
pub proof fn no_limit_always_restarts(c: EasytierConfig, count: u32)
    requires
        c.auto_start,
        c.max_restarts == 0,
    ensures
        health(c, false, count, ChildStatus::Running).2 == HealthPlanView::Restart,
{
}

/// The process is started once more if it is not there or has ended, the
/// configuration wants it started and its number of starts is not used up, or
/// has no limit. The start is counted, and nothing else is.
pub proof fn ended_processes_are_started_again(
    m: &mut EasytierManager,
    seen: ChildStatus,
    res: HealthPlan,
)
    requires
        call_ensures(EasytierManager::health_check, (m, seen), res),
    ensures
        ({
            let c = old(m).settings();
            let count = old(m).restarts();
            res is Restart <==> (!old(m).there() || seen is Exited) && c.auto_start && (
            c.max_restarts == 0 || count < c.max_restarts)
        }),
        res is Restart ==> !final(m).there(),
        res is Restart && old(m).restarts() < u32::MAX ==> final(m).restarts() == old(m).restarts()
            + 1,
        !(res is Restart) || old(m).restarts() == u32::MAX ==> final(m).restarts() == old(
            m,
        ).restarts(),
        final(m).settings() == old(m).settings(),
{
}

/// A process that runs is left alone and said to run; of one that cannot be
/// looked at the reason is told; one that has ended for good is told with how it
/// ended; and where there is none it is told whether the limit was reached.
pub proof fn looks_tell_how_the_process_stands(
    m: &mut EasytierManager,
    seen: ChildStatus,
    res: HealthPlan,
)
    requires
        call_ensures(EasytierManager::health_check, (m, seen), res),
        !(res is Restart),
    ensures
        final(m).there() == (old(m).there() && !(seen is Exited)),
        old(m).there() && seen is Running ==> (res matches HealthPlan::Settled(s)
            && s is Running),
        old(m).there() ==> (seen matches ChildStatus::Unknown(why) ==> (
        res matches HealthPlan::Settled(EasytierState::Crashed(w)) && w@ == why@)),
        old(m).there() ==> (seen matches ChildStatus::Exited(status) ==> (
        res matches HealthPlan::Settled(EasytierState::Crashed(w)) && w@
            == "Easytier exited unexpectedly with status: "@ + status@)),
        !old(m).there() ==> (res matches HealthPlan::Settled(s) && (s is Failed || s is Stopped)),
        !old(m).there() ==> (res matches HealthPlan::Settled(s) ==> (s is Failed <==> old(
            m,
        ).settings().max_restarts > 0 && old(m).restarts() >= old(m).settings().max_restarts)),
{
}

/// What is asked of a process that starts: it has to run; once the network is up
/// the wait is over; until then it is looked at again as long as half a second of
/// the time for the start is left, and the rest of the time is waited out.
pub proof fn starts_are_waited_for(
    m: &EasytierManager,
    seen: &ChildStatus,
    network_up: bool,
    waited: u64,
    res: ReadyStep,
)
    requires
        call_ensures(EasytierManager::wait_for_ready, (m, seen, network_up, waited), res),
    ensures
        res is Fail <==> !(*seen is Running),
        *seen is Running ==> res is Ready == network_up,
        *seen is Running && !network_up ==> (res is Again <==> waited + 500 <= 1000
            * m.settings().startup_timeout),
        res matches ReadyStep::GoOn(pause) ==> pause < 500 && waited + pause >= 1000
            * m.settings().startup_timeout && (pause > 0 ==> waited + pause == 1000
            * m.settings().startup_timeout),
{
}

/// A start that succeeds leaves the process running, one that fails leaves the
/// reason.
pub proof fn attempts_decide_the_state(
    m: &EasytierManager,
    outcome: Result<(), String>,
    res: EasytierState,
)
    requires
        call_ensures(EasytierManager::restarted, (m, outcome), res),
    ensures
        outcome is Ok == res is Running,
        outcome matches Err(why) ==> (res matches EasytierState::Failed(w) && w@ == why@),
{
}

/// Telling how the process stands starts nothing and counts nothing; one that has
/// ended is not there any more.
pub proof fn telling_the_state_starts_nothing(
    m: &mut EasytierManager,
    seen: ChildStatus,
    res: EasytierState,
)
    requires
        call_ensures(EasytierManager::status, (m, seen), res),
    ensures
        res is Stopped == !old(m).there(),
        res is Running == (old(m).there() && seen is Running),
        res is Crashed == (old(m).there() && !(seen is Running)),
        final(m).there() == (old(m).there() && !(seen is Exited)),
        final(m).restarts() == old(m).restarts(),
        final(m).settings() == old(m).settings(),
        old(m).there() ==> (seen matches ChildStatus::Unknown(why) ==> (
        res matches EasytierState::Crashed(w) && w@ == why@)),
{
}

/// A new manager has nothing to stop and something to start; once the process was
/// started it is the other way round; and once it was stopped all is as at the
/// beginning.
pub proof fn stopping_undoes_starting(
    config: EasytierConfig,
    fresh: EasytierManager,
    begun: &mut EasytierManager,
    ended: &mut EasytierManager,
    to_start: bool,
    runs: bool,
    stopped: bool,
)
    requires
        call_ensures(EasytierManager::new, (config,), fresh),
        call_ensures(EasytierManager::start, (&fresh,), to_start),
        *old(begun) == fresh,
        call_ensures(EasytierManager::spawned, (begun,), ()),
        call_ensures(EasytierManager::is_running, (final(begun),), runs),
        *old(ended) == *final(begun),
        call_ensures(EasytierManager::stop, (ended,), stopped),
    ensures
        to_start,
        runs,
        stopped,
        *final(ended) == fresh,
        final(ended).settings() == config,
{
}

/// Each part stands in the joined text, at its beginning or behind a space, and
/// up to its end or to a space; the first at the beginning and the last at the
/// end.
pub open spec fn stands_in(joined: Seq<char>, parts: Seq<Seq<char>>, i: int, a: int) -> bool {
    let p = parts[i];
    &&& 0 <= a && a + p.len() <= joined.len()
    &&& joined.subrange(a, a + p.len()) == p
    &&& i == 0 ==> a == 0
    &&& i > 0 ==> a > 0 && joined[a - 1] == ' '
    &&& i + 1 == parts.len() ==> a + p.len() == joined.len()
    &&& i + 1 < parts.len() ==> a + p.len() < joined.len() && joined[a + p.len()] == ' '
}

proof fn lemma_stands_in(parts: Seq<Seq<char>>, i: int) -> (a: int)
    requires
        0 <= i < parts.len(),
    ensures
        stands_in(text::joined(parts, " "@), parts, i, a),
    decreases parts.len(),
{
    reveal_strlit(" ");
    let all = text::joined(parts, " "@);
    if parts.len() == 1 {
        assert(all.subrange(0, all.len() as int) =~= all);
        0
    } else {
        let head = parts.drop_last();
        let before = text::joined(head, " "@);
        let n = before.len() as int;
        assert(all == before + " "@ + parts.last());
        assert(all[n] == ' ');
        if i == head.len() {
            assert(all.subrange(n + 1, all.len() as int) =~= parts.last());
            n + 1
        } else {
            let a = lemma_stands_in(head, i);
            let p = parts[i];
            assert(head[i] == p);
            assert(all.subrange(0, n) =~= before);
            assert(all.subrange(a, a + p.len()) =~= before.subrange(a, a + p.len()));
            if i > 0 {
                assert(all[a - 1] == before[a - 1]);
            }
            if i + 1 < head.len() {
                assert(all[a + p.len()] == before[a + p.len()]);
            }
            a
        }
    }
}

/// The program is told the names behind their options, the secret if there is
/// one, the listeners if there are any, all of them in one argument with spaces
/// between them, and at last to do without DHCP. It is told nothing else.
pub proof fn programs_are_told_the_network(m: &EasytierManager, args: Vec<String>, i: int)
    requires
        call_ensures(EasytierManager::build_args, (m,), args),
    ensures
        ({
            let c = m.settings();
            let secret = c.network_secret@.len() > 0;
            let listens = c.listeners@.len() > 0;
            let at: int = if secret {
                6
            } else {
                4
            };
            let n: int = if listens {
                at + 2
            } else {
                at
            };
            &&& args@.len() == n + 1
            &&& args@[0]@ == "--instance-name"@ && args@[1]@ == c.instance_name@
            &&& args@[2]@ == "--network-name"@ && args@[3]@ == c.network_name@
            &&& secret ==> args@[4]@ == "--network-secret"@ && args@[5]@ == c.network_secret@
            &&& listens ==> args@[at]@ == "--listeners"@
            &&& args@[n]@ == "--disable-dhcp"@
        }),
        0 <= i < m.settings().listeners@.len() ==> exists|a: int| #[trigger]
            stands_in(
                args@[args@.len() - 2]@,
                text::texts(m.settings().listeners@),
                i,
                a,
            ),
{
    let c = m.settings();
    let t = text::texts(args@);
    assert(t.len() == args@.len());
    assert forall|k: int| 0 <= k < t.len() implies t[k] == (#[trigger] args@[k])@ by {}
    let at: int = if c.network_secret@.len() > 0 {
        6
    } else {
        4
    };
    let n = t.len() - 1;
    assert(t == program_args(c));
    assert(t[0] == args@[0]@ && t[1] == args@[1]@ && t[2] == args@[2]@ && t[3] == args@[3]@);
    assert(t[n] == args@[n]@);
    assert(at == 6 ==> t[4] == args@[4]@ && t[5] == args@[5]@);
    assert(c.listeners@.len() > 0 ==> t[at] == args@[at]@ && t[at + 1] == args@[at + 1]@);
    if c.listeners@.len() > 0 {
        let l = text::texts(c.listeners@);
        if 0 <= i < l.len() {
            let a = lemma_stands_in(l, i);
            assert(stands_in(args@[args@.len() - 2]@, l, i, a));
        }
    }
}

/// A program with a separator in its path is taken from there, if it is there;
/// one without is searched for, by its name or by the usual one, and the first
/// line of what the search printed is where it stands.
pub proof fn programs_are_found(
    m: &EasytierManager,
    windows: bool,
    lookup: BinaryLookup,
    exists: bool,
    found: &Option<String>,
    res: Result<String, BinaryError>,
)
    requires
        call_ensures(EasytierManager::binary_lookup, (m, windows), lookup),
        call_ensures(EasytierManager::check_binary, (m, exists, found), res),
    ensures
        ({
            let path = m.settings().binary_path@;
            let a_path = exists|i: int| 0 <= i < path.len() && (path[i] == '/' || path[i] == '\\');
            let name = if path.len() == 0 {
                "easytier-core"@
            } else {
                path
            };
            &&& lookup is AtPath == a_path
            &&& lookup matches BinaryLookup::AtPath(p) ==> p@ == path
            &&& lookup matches BinaryLookup::Search(s) ==> s@ == (if windows {
                "where "@
            } else {
                "which "@
            }) + name
            &&& a_path ==> res is Ok == exists
            &&& !a_path ==> res is Ok == found is Some
            &&& a_path ==> (res matches Ok(p) ==> p@ == path)
            &&& res matches Err(e) ==> if a_path {
                e matches BinaryError::NotFoundAt(p) && p@ == path
            } else {
                e matches BinaryError::NotInPath(p) && p@ == name
            }
        }),
{
    let path = m.settings().binary_path@;
    if is_path(path) {
        if path.contains('/') {
            let i = choose|i: int| 0 <= i < path.len() && path[i] == '/';
            assert(path[i] == '/');
        } else {
            let i = choose|i: int| 0 <= i < path.len() && path[i] == '\\';
            assert(path[i] == '\\');
        }
    }
}

} // verus!
