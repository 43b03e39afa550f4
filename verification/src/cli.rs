//! What a user can ask for.

use vstd::prelude::*;

verus! {

/// The command line.
#[derive(Debug)]
pub struct Cli {
    /// The configuration file.
    pub config: Option<String>,
    pub log_level: String,
    pub command: Commands,
}

#[derive(Debug)]
pub enum Commands {
    /// Run the daemon.
    Serve(ServeArgs),
    /// Synchronise once.
    Sync(SyncArgs),
    /// Show the pairs and peers.
    Status(StatusArgs),
    /// Write a configuration file.
    Init(InitArgs),
    /// Add a pair.
    Add(AddArgs),
    /// List the pairs.
    List,
    /// Manage the service of the system.
    Service(ServiceArgs),
    /// Show a pairing code and wait.
    StartConnect(StartConnectArgs),
    /// Connect by a pairing code.
    Connect(ConnectArgs),
    Version,
}

#[derive(Debug)]
pub struct ServeArgs {
    pub foreground: bool,
    /// Watch only this pair.
    pub pair: Option<String>,
}

#[derive(Debug)]
pub struct SyncArgs {
    /// Only this pair.
    pub pair: Option<String>,
    /// Whatever the times say.
    pub force: bool,
}

#[derive(Debug)]
pub struct StatusArgs {
    /// Only this pair.
    pub pair: Option<String>,
    pub verbose: bool,
}

#[derive(Debug)]
pub struct InitArgs {
    /// Where to write.
    pub output: Option<String>,
    /// Also over a file that is there.
    pub force: bool,
    /// The name of the node.
    pub name: Option<String>,
}

#[derive(Debug)]
pub struct AddArgs {
    pub id: String,
    pub local: String,
    pub remote_node: String,
    pub remote: String,
}

#[derive(Debug, Clone, Copy, PartialEq, Eq, Structural)]
pub enum ServiceAction {
    Install,
    Uninstall,
    Start,
    Stop,
    Status,
}

#[derive(Debug)]
pub struct ServiceArgs {
    pub action: ServiceAction,
    /// The program.
    pub binary: Option<String>,
}

#[derive(Debug)]
pub struct StartConnectArgs {
    /// Seconds; 0 is for ever.
    pub timeout: u64,
}

#[derive(Debug)]
pub struct ConnectArgs {
    /// The pairing code.
    pub code: String,
    /// Seconds.
    pub timeout: u64,
}

impl StartConnectArgs {
    /// How many seconds to wait for a peer, if not for ever.
    pub fn wait_seconds(&self) -> (res: Option<u64>)
        ensures
            res == if self.timeout == 0 {
                None
            } else {
                Some(self.timeout)
            },
    {
        if self.timeout == 0 {
            None
        } else {
            Some(self.timeout)
        }
    }
}

/// No time is for ever; any other is waited for.
pub proof fn no_time_is_for_ever(args: &StartConnectArgs, res: Option<u64>)
    requires
        call_ensures(StartConnectArgs::wait_seconds, (args,), res),
    ensures
        args.timeout == 0 ==> res is None,
        args.timeout > 0 ==> res == Some(args.timeout),
{
}

} // verus!
