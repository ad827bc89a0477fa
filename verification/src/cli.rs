//! The command-line entry model: the top-level command with its directory
//! options, the subcommand set, and the rollout gating that decides whether
//! an experimental subcommand is enabled.

use vstd::prelude::*;

verus! {

/// Where system configuration files live when no directory is given.
pub const DEFAULT_ETC_EDEN_DIR: &'static str = "/etc/eden";

/// The first level of subcommands.
#[derive(Debug, PartialEq, Eq, Structural, Clone, Copy)]
pub enum TopLevelSubcommand {
    /// Daemon health.
    Status,
    /// Daemon process id.
    Pid,
    /// Daemon uptime.
    Uptime,
    /// Configuration.
    Config,
    /// Debugging helpers.
    Debug,
    /// A small top view.
    Minitop,
    /// Disk usage.
    Du,
    /// Checkout list.
    List,
    /// Prefetch profiles.
    PrefetchProfile,
    /// Redirections.
    Redirect,
}

/// The name a subcommand is gated under in the rollout configuration.
pub open spec fn spec_subcommand_name(sc: TopLevelSubcommand) -> Seq<char> {
    match sc {
        TopLevelSubcommand::Status => "status"@,
        TopLevelSubcommand::Pid => "pid"@,
        TopLevelSubcommand::Uptime => "uptime"@,
        TopLevelSubcommand::Config => "config"@,
        TopLevelSubcommand::Debug => "debug"@,
        TopLevelSubcommand::Minitop => "minitop"@,
        TopLevelSubcommand::Du => "du"@,
        TopLevelSubcommand::List => "list"@,
        TopLevelSubcommand::PrefetchProfile => "prefetch-profile"@,
        TopLevelSubcommand::Redirect => "redirect"@,
    }
}

/// The subcommand is experimental: gated off unless the rollout
/// configuration turns it on.
pub open spec fn spec_is_experimental(sc: TopLevelSubcommand) -> bool {
    sc == TopLevelSubcommand::Redirect
}

/// What every subcommand offers the dispatcher: its gating name.
pub trait Subcommand {
    /// The subcommand's gating name.
    spec fn spec_name(&self) -> Seq<char>;

    /// The name the rollout configuration gates the subcommand under.
    fn name(&self) -> (r: String)
        ensures
            r@ == self.spec_name(),
    ;
}

impl Subcommand for TopLevelSubcommand {
    open spec fn spec_name(&self) -> Seq<char> {
        spec_subcommand_name(*self)
    }

    fn name(&self) -> (r: String) {
        match self {
            TopLevelSubcommand::Status => "status".to_owned(),
            TopLevelSubcommand::Pid => "pid".to_owned(),
            TopLevelSubcommand::Uptime => "uptime".to_owned(),
            TopLevelSubcommand::Config => "config".to_owned(),
            TopLevelSubcommand::Debug => "debug".to_owned(),
            TopLevelSubcommand::Minitop => "minitop".to_owned(),
            TopLevelSubcommand::Du => "du".to_owned(),
            TopLevelSubcommand::List => "list".to_owned(),
            TopLevelSubcommand::PrefetchProfile => "prefetch-profile".to_owned(),
            TopLevelSubcommand::Redirect => "redirect".to_owned(),
        }
    }
}

/// The top-level command: the directory options and the chosen subcommand.
#[derive(Debug)]
pub struct MainCommand {
    /// Where the daemon keeps its internal state, when given.
    pub config_dir: Option<String>,
    /// Where the system configuration files live, when given.
    pub etc_eden_dir: Option<String>,
    /// Where the user's configuration file lives, when given.
    pub home_dir: Option<String>,
    /// A directory within a checkout, when given.
    pub checkout_dir: Option<String>,
    /// Debug output requested.
    pub debug: bool,
    /// The chosen subcommand.
    pub subcommand: TopLevelSubcommand,
}

impl MainCommand {
    /// The directory of system configuration files: the given one, or the
    /// default.
    pub fn get_etc_eden_dir(&self) -> (r: String)
        ensures
            r@ == match self.etc_eden_dir {
                Some(d) => d@,
                None => DEFAULT_ETC_EDEN_DIR@,
            },
    {
        match &self.etc_eden_dir {
            Some(d) => d.clone(),
            None => DEFAULT_ETC_EDEN_DIR.to_owned(),
        }
    }

    /// Whether the chosen subcommand runs here: the rollout lookup's answer
    /// when there is one, else on unless the subcommand is experimental.
    pub fn is_enabled(&self, rollout: Option<bool>) -> (r: bool)
        ensures
            r == match rollout {
                Some(b) => b,
                None => !spec_is_experimental(self.subcommand),
            },
    {
        match rollout {
            Some(b) => b,
            None => !(self.subcommand == TopLevelSubcommand::Redirect),
        }
    }
}

} // verus!
