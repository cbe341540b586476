//! The command line: what pvm was asked to do.
use crate::commands::cache::Cache;
use crate::commands::current::Current;
use crate::commands::default_cmd::DefaultCmd;
use crate::commands::env::Env;
use crate::commands::exec_cmd::Exec;
use crate::commands::init::Init;
use crate::commands::install::Install;
use crate::commands::ls::Ls;
use crate::commands::ls_remote::LsRemote;
use crate::commands::prune::Prune;
use crate::commands::self_update::SelfUpdate;
use crate::commands::uninstall::Uninstall;
use crate::commands::use_cmd::Use;
use crate::commands::which_cmd::Which;
use crate::commands::xdebug::Xdebug;
use vstd::prelude::*;

verus! {

/// Fast and simple PHP version manager.
#[derive(Clone, Debug, PartialEq)]
pub struct Cli {
    /// The command to run; without one the interactive menu opens.
    pub command: Option<Commands>,
    /// Print the version.
    pub version: Option<bool>,
}

/// The commands of pvm.
#[derive(Clone, Debug, PartialEq)]
pub enum Commands {
    /// Install a specific PHP version.
    Install(Install),
    /// Change PHP version.
    Use(Use),
    /// Print and set up required environment variables for pvm.
    Env(Env),
    /// List all locally installed PHP versions.
    Ls(Ls),
    /// List all remote available PHP versions.
    LsRemote(LsRemote),
    /// Print the currently active PHP version.
    Current(Current),
    /// Uninstall a PHP version.
    Uninstall(Uninstall),
    /// Initialize a .php-version file in the current directory.
    Init(Init),
    /// Set the default PHP version for new shells.
    Default(DefaultCmd),
    /// Remove superseded patch versions.
    Prune(Prune),
    /// Run a command under a specific PHP version.
    Exec(Exec),
    /// Print the path of the active or given PHP binary.
    Which(Which),
    /// Manage the remote version cache.
    Cache(Cache),
    /// Check for and apply pvm updates.
    SelfUpdate(SelfUpdate),
    /// Toggle Xdebug on or off for a PHP version.
    Xdebug(Xdebug),
}

} // verus!
