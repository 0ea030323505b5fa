//! The command surface as plain data: what the surrounding program parses
//! from its arguments and hands to the library's operations.
use vstd::prelude::*;

verus! {

/// One invocation's subcommand.
pub enum Commands {
    /// Install declared tools, or the given specs.
    Install {
        no_lock: bool,
        locked: bool,
        skip_check: bool,
        specs: Vec<String>,
        exact: bool,
    },
    /// Show what would be installed.
    Plan,
    /// List installed versions for declared tools.
    List,
    /// Verify the lock against manifest and installed binaries.
    Verify,
    /// Remove tools, their manifest entries and lock entries.
    Uninstall { names: Vec<String> },
    /// One-time shell profile setup.
    Setup { apply: bool },
    /// Emit the shell activation hook.
    Hook { shell: Option<String> },
    /// Regenerate the lock at the current schema.
    MigrateLock,
    /// Rewrite a legacy manifest into keyed tables.
    MigrateConfig,
    /// Diagnose lock issues.
    Diagnose { lock: String, kind: String },
}

/// One parsed invocation.
pub struct Cli {
    pub command: Commands,
    pub config: Option<String>,
}

/// The assembled arguments of an install run.
pub struct InstallArgs {
    pub write_lock: bool,
    pub locked: bool,
    pub skip_check: bool,
    pub specs: Vec<String>,
    pub exact: bool,
    pub config_path: String,
}

} // verus!
