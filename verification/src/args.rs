//! The command-line surface as plain data: one struct per subcommand, the
//! subcommand enum, and the quiet error wrapper that carries a message to the
//! caller without further decoration.

use vstd::prelude::*;

verus! {

/// Top-level arguments: an optional subcommand plus the global flags.
pub struct Args {
    pub command: Option<SubCommands>,
    pub quiet: bool,
    pub verbose: bool,
    pub help: bool,
    pub help_long: bool,
}

/// The subcommands, each with a one-letter alias carrying the same payload.
pub enum SubCommands {
    Install(InstallArgs),
    I(InstallArgs),
    List(ListArgs),
    L(ListArgs),
    Uninstall(UninstallArgs),
    U(UninstallArgs),
    Rename(RenameArgs),
    R(RenameArgs),
    PuG(PuGArgs),
    P(PuGArgs),
    Reset(ResetArgs),
    Rs(ResetArgs),
}

/// Arguments for installing an addon.
pub struct InstallArgs {
    pub file: Option<String>,
    pub name: Option<String>,
    pub quiet: bool,
    pub verbose: bool,
}

/// Arguments for listing installed addons.
pub struct ListArgs {
    pub details: bool,
    pub quiet: bool,
    pub verbose: bool,
}

/// Arguments for uninstalling an addon.
pub struct UninstallArgs {
    pub name: Option<String>,
    pub quiet: bool,
    pub verbose: bool,
}

/// Arguments for renaming an addon.
pub struct RenameArgs {
    pub current: Option<String>,
    pub new: Option<String>,
    pub verbose: bool,
}

/// Arguments for switching or checking PuG mode.
pub struct PuGArgs {
    pub check: bool,
    pub switch: bool,
    pub verbose: bool,
}

/// Arguments for resetting gameinfo.txt from its backup.
pub struct ResetArgs {
    pub confirm: bool,
    pub verbose: bool,
}

/// An error that carries an optional message and nothing else; the caller
/// prints the message (or nothing) without extra framing.
pub struct QuietErr(pub Option<String>);

impl QuietErr {
    /// The message to show: the carried text, or the empty string.
    pub fn message(&self) -> (s: String)
        ensures
            match self.0 {
                Some(ref m) => s@ == m@,
                None => s@ == Seq::<char>::empty(),
            },
    {
        match &self.0 {
            Some(m) => m.clone(),
            None => String::new(),
        }
    }
}

} // verus!
