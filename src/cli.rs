//! The commands the program accepts, as plain data.
use vstd::prelude::*;

verus! {

/// A parsed command line.
pub struct Cli {
    /// How many times the verbosity flag was given.
    pub verbose: u8,
    pub command: Commands,
}

/// The commands.
pub enum Commands {
    /// Install the version a specifier resolves to in the remote catalog.
    Install { version: String },
    /// Switch to a version, optionally recording it as the default alias.
    Use { version: String, default: bool },
    /// List installed versions, or the remote catalog.
    List { remote: bool, lts: bool },
    /// Bind an alias name to a version.
    Alias { name: String, version: String },
    /// Drop an alias.
    Unalias { name: String },
    /// Report the active version.
    Current,
    /// Write a project override file in the working directory.
    Local { version: String },
    /// Report the effective version and where it comes from.
    Which,
    /// Remove an installed version.
    Uninstall { version: String },
}

} // verus!
