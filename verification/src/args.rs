use vstd::prelude::*;

verus! {

/// The parsed command line: an optional custom path to the dotconfig file,
/// and the requested operation.
///
/// The binary around the library owns the actual parser; it hands the
/// library this plain form.
#[derive(Debug)]
pub struct SyncDotfilesArgs {
    /// Provide custom path to the config file (default: ${pwd}/config.ron)
    pub config_path: Option<String>,
    pub command: Commands,
}

/// The operations the tool offers.
#[derive(Debug)]
pub enum Commands {
    /// Force push configs from dotconfigs directory into your local system
    ForcePush,
    /// Force pull configs from your local system into the dotconfigs directory
    ForcePull,
    /// Update your dotconfigs directory with the latest configs
    Pull,
    /// Update your local system configs with the configs from the dotconfigs directory
    Push,
    /// Clear the metadata of config entries in the sync-dotfiles config
    ClearMetadata,
    /// Prints a new sync-dotfiles configuration
    PrintNew,
    /// Prints the currently used sync-dotfiles config file
    PrintConfig,
    /// Fix your sync-dotfiles config file for any errors
    FixConfig,
    /// Adds a new config entry to your existing sync-dotfiles config
    Add(AddArgs),
    /// Clean all the config directories from your specified dotconfigs path
    Clean,
    /// Edit the sync-dotfiles config file
    Edit,
}

/// The arguments of the add operation.
#[derive(Debug)]
pub struct AddArgs {
    /// The name of the config entry
    pub name: String,
    /// The path to the config entry
    pub path: String,
}

} // verus!
