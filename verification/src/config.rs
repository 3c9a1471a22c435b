//! The configuration record and the errors the library reports.

use vstd::prelude::*;

verus! {

/// What a configuration record says, mathematically: the source URL and the
/// dotfile names as sequences of characters.
pub struct ConfigView {
    pub repo_url: Seq<char>,
    pub dotfiles: Seq<Seq<char>>,
}

/// The persisted record: the URL the repository was fetched from and the
/// names of the dotfiles found at its top level, in scan order.
#[derive(Debug, Clone, PartialEq, Eq)]
pub struct Config {
    pub repo_url: String,
    pub dotfiles: Vec<String>,
}

impl View for Config {
    type V = ConfigView;

    open spec fn view(&self) -> ConfigView {
        ConfigView {
            repo_url: self.repo_url@,
            dotfiles: self.dotfiles@.map_values(|s: String| s@),
        }
    }
}

impl Config {
    /// Assembles the record that `init` persists: the URL exactly as given,
    /// and the scanned names exactly as given, in order.
    pub fn new(repo_url: &str, dotfiles: Vec<String>) -> (c: Config)
        ensures
            c@.repo_url == repo_url@,
            c@.dotfiles == dotfiles@.map_values(|s: String| s@),
    {
        Config { repo_url: repo_url.to_owned(), dotfiles }
    }
}

/// Failure to read or parse the persisted record.
#[derive(Debug, Clone, Copy, PartialEq, Eq, Structural)]
pub enum ConfigError {
    /// The file was absent or could not be read.
    Io,
    /// The file's text does not fit the record's schema.
    Parse,
}

/// The home directory could not be determined while expanding a
/// `~`-relative path.
#[derive(Debug, Clone, Copy, PartialEq, Eq, Structural)]
pub struct HomeDirError;

} // verus!
