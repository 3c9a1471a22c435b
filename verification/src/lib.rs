//! Dotfile organization and tracking.
//!
//! The library records which dotfiles a configuration repository holds: it
//! filters a directory listing down to the dotfile names, builds a
//! configuration record from the source URL and those names, and encodes and
//! parses the record's on-disk text form. Path expansion for `~`-relative
//! paths is handled here as well. Fetching the repository and touching the
//! filesystem are left to the binary around the library.

pub mod config;
pub mod paths;
pub mod scan;
pub mod store;
mod text;

use vstd::prelude::*;

verus! {

/// The operations the command line selects. `Link` is recorded as a command
/// of its own but has no behaviour yet; callers must not pretend otherwise.
pub enum Command {
    Init { repo_url: String },
    Link,
}

} // verus!
