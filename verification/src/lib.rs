//! Locates the best environment-description file for a project directory and
//! derives a canonical `host/owner/repo` tag from a version-control remote URL.
//!
//! The two resolvers, the fallback chain that combines them, and the
//! completion-script rendering are verified; file, network and process I/O
//! live in the surrounding application.

pub mod completion;
pub mod files;
pub mod hosts;
pub mod index;
pub mod strings;
pub mod tags;

pub use files::find_nix_file;

pub use index::index_is_fresh;
