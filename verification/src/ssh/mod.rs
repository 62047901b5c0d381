//! The SSH configuration, what is kept beside it, and the commands that
//! connect.

pub mod config;
pub mod executor;
pub mod metadata;
pub mod rsync;

pub use config::SshConfig;
pub use metadata::Metadata;
