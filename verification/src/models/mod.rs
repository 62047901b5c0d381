//! The data that the library keeps.

pub mod app_state;
pub mod docker;
pub mod host;
pub mod ssh_options;

pub use app_state::{AppMode, HostField, SortBy};
pub use docker::{
    Container, ContainerInfo, ContainerStats, ContainerStatus, DeploymentScript, EnvVar, FileEntry,
    PortMapping, ProcessInfo, Project, VolumeMount,
};
pub use host::Host;
pub use ssh_options::{get_shell_options, get_ssh_flag_options, ShellOption, SshFlagOption};
