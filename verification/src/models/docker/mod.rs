//! Containers, deployment scripts and what is read from a Docker host.

pub mod container;
pub mod script;

pub use container::{Container, ContainerStatus, PortMapping};
pub use script::{
    ContainerInfo, ContainerStats, DeploymentScript, EnvVar, FileEntry, ProcessInfo, Project,
    VolumeMount,
};
