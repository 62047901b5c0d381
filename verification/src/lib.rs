//! Inventory of SSH hosts and of the Docker containers and deployment
//! scripts found on them.

pub mod app;
pub mod completion;
pub mod display;
pub mod docker;
pub mod input;
pub mod models;
pub mod number;
pub mod orchestrator;
pub mod pattern;
pub mod pipeline;
pub mod search;
pub mod sorting;
pub mod ssh;
pub mod text;
