//! Commands for a Docker host and readers of what they print.

pub mod commands;
pub mod discovery;
pub mod parser;
pub mod script_parser;

pub use commands::{
    docker_exec_env_command, docker_inspect_command, docker_logs_command, docker_ps_command,
    docker_pull_command, docker_restart_command, docker_rm_command,
    docker_rm_with_volumes_command, docker_rmi_command, docker_start_command, docker_stats_command,
    docker_stop_command, docker_top_command, list_directory_command,
};
pub use discovery::{
    create_script_from_content, find_scripts_command, list_projects_command,
    parse_project_listing, parse_script_paths, read_script_command, run_script_command,
    write_script_command,
};
pub use parser::parse_docker_ps;
pub use script_parser::apply_script_changes;
