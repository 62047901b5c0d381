use sshing::docker::discovery::expand_path;
use sshing::docker::{
    docker_exec_env_command, docker_inspect_command, docker_logs_command, docker_ps_command,
    docker_pull_command, docker_restart_command, docker_rm_command,
    docker_rm_with_volumes_command, docker_rmi_command, docker_start_command,
    docker_stats_command, docker_stop_command, docker_top_command, find_scripts_command,
    list_directory_command, list_projects_command, parse_project_listing, parse_script_paths,
    read_script_command, run_script_command, write_script_command,
};

#[test]
fn ps_command_with_and_without_all() {
    assert_eq!(
        docker_ps_command(false),
        "docker ps --format '{{.ID}}|{{.Names}}|{{.Image}}|{{.Status}}|{{.Ports}}'"
    );
    assert_eq!(
        docker_ps_command(true),
        "docker ps -a --format '{{.ID}}|{{.Names}}|{{.Image}}|{{.Status}}|{{.Ports}}'"
    );
}

#[test]
fn commands_on_a_container() {
    assert_eq!(docker_pull_command("nginx:1"), "docker pull nginx:1");
    assert_eq!(docker_start_command("web"), "docker start web");
    assert_eq!(docker_stop_command("web"), "docker stop web");
    assert_eq!(docker_restart_command("web"), "docker restart web");
    assert_eq!(docker_rm_command("web"), "docker rm web");
    assert_eq!(docker_rm_with_volumes_command("web"), "docker rm -v web");
    assert_eq!(docker_rmi_command("nginx"), "docker rmi nginx");
    assert_eq!(docker_exec_env_command("web"), "docker exec web env");
    assert_eq!(docker_top_command("web"), "docker top web -o pid,user,%cpu,%mem,comm");
    assert_eq!(docker_inspect_command("web"), "docker inspect web");
    assert_eq!(
        docker_stats_command("web"),
        "docker stats --no-stream --format '{{.CPUPerc}}|{{.MemUsage}}|{{.MemPerc}}|{{.NetIO}}|{{.BlockIO}}|{{.PIDs}}' web"
    );
    assert_eq!(list_directory_command("/srv"), "ls -la /srv 2>/dev/null | tail -n +2");
}

#[test]
fn logs_command_options() {
    assert_eq!(docker_logs_command("web", None, false), "docker logs web 2>&1");
    assert_eq!(docker_logs_command("web", Some(100), false), "docker logs --tail 100 web 2>&1");
    assert_eq!(docker_logs_command("web", Some(0), true), "docker logs --tail 0 -f web 2>&1");
    assert_eq!(docker_logs_command("web", None, true), "docker logs -f web 2>&1");
    assert_eq!(
        docker_logs_command("w", Some(usize::MAX), false),
        format!("docker logs --tail {} w 2>&1", usize::MAX)
    );
}

#[test]
fn discovery_commands() {
    assert_eq!(
        list_projects_command("~/clients"),
        "find $HOME/clients -maxdepth 1 -mindepth 1 -type d -exec basename {} \\; 2>/dev/null | sort"
    );
    assert_eq!(
        list_projects_command("/srv"),
        "find /srv -maxdepth 1 -mindepth 1 -type d -exec basename {} \\; 2>/dev/null | sort"
    );
    assert_eq!(
        find_scripts_command("/srv/a"),
        "find /srv/a -type f \\( -name \"start*.sh\" -o -name \"deploy*.sh\" -o -name \"run*.sh\" -o -name \"docker*.sh\" \\) \\\n        ! -path \"*/node_modules/*\" \\\n        ! -path \"*/.git/*\" \\\n        ! -path \"*/vendor/*\" \\\n        2>/dev/null"
    );
    assert_eq!(read_script_command("/srv/a/start.sh"), "cat /srv/a/start.sh");
    assert_eq!(run_script_command("/srv/a/s.sh"), "cd $(dirname '/srv/a/s.sh') && bash '/srv/a/s.sh'");
}

#[test]
fn write_command_escapes_single_quotes() {
    assert_eq!(
        write_script_command("/p/s.sh", "echo 'hi'\n"),
        "cat > '/p/s.sh' << 'DOCKERING_SCRIPT_EOF'\necho '\\''hi'\\''\n\nDOCKERING_SCRIPT_EOF && chmod +x '/p/s.sh'"
    );
    assert_eq!(
        write_script_command("p", ""),
        "cat > 'p' << 'DOCKERING_SCRIPT_EOF'\n\nDOCKERING_SCRIPT_EOF && chmod +x 'p'"
    );
}

#[test]
fn tilde_is_expanded_only_at_the_start() {
    assert_eq!(expand_path("~/x/~/y"), "$HOME/x/~/y");
    assert_eq!(expand_path("~"), "~");
    assert_eq!(expand_path("~user/x"), "~user/x");
    assert_eq!(expand_path("/a/~/b"), "/a/~/b");
    assert_eq!(expand_path(""), "");
}

#[test]
fn project_listing_skips_blank_lines() {
    let projects = parse_project_listing("alpha\n\n  beta  \n\t\n", "~/clients");
    assert_eq!(projects.len(), 2);
    assert_eq!(projects[0].name, "alpha");
    assert_eq!(projects[0].path, "$HOME/clients/alpha");
    assert_eq!(projects[1].name, "beta");
    assert_eq!(projects[1].path, "$HOME/clients/beta");
    assert!(projects[0].scripts.is_empty());
    assert!(parse_project_listing("", "/srv").is_empty());
}

#[test]
fn script_paths_are_trimmed() {
    assert_eq!(
        parse_script_paths(" /a/start.sh \r\n\n/b/run my.sh\n"),
        vec!["/a/start.sh".to_string(), "/b/run my.sh".to_string()]
    );
    assert!(parse_script_paths("\n \n").is_empty());
}
