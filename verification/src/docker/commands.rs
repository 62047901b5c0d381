//! The shell commands that are sent to a Docker host.

use crate::number::{decimal, push_decimal};
use crate::text::{append_str, chars_of, concat2, concat3, string_of};
use vstd::prelude::*;

verus! {

/// The command that lists containers, one to a line, as identifier, name,
/// image, status and ports with `|` between them.
pub open spec fn ps_command(all: bool) -> Seq<char> {
    "docker ps "@ + (if all {
        "-a "@
    } else {
        ""@
    }) + "--format '{{.ID}}|{{.Names}}|{{.Image}}|{{.Status}}|{{.Ports}}'"@
}

/// The command that lists the running containers, or all of them.
pub fn docker_ps_command(all: bool) -> (r: String)
    ensures
        r@ == ps_command(all),
{
    let all_flag = if all {
        "-a "
    } else {
        ""
    };
    concat3(
        "docker ps ",
        all_flag,
        "--format '{{.ID}}|{{.Names}}|{{.Image}}|{{.Status}}|{{.Ports}}'",
    )
}

/// The command that pulls an image.
pub fn docker_pull_command(image: &str) -> (r: String)
    ensures
        r@ == "docker pull "@ + image@,
{
    concat2("docker pull ", image)
}

/// The command that starts a container.
pub fn docker_start_command(container: &str) -> (r: String)
    ensures
        r@ == "docker start "@ + container@,
{
    concat2("docker start ", container)
}

/// The command that stops a container.
pub fn docker_stop_command(container: &str) -> (r: String)
    ensures
        r@ == "docker stop "@ + container@,
{
    concat2("docker stop ", container)
}

/// The command that restarts a container.
pub fn docker_restart_command(container: &str) -> (r: String)
    ensures
        r@ == "docker restart "@ + container@,
{
    concat2("docker restart ", container)
}

/// The command that removes a container.
pub fn docker_rm_command(container: &str) -> (r: String)
    ensures
        r@ == "docker rm "@ + container@,
{
    concat2("docker rm ", container)
}

/// The command that removes a container and its volumes.
pub fn docker_rm_with_volumes_command(container: &str) -> (r: String)
    ensures
        r@ == "docker rm -v "@ + container@,
{
    concat2("docker rm -v ", container)
}

/// The command that removes an image.
pub fn docker_rmi_command(image: &str) -> (r: String)
    ensures
        r@ == "docker rmi "@ + image@,
{
    concat2("docker rmi ", image)
}

/// The command that prints a container's logs: the last `tail` lines where
/// given, following where asked, with the error stream joined in.
pub open spec fn logs_command(container: Seq<char>, tail: Option<usize>, follow: bool) -> Seq<
    char,
> {
    "docker logs"@ + (match tail {
        Some(n) => " --tail "@ + decimal(n as nat),
        None => Seq::empty(),
    }) + (if follow {
        " -f"@
    } else {
        Seq::empty()
    }) + " "@ + container + " 2>&1"@
}

/// The command that prints a container's logs.
pub fn docker_logs_command(container: &str, tail: Option<usize>, follow: bool) -> (r: String)
    ensures
        r@ == logs_command(container@, tail, follow),
{
    let mut cmd = chars_of("docker logs");
    match tail {
        Some(n) => {
            append_str(&mut cmd, " --tail ");
            push_decimal(&mut cmd, n as u64);
        },
        None => {},
    }
    if follow {
        append_str(&mut cmd, " -f");
    }
    append_str(&mut cmd, " ");
    append_str(&mut cmd, container);
    append_str(&mut cmd, " 2>&1");
    assert(cmd@ == logs_command(container@, tail, follow));
    string_of(&cmd)
}

/// The command that prints a container's environment.
pub fn docker_exec_env_command(container: &str) -> (r: String)
    ensures
        r@ == "docker exec "@ + container@ + " env"@,
{
    concat3("docker exec ", container, " env")
}

/// The command that prints a container's resource use once, as six figures
/// with `|` between them.
pub fn docker_stats_command(container: &str) -> (r: String)
    ensures
        r@
            == "docker stats --no-stream --format '{{.CPUPerc}}|{{.MemUsage}}|{{.MemPerc}}|{{.NetIO}}|{{.BlockIO}}|{{.PIDs}}' "@
            + container@,
{
    concat2(
        "docker stats --no-stream --format '{{.CPUPerc}}|{{.MemUsage}}|{{.MemPerc}}|{{.NetIO}}|{{.BlockIO}}|{{.PIDs}}' ",
        container,
    )
}

/// The command that lists a container's processes.
pub fn docker_top_command(container: &str) -> (r: String)
    ensures
        r@ == "docker top "@ + container@ + " -o pid,user,%cpu,%mem,comm"@,
{
    concat3("docker top ", container, " -o pid,user,%cpu,%mem,comm")
}

/// The command that prints what Docker knows of a container.
pub fn docker_inspect_command(container: &str) -> (r: String)
    ensures
        r@ == "docker inspect "@ + container@,
{
    concat2("docker inspect ", container)
}

/// The command that lists a directory in long form, without the line of the
/// total.
pub fn list_directory_command(path: &str) -> (r: String)
    ensures
        r@ == "ls -la "@ + path@ + " 2>/dev/null | tail -n +2"@,
{
    concat3("ls -la ", path, " 2>/dev/null | tail -n +2")
}

} // verus!
