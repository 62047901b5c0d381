//! The SSH flags and the shells that can be chosen for a host.

use vstd::prelude::*;

verus! {

/// A flag of `ssh` with what it does.
#[derive(Debug, Clone)]
pub struct SshFlagOption {
    pub flag: &'static str,
    pub description: &'static str,
}

/// A shell with what it is.
#[derive(Debug, Clone)]
pub struct ShellOption {
    pub name: &'static str,
    pub description: &'static str,
}

/// The flags that are offered, in the order in which they are shown.
pub open spec fn flag_names() -> Seq<Seq<char>> {
    seq![
        "-t"@,
        "-A"@,
        "-X"@,
        "-Y"@,
        "-C"@,
        "-v"@,
        "-vv"@,
        "-vvv"@,
        "-N"@,
        "-f"@,
        "-q"@,
        "-4"@,
        "-6"@,
    ]
}

/// What is said of each flag that is offered.
pub open spec fn flag_descriptions() -> Seq<Seq<char>> {
    seq![
        "Force pseudo-terminal (needed for interactive shells)"@,
        "Enable SSH agent forwarding"@,
        "Enable X11 forwarding"@,
        "Enable trusted X11 forwarding"@,
        "Enable compression"@,
        "Verbose mode (debug connection)"@,
        "More verbose (extra debugging)"@,
        "Very verbose (maximum debugging)"@,
        "Don't execute command (port forwarding only)"@,
        "Go to background before command execution"@,
        "Quiet mode (suppress warnings)"@,
        "Force IPv4 only"@,
        "Force IPv6 only"@,
    ]
}

/// The shells that are offered, in the order in which they are shown.
pub open spec fn shell_names() -> Seq<Seq<char>> {
    seq![
        "bash"@,
        "zsh"@,
        "fish"@,
        "sh"@,
        "ksh"@,
        "tcsh"@,
        "dash"@,
    ]
}

/// What is said of each shell that is offered.
pub open spec fn shell_descriptions() -> Seq<Seq<char>> {
    seq![
        "Bourne Again Shell (most common)"@,
        "Z Shell (enhanced Bourne shell)"@,
        "Friendly Interactive Shell"@,
        "Bourne Shell (POSIX standard)"@,
        "Korn Shell"@,
        "TENEX C Shell"@,
        "Debian Almquist Shell"@,
    ]
}

/// The flags of `ssh` that can be chosen for a host.
pub fn get_ssh_flag_options() -> (r: Vec<SshFlagOption>)
    ensures
        r.len() == flag_names().len(),
        forall|i: int| 0 <= i < r.len() ==> (#[trigger] r@[i]).flag@ == flag_names()[i],
        forall|i: int|
            0 <= i < r.len() ==> (#[trigger] r@[i]).description@ == flag_descriptions()[i],
{
    let mut v: Vec<SshFlagOption> = Vec::new();
    v.push(SshFlagOption { flag: "-t", description: "Force pseudo-terminal (needed for interactive shells)" });
    v.push(SshFlagOption { flag: "-A", description: "Enable SSH agent forwarding" });
    v.push(SshFlagOption { flag: "-X", description: "Enable X11 forwarding" });
    v.push(SshFlagOption { flag: "-Y", description: "Enable trusted X11 forwarding" });
    v.push(SshFlagOption { flag: "-C", description: "Enable compression" });
    v.push(SshFlagOption { flag: "-v", description: "Verbose mode (debug connection)" });
    v.push(SshFlagOption { flag: "-vv", description: "More verbose (extra debugging)" });
    v.push(SshFlagOption { flag: "-vvv", description: "Very verbose (maximum debugging)" });
    v.push(SshFlagOption { flag: "-N", description: "Don't execute command (port forwarding only)" });
    v.push(SshFlagOption { flag: "-f", description: "Go to background before command execution" });
    v.push(SshFlagOption { flag: "-q", description: "Quiet mode (suppress warnings)" });
    v.push(SshFlagOption { flag: "-4", description: "Force IPv4 only" });
    v.push(SshFlagOption { flag: "-6", description: "Force IPv6 only" });
    v
}

/// The shells that can be chosen for a host.
pub fn get_shell_options() -> (r: Vec<ShellOption>)
    ensures
        r.len() == shell_names().len(),
        forall|i: int| 0 <= i < r.len() ==> (#[trigger] r@[i]).name@ == shell_names()[i],
        forall|i: int|
            0 <= i < r.len() ==> (#[trigger] r@[i]).description@ == shell_descriptions()[i],
{
    let mut v: Vec<ShellOption> = Vec::new();
    v.push(ShellOption { name: "bash", description: "Bourne Again Shell (most common)" });
    v.push(ShellOption { name: "zsh", description: "Z Shell (enhanced Bourne shell)" });
    v.push(ShellOption { name: "fish", description: "Friendly Interactive Shell" });
    v.push(ShellOption { name: "sh", description: "Bourne Shell (POSIX standard)" });
    v.push(ShellOption { name: "ksh", description: "Korn Shell" });
    v.push(ShellOption { name: "tcsh", description: "TENEX C Shell" });
    v.push(ShellOption { name: "dash", description: "Debian Almquist Shell" });
    v
}

} // verus!
