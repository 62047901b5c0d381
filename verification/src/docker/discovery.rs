//! Finding the projects of a host and the deployment scripts under them.

use crate::models::{DeploymentScript, Project};
use crate::models::docker::script::{ProjectView, ScriptView};
use crate::search::{begins_with, contains, has_str, lines, lines_of, starts_with};
use crate::text::{
    append, append_str, chars_of, concat2, concat3, replace_char, replace_each, slice_of, string_of,
    trim, trim_ws, views, Class,
};
use super::script_parser::{parse_script, parsed};
use vstd::prelude::*;

verus! {

/// A path as the remote shell is to read it: `$HOME` in place of the tilde of
/// a path that begins with `~/`.
pub open spec fn expanded(path: Seq<char>) -> Seq<char> {
    if starts_with(path, "~/"@) {
        "$HOME"@ + path.skip(1)
    } else {
        path
    }
}

/// The path as the remote shell is to read it.
pub fn expand_path(path: &str) -> (r: String)
    ensures
        r@ == expanded(path@),
{
    string_of(&expand_chars(path))
}

fn expand_chars(path: &str) -> (r: Vec<char>)
    ensures
        r@ == expanded(path@),
{
    let p = chars_of(path);
    if begins_with(&p, "~/") {
        proof {
            reveal_strlit("~/");
        }
        let mut out = chars_of("$HOME");
        append(&mut out, &slice_of(&p, 1, p.len()));
        out
    } else {
        p
    }
}

/// The command that lists the names of the directories directly under the
/// clients path, sorted.
pub open spec fn projects_command(clients_path: Seq<char>) -> Seq<char> {
    "find "@ + expanded(clients_path)
        + " -maxdepth 1 -mindepth 1 -type d -exec basename {} \\; 2>/dev/null | sort"@
}

/// The command that lists the project directories under the clients path.
pub fn list_projects_command(clients_path: &str) -> (r: String)
    ensures
        r@ == projects_command(clients_path@),
{
    concat3(
        "find ",
        expand_path(clients_path).as_str(),
        " -maxdepth 1 -mindepth 1 -type d -exec basename {} \\; 2>/dev/null | sort",
    )
}

/// The command that finds the shell scripts under a path whose names begin
/// with `start`, `deploy`, `run` or `docker`, outside the directories of
/// dependencies and of version control.
pub open spec fn find_command(project_path: Seq<char>) -> Seq<char> {
    "find "@ + project_path
        + " -type f \\( -name \"start*.sh\" -o -name \"deploy*.sh\" -o -name \"run*.sh\" -o -name \"docker*.sh\" \\) \\\n        ! -path \"*/node_modules/*\" \\\n        ! -path \"*/.git/*\" \\\n        ! -path \"*/vendor/*\" \\\n        2>/dev/null"@
}

/// The command that prints the file at a path.
pub open spec fn read_command(script_path: Seq<char>) -> Seq<char> {
    "cat "@ + script_path
}

/// The command that finds the deployment scripts of a project.
pub fn find_scripts_command(project_path: &str) -> (r: String)
    ensures
        r@ == find_command(project_path@),
{
    concat3(
        "find ",
        project_path,
        " -type f \\( -name \"start*.sh\" -o -name \"deploy*.sh\" -o -name \"run*.sh\" -o -name \"docker*.sh\" \\) \\\n        ! -path \"*/node_modules/*\" \\\n        ! -path \"*/.git/*\" \\\n        ! -path \"*/vendor/*\" \\\n        2>/dev/null",
    )
}

/// The command that prints a script.
pub fn read_script_command(script_path: &str) -> (r: String)
    ensures
        r@ == read_command(script_path@),
{
    concat2("cat ", script_path)
}

/// The lines among the first `n` that are not blank, each without the white
/// space around it.
pub open spec fn entries_in(ls: Seq<Seq<char>>, n: int) -> Seq<Seq<char>>
    decreases n,
{
    if n <= 0 {
        Seq::empty()
    } else {
        let prev = entries_in(ls, n - 1);
        let t = trim(ls[n - 1], Class::Space);
        if t.len() > 0 {
            prev.push(t)
        } else {
            prev
        }
    }
}

/// What a listing names: its lines that are not blank, each without the white
/// space around it.
pub open spec fn listed(output: Seq<char>) -> Seq<Seq<char>> {
    entries_in(lines(output), lines(output).len() as int)
}

fn read_listed(output: &str) -> (r: Vec<Vec<char>>)
    ensures
        views(r@) == listed(output@),
{
    let ls = lines_of(&chars_of(output));
    assert(views(ls@).len() == ls.len());
    let mut out: Vec<Vec<char>> = Vec::new();
    let mut i: usize = 0;
    assert(views(out@) == entries_in(views(ls@), 0));
    while i < ls.len()
        invariant
            i <= ls.len(),
            views(out@) == entries_in(views(ls@), i as int),
        decreases ls.len() - i,
    {
        let ghost before = views(out@);
        assert(views(ls@)[i as int] == ls@[i as int]@);
        let t = trim_ws(&ls[i]);
        if t.len() > 0 {
            out.push(t);
            assert(views(out@) == before.push(trim(ls@[i as int]@, Class::Space)));
        }
        i += 1;
    }
    out
}

/// The project of the given name under the clients path, with no scripts.
pub open spec fn project_at(name: Seq<char>, clients_path: Seq<char>) -> ProjectView {
    ProjectView { name, path: expanded(clients_path) + "/"@ + name, scripts: Seq::empty() }
}

/// The projects that a listing of the clients path names, in order.
pub open spec fn projects_of(output: Seq<char>, clients_path: Seq<char>) -> Seq<ProjectView> {
    Seq::new(listed(output).len(), |i: int| project_at(listed(output)[i], clients_path))
}

/// The projects that the listing of the clients path names: one for each line
/// that is not blank.
pub fn parse_project_listing(output: &str, clients_path: &str) -> (r: Vec<Project>)
    ensures
        views(r@) == projects_of(output@, clients_path@),
{
    let names = read_listed(output);
    assert(views(names@).len() == names.len());
    let mut out: Vec<Project> = Vec::new();
    let mut i: usize = 0;
    while i < names.len()
        invariant
            i <= names.len(),
            views(names@) == listed(output@),
            views(out@) == projects_of(output@, clients_path@).take(i as int),
        decreases names.len() - i,
    {
        let ghost before = views(out@);
        assert(views(names@)[i as int] == names@[i as int]@);
        let mut path = expand_chars(clients_path);
        append_str(&mut path, "/");
        append(&mut path, &names[i]);
        let p = Project::new(string_of(&names[i]), string_of(&path));
        out.push(p);
        i += 1;
        assert(views(out@) == before.push(p@));
        assert(views(out@) == projects_of(output@, clients_path@).take(i as int));
    }
    assert(projects_of(output@, clients_path@).take(names.len() as int) == projects_of(
        output@,
        clients_path@,
    ));
    out
}

/// The script paths that the output of the search names: one for each line
/// that is not blank.
pub fn parse_script_paths(output: &str) -> (r: Vec<String>)
    ensures
        views(r@) == listed(output@),
{
    let paths = read_listed(output);
    let mut out: Vec<String> = Vec::new();
    let mut i: usize = 0;
    while i < paths.len()
        invariant
            i <= paths.len(),
            views(out@) == views(paths@).take(i as int),
        decreases paths.len() - i,
    {
        let ghost before = views(out@);
        out.push(string_of(&paths[i]));
        i += 1;
        assert(views(out@) == before.push(paths@[i - 1]@));
        assert(views(out@) == views(paths@).take(i as int));
    }
    assert(views(paths@).take(paths.len() as int) == views(paths@));
    out
}

/// The deployment script that a text is, where it is one: it names `docker`,
/// and a container's name is found in it.
pub open spec fn script_of(path: Seq<char>, content: Seq<char>, project_name: Seq<char>) -> Option<
    ScriptView,
> {
    if contains(content, "docker"@) && parsed(content, path, project_name).container_name.len()
        > 0 {
        Some(parsed(content, path, project_name))
    } else {
        None
    }
}

/// The view of an optional script.
pub open spec fn script_view(s: Option<DeploymentScript>) -> Option<ScriptView> {
    match s {
        Some(s) => Some(s@),
        None => None,
    }
}

/// Reads the text of the file at `path` as a deployment script of the
/// project. A text that does not name `docker`, or in which no container's
/// name is found, is no deployment script.
pub fn create_script_from_content(path: &str, content: &str, project_name: &str) -> (r: Option<
    DeploymentScript,
>)
    ensures
        script_view(r) == script_of(path@, content@, project_name@),
        r matches Some(script) ==> script.wf() && script@.container_name.len() > 0,
{
    if !has_str(&chars_of(content), "docker") {
        return None;
    }
    let script = parse_script(content, path, project_name);
    if script.container_name.as_str().is_empty() {
        return None;
    }
    Some(script)
}

/// The command that writes a script: a here-document whose end mark is quoted,
/// so that nothing in the text is expanded, then the mode that makes the file
/// executable.
pub open spec fn write_command(script_path: Seq<char>, content: Seq<char>) -> Seq<char> {
    "cat > '"@ + script_path + "' << 'DOCKERING_SCRIPT_EOF'\n"@ + replace_char(
        content,
        '\'',
        "'\\''"@,
    ) + "\nDOCKERING_SCRIPT_EOF && chmod +x '"@ + script_path + "'"@
}

/// The command that writes `content` to the file at `script_path` on the
/// host.
pub fn write_script_command(script_path: &str, content: &str) -> (r: String)
    ensures
        r@ == write_command(script_path@, content@),
{
    let escaped = replace_each(&chars_of(content), '\'', "'\\''");
    let mut out = chars_of("cat > '");
    append_str(&mut out, script_path);
    append_str(&mut out, "' << 'DOCKERING_SCRIPT_EOF'\n");
    append(&mut out, &escaped);
    append_str(&mut out, "\nDOCKERING_SCRIPT_EOF && chmod +x '");
    append_str(&mut out, script_path);
    append_str(&mut out, "'");
    assert(out@ == write_command(script_path@, content@));
    string_of(&out)
}

/// The command that runs a script from its own directory.
pub fn run_script_command(script_path: &str) -> (r: String)
    ensures
        r@ == "cd $(dirname '"@ + script_path@ + "') && bash '"@ + script_path@ + "'"@,
{
    let mut out = chars_of("cd $(dirname '");
    append_str(&mut out, script_path);
    append_str(&mut out, "') && bash '");
    append_str(&mut out, script_path);
    append_str(&mut out, "'");
    string_of(&out)
}

} // verus!
