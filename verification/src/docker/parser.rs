//! Readers of what the commands print on a Docker host. Each takes the whole
//! output and passes over a line that it cannot read.

use crate::models::{Container, ContainerInfo, ContainerStats, FileEntry, PortMapping, ProcessInfo};
use crate::models::docker::container::{
    classify, ContainerStatus, ContainerView, PortView, StatusView,
};
use crate::models::docker::script::{
    blank_info, entry_of, parent_entry, EntryView, InfoView, ProcessView, StatsView,
};
use crate::number::{parse_u16, read_u16};
use crate::search::{
    contains, find, find_in, has_str, join, join_with, lemma_split_join, lines, lines_of, split,
    split_str, starts_with, words, words_of,
};
use crate::sorting::{indices, sort_order, sorted_order, KeyView, SortKey};
use crate::text::{
    append_texts, chars_of, copy_chars, copy_str, lowercase, same, slice_of, string_of,
    to_lowercase, trim, trim_in, trim_start, trim_start_in, trim_ws, views, CharSet, Class,
};
use vstd::prelude::*;

verus! {

/// A port and its protocol, read from `port/protocol`; the protocol is `tcp`
/// where none is given.
pub open spec fn port_protocol(s: Seq<char>) -> Option<(u16, Seq<char>)> {
    let parts = split(s, "/"@);
    match parse_u16(parts[0]) {
        Some(port) => Some(
            (
                port,
                if parts.len() > 1 {
                    parts[1]
                } else {
                    "tcp"@
                },
            ),
        ),
        None => None,
    }
}

/// A port mapping read from one entry of the ports column. In
/// `host->container/protocol` the host port is what follows the last colon of
/// the host side; an entry without an arrow is a port of the container that
/// is its own host port.
pub open spec fn single_port(s: Seq<char>) -> Option<PortView> {
    match find(s, "->"@) {
        Some(i) => match (
            parse_u16(split(s.take(i), ":"@).last()),
            port_protocol(s.skip(i + "->"@.len())),
        ) {
            (Some(host_port), Some((container_port, protocol))) => Some(
                PortView { host_port, container_port, protocol },
            ),
            _ => None,
        },
        None => match port_protocol(s) {
            Some((container_port, protocol)) => Some(
                PortView { host_port: container_port, container_port, protocol },
            ),
            None => None,
        },
    }
}

/// Whether the mappings hold one of the given host and container port.
pub open spec fn has_mapping(ports: Seq<PortView>, host_port: u16, container_port: u16) -> bool {
    exists|i: int|
        0 <= i < ports.len() && (#[trigger] ports[i]).host_port == host_port
            && ports[i].container_port == container_port
}

/// The mappings read from the first `n` entries: each entry that can be read,
/// unless one of its host and container port is there already.
pub open spec fn ports_in(entries: Seq<Seq<char>>, n: int) -> Seq<PortView>
    decreases n,
{
    if n <= 0 {
        Seq::empty()
    } else {
        let prev = ports_in(entries, n - 1);
        match single_port(entries[n - 1]) {
            Some(m) => if has_mapping(prev, m.host_port, m.container_port) {
                prev
            } else {
                prev.push(m)
            },
            None => prev,
        }
    }
}

/// The mappings read from the ports column, whose entries a comma and a space
/// part.
pub open spec fn port_list(s: Seq<char>) -> Seq<PortView> {
    ports_in(split(s, ", "@), split(s, ", "@).len() as int)
}

/// A port and its protocol, read from `port/protocol`.
pub fn parse_port_protocol(s: &str) -> (r: Option<(u16, String)>)
    ensures
        match r {
            Some((port, protocol)) => port_protocol(s@) == Some((port, protocol@)),
            None => port_protocol(s@) is None,
        },
{
    read_port_protocol(&chars_of(s))
}

fn read_port_protocol(s: &Vec<char>) -> (r: Option<(u16, String)>)
    ensures
        match r {
            Some((port, protocol)) => port_protocol(s@) == Some((port, protocol@)),
            None => port_protocol(s@) is None,
        },
{
    proof {
        reveal_strlit("/");
    }
    let parts = split_str(s, "/");
    assert(views(parts@)[0] == parts@[0]@);
    match read_u16(&parts[0]) {
        Some(port) => {
            let protocol = if parts.len() > 1 {
                assert(views(parts@)[1] == parts@[1]@);
                string_of(&parts[1])
            } else {
                copy_str("tcp")
            };
            Some((port, protocol))
        },
        None => None,
    }
}

/// A port mapping read from one entry of the ports column.
pub fn parse_single_port(port_str: &str) -> (r: Option<PortMapping>)
    ensures
        match r {
            Some(m) => single_port(port_str@) == Some(m@),
            None => single_port(port_str@) is None,
        },
{
    read_single_port(&chars_of(port_str))
}

fn read_single_port(s: &Vec<char>) -> (r: Option<PortMapping>)
    ensures
        match r {
            Some(m) => single_port(s@) == Some(m@),
            None => single_port(s@) is None,
        },
{
    proof {
        reveal_strlit("->");
        reveal_strlit(":");
    }
    let arrow = chars_of("->");
    match find_in(s, &arrow) {
        Some(i) => {
            let left = slice_of(s, 0, i);
            let right = slice_of(s, i + 2, s.len());
            assert(right@ == s@.skip(i + "->"@.len()));
            let segments = split_str(&left, ":");
            let last = &segments[segments.len() - 1];
            assert(views(segments@).last() == last@);
            let host = read_u16(last);
            let rest = read_port_protocol(&right);
            match (host, rest) {
                (Some(host_port), Some((container_port, protocol))) => Some(
                    PortMapping { host_port, container_port, protocol },
                ),
                _ => None,
            }
        },
        None => match read_port_protocol(s) {
            Some((container_port, protocol)) => Some(
                PortMapping { host_port: container_port, container_port, protocol },
            ),
            None => None,
        },
    }
}

/// Whether the mappings hold one of the given host and container port.
fn holds_mapping(ports: &Vec<PortMapping>, host_port: u16, container_port: u16) -> (r: bool)
    ensures
        r == has_mapping(views(ports@), host_port, container_port),
{
    let mut i: usize = 0;
    while i < ports.len()
        invariant
            i <= ports.len(),
            forall|j: int|
                0 <= j < i ==> !((#[trigger] views(ports@)[j]).host_port == host_port && views(
                    ports@,
                )[j].container_port == container_port),
        decreases ports.len() - i,
    {
        if ports[i].host_port == host_port && ports[i].container_port == container_port {
            assert(views(ports@)[i as int].host_port == host_port);
            return true;
        }
        i += 1;
    }
    false
}

/// The mappings read from the ports column of `docker ps`. A mapping listed
/// once for each address family counts once.
pub fn parse_ports(ports_str: &str) -> (r: Vec<PortMapping>)
    ensures
        views(r@) == port_list(ports_str@),
{
    read_ports(&chars_of(ports_str))
}

fn read_ports(s: &Vec<char>) -> (r: Vec<PortMapping>)
    ensures
        views(r@) == port_list(s@),
{
    proof {
        reveal_strlit(", ");
    }
    let entries = split_str(s, ", ");
    let mut out: Vec<PortMapping> = Vec::new();
    let mut i: usize = 0;
    assert(views(out@) == ports_in(views(entries@), 0));
    while i < entries.len()
        invariant
            i <= entries.len(),
            views(out@) == ports_in(views(entries@), i as int),
        decreases entries.len() - i,
    {
        let ghost before = views(out@);
        assert(views(entries@)[i as int] == entries@[i as int]@);
        match read_single_port(&entries[i]) {
            Some(m) => {
                if !holds_mapping(&out, m.host_port, m.container_port) {
                    out.push(m);
                    assert(views(out@) == before.push(m@));
                }
            },
            None => {},
        }
        i += 1;
    }
    assert(views(entries@).len() == entries.len());
    out
}

/// The container that a line of `docker ps` describes, given the state that
/// its status column stands for: `None` for a line of fewer than four
/// columns.
pub open spec fn container_with(line: Seq<char>, server_name: Seq<char>, status: StatusView)
    -> Option<ContainerView> {
    let parts = split(line, "|"@);
    if parts.len() < 4 {
        None
    } else {
        Some(
            ContainerView {
                id: parts[0],
                name: parts[1],
                image: parts[2],
                status,
                ports: if parts.len() > 4 {
                    port_list(parts[4])
                } else {
                    Seq::empty()
                },
                created: None,
                server_name,
                script_path: None,
                networks: Seq::empty(),
            },
        )
    }
}

/// The status column of a line of `docker ps`: empty where the line has fewer
/// than four columns.
pub open spec fn status_column(line: Seq<char>) -> Seq<char> {
    let parts = split(line, "|"@);
    if parts.len() < 4 {
        Seq::empty()
    } else {
        parts[3]
    }
}

/// The container that a line of `docker ps` describes.
pub open spec fn container_of(line: Seq<char>, server_name: Seq<char>) -> Option<ContainerView> {
    container_with(
        line,
        server_name,
        classify(status_column(line), lowercase(status_column(line))),
    )
}

/// The view of an optional container.
pub open spec fn container_view(c: Option<Container>) -> Option<ContainerView> {
    match c {
        Some(c) => Some(c@),
        None => None,
    }
}

/// The container that a line of `docker ps` describes: identifier, name,
/// image, status and, where there is a fifth column, ports.
pub fn parse_container_line(line: &str, server_name: &str) -> (r: Option<Container>)
    ensures
        container_view(r) == container_of(line@, server_name@),
{
    read_container_line(&chars_of(line), server_name)
}

fn read_container_line(line: &Vec<char>, server_name: &str) -> (r: Option<Container>)
    ensures
        container_view(r) == container_of(line@, server_name@),
{
    proof {
        reveal_strlit("|");
    }
    let parts = split_str(line, "|");
    assert(views(parts@).len() == parts.len());
    if parts.len() < 4 {
        return None;
    }
    assert(views(parts@)[0] == parts@[0]@);
    assert(views(parts@)[1] == parts@[1]@);
    assert(views(parts@)[2] == parts@[2]@);
    assert(views(parts@)[3] == parts@[3]@);
    let status_text = string_of(&parts[3]);
    let status = ContainerStatus::from_docker_status(status_text.as_str());
    let ports = if parts.len() > 4 {
        assert(views(parts@)[4] == parts@[4]@);
        read_ports(&parts[4])
    } else {
        Vec::new()
    };
    let c = Container {
        id: string_of(&parts[0]),
        name: string_of(&parts[1]),
        image: string_of(&parts[2]),
        status,
        ports,
        created: None,
        server_name: copy_str(server_name),
        script_path: None,
        networks: Vec::new(),
    };
    assert(c@.networks == Seq::<Seq<char>>::empty());
    if parts.len() <= 4 {
        assert(c@.ports == Seq::<PortView>::empty());
    }
    Some(c)
}

/// A line made of the columns of a container, read back, gives a container
/// with the identifier, the name and the image of the columns, in the state
/// that the status column stands for, and with the ports that the ports
/// column lists; this holds of all columns without `|`.
pub proof fn lemma_line_round_trip(
    id: Seq<char>,
    name: Seq<char>,
    image: Seq<char>,
    status: Seq<char>,
    ports: Seq<char>,
    server_name: Seq<char>,
)
    requires
        !id.contains('|'),
        !name.contains('|'),
        !image.contains('|'),
        !status.contains('|'),
        !ports.contains('|'),
    ensures
        container_of(join(seq![id, name, image, status], "|"@), server_name) == Some(
            ContainerView {
                id,
                name,
                image,
                status: classify(status, lowercase(status)),
                ports: Seq::empty(),
                created: None,
                server_name,
                script_path: None,
                networks: Seq::empty(),
            },
        ),
        container_of(join(seq![id, name, image, status, ports], "|"@), server_name) == Some(
            ContainerView {
                id,
                name,
                image,
                status: classify(status, lowercase(status)),
                ports: port_list(ports),
                created: None,
                server_name,
                script_path: None,
                networks: Seq::empty(),
            },
        ),
{
    reveal_strlit("|");
    assert("|"@ =~= seq!['|']);
    lemma_split_join(seq![id, name, image, status], '|');
    lemma_split_join(seq![id, name, image, status, ports], '|');
}

/// The containers that the first `n` lines describe, in order.
pub open spec fn containers_in(ls: Seq<Seq<char>>, server_name: Seq<char>, n: int) -> Seq<
    ContainerView,
>
    decreases n,
{
    if n <= 0 {
        Seq::empty()
    } else {
        let prev = containers_in(ls, server_name, n - 1);
        match container_of(ls[n - 1], server_name) {
            Some(c) => if ls[n - 1].len() > 0 {
                prev.push(c)
            } else {
                prev
            },
            None => prev,
        }
    }
}

/// The containers that the output of `docker ps` lists.
pub open spec fn container_list(output: Seq<char>, server_name: Seq<char>) -> Seq<ContainerView> {
    containers_in(lines(output), server_name, lines(output).len() as int)
}

/// The containers that the output of `docker ps` lists on the host
/// `server_name`, one for each line of four columns or more.
pub fn parse_docker_ps(output: &str, server_name: &str) -> (r: Vec<Container>)
    ensures
        views(r@) == container_list(output@, server_name@),
{
    let ls = lines_of(&chars_of(output));
    let mut out: Vec<Container> = Vec::new();
    let mut i: usize = 0;
    assert(views(out@) == containers_in(views(ls@), server_name@, 0));
    while i < ls.len()
        invariant
            i <= ls.len(),
            views(out@) == containers_in(views(ls@), server_name@, i as int),
        decreases ls.len() - i,
    {
        let ghost before = views(out@);
        assert(views(ls@)[i as int] == ls@[i as int]@);
        if ls[i].len() > 0 {
            match read_container_line(&ls[i], server_name) {
                Some(c) => {
                    out.push(c);
                    assert(views(out@) == before.push(c@));
                },
                None => {},
            }
        }
        i += 1;
    }
    assert(views(ls@).len() == ls.len());
    out
}

/// Column `i` of the statistics line, two dashes where the line has no such
/// column.
pub open spec fn column_or_dashes(parts: Seq<Seq<char>>, i: int) -> Seq<char> {
    if 0 <= i < parts.len() {
        parts[i]
    } else {
        "--"@
    }
}

/// The statistics that the output of `docker stats` gives: the columns of its
/// first line, the second parted at `/` into use and limit.
pub open spec fn stats_of(output: Seq<char>) -> StatsView {
    let line = if lines(output).len() > 0 {
        lines(output)[0]
    } else {
        Seq::empty()
    };
    let parts = split(line, "|"@);
    let memory = split(column_or_dashes(parts, 1), "/"@);
    StatsView {
        cpu_percent: column_or_dashes(parts, 0),
        memory_usage: if parts.len() > 1 {
            trim(memory[0], Class::Space)
        } else {
            "--"@
        },
        memory_limit: if parts.len() > 1 {
            trim(column_or_dashes(memory, 1), Class::Space)
        } else {
            "--"@
        },
        memory_percent: column_or_dashes(parts, 2),
        net_io: column_or_dashes(parts, 3),
        block_io: column_or_dashes(parts, 4),
        pids: column_or_dashes(parts, 5),
    }
}

/// Column `i`, two dashes where there is no such column.
fn column(parts: &Vec<Vec<char>>, i: usize) -> (r: Vec<char>)
    ensures
        r@ == column_or_dashes(views(parts@), i as int),
{
    if i < parts.len() {
        assert(views(parts@)[i as int] == parts@[i as int]@);
        copy_chars(&parts[i])
    } else {
        chars_of("--")
    }
}

/// The statistics that the output of `docker stats` gives. A column that is
/// missing reads as two dashes.
pub fn parse_docker_stats(output: &str) -> (r: ContainerStats)
    ensures
        r@ == stats_of(output@),
{
    proof {
        reveal_strlit("|");
        reveal_strlit("/");
    }
    let ls = lines_of(&chars_of(output));
    assert(views(ls@).len() == ls.len());
    let line = if ls.len() > 0 {
        assert(views(ls@)[0] == ls@[0]@);
        copy_chars(&ls[0])
    } else {
        Vec::new()
    };
    let parts = split_str(&line, "|");
    assert(views(parts@).len() == parts.len());
    let memory = split_str(&column(&parts, 1), "/");
    assert(views(memory@)[0] == memory@[0]@);
    let usage = if parts.len() > 1 {
        trim_ws(&memory[0])
    } else {
        chars_of("--")
    };
    let limit = if parts.len() > 1 {
        trim_ws(&column(&memory, 1))
    } else {
        chars_of("--")
    };
    ContainerStats {
        cpu_percent: string_of(&column(&parts, 0)),
        memory_usage: string_of(&usage),
        memory_limit: string_of(&limit),
        memory_percent: string_of(&column(&parts, 2)),
        net_io: string_of(&column(&parts, 3)),
        block_io: string_of(&column(&parts, 4)),
        pids: string_of(&column(&parts, 5)),
    }
}

/// The process that a line of `docker top` describes: its first four words,
/// and the rest as the command. `None` for a line of fewer than five words.
pub open spec fn process_of(line: Seq<char>) -> Option<ProcessView> {
    let w = words(line);
    if w.len() >= 5 {
        Some(
            ProcessView {
                pid: w[0],
                user: w[1],
                cpu: w[2],
                mem: w[3],
                command: join(w.skip(4), " "@),
            },
        )
    } else {
        None
    }
}

/// The processes that the lines from the second up to the `n`th describe.
pub open spec fn processes_in(ls: Seq<Seq<char>>, n: int) -> Seq<ProcessView>
    decreases n,
{
    if n <= 1 {
        Seq::empty()
    } else {
        let prev = processes_in(ls, n - 1);
        match process_of(ls[n - 1]) {
            Some(p) => prev.push(p),
            None => prev,
        }
    }
}

/// The processes that the output of `docker top` lists under its heading.
pub open spec fn process_list(output: Seq<char>) -> Seq<ProcessView> {
    processes_in(lines(output), lines(output).len() as int)
}

/// The processes that the output of `docker top` lists. The first line is the
/// heading; a command may hold spaces.
pub fn parse_docker_top(output: &str) -> (r: Vec<ProcessInfo>)
    ensures
        views(r@) == process_list(output@),
{
    let ls = lines_of(&chars_of(output));
    assert(views(ls@).len() == ls.len());
    let mut out: Vec<ProcessInfo> = Vec::new();
    if ls.len() <= 1 {
        assert(views(out@) == processes_in(views(ls@), ls.len() as int));
        return out;
    }
    let mut i: usize = 1;
    assert(views(out@) == processes_in(views(ls@), 1));
    while i < ls.len()
        invariant
            1 <= i <= ls.len(),
            views(out@) == processes_in(views(ls@), i as int),
        decreases ls.len() - i,
    {
        let ghost before = views(out@);
        assert(views(ls@)[i as int] == ls@[i as int]@);
        let w = words_of(&ls[i]);
        assert(views(w@).len() == w.len());
        if w.len() >= 5 {
            assert(views(w@)[0] == w@[0]@);
            assert(views(w@)[1] == w@[1]@);
            assert(views(w@)[2] == w@[2]@);
            assert(views(w@)[3] == w@[3]@);
            let mut rest: Vec<Vec<char>> = Vec::new();
            append_texts(&mut rest, &w, 4, w.len());
            assert(views(rest@) == views(w@).skip(4));
            let p = ProcessInfo {
                pid: string_of(&w[0]),
                user: string_of(&w[1]),
                cpu: string_of(&w[2]),
                mem: string_of(&w[3]),
                command: string_of(&join_with(&rest, " ")),
            };
            out.push(p);
            assert(views(out@) == before.push(p@));
        }
        i += 1;
    }
    out
}

/// The value on a line of the form `"label": "value",`: what follows the
/// first colon up to the end of the line, without the white space, quotes and
/// commas around it. A line without colon has no value.
pub open spec fn json_value(line: Seq<char>) -> Seq<char> {
    match find(line, ":"@) {
        Some(i) => trim(trim(line.skip(i + ":"@.len()), Class::Space), Class::AnyOf("\", "@)),
        None => Seq::empty(),
    }
}

/// The value on a line of the form `"label": "value",`.
pub fn extract_json_value(line: &str) -> (r: String)
    ensures
        r@ == json_value(line@),
{
    string_of(&read_json_value(&chars_of(line)))
}

fn read_json_value(line: &Vec<char>) -> (r: Vec<char>)
    ensures
        r@ == json_value(line@),
{
    proof {
        reveal_strlit(":");
    }
    match find_in(line, &chars_of(":")) {
        Some(i) => {
            let rest = slice_of(line, i + 1, line.len());
            assert(rest@ == line@.skip(i + ":"@.len()));
            trim_in(&trim_ws(&rest), &CharSet::any_of("\", "))
        },
        None => Vec::new(),
    }
}

/// What a line of the output of `docker inspect` adds to what was read before
/// it. The identifier, the name and the start time are taken from every line
/// that holds them; the image, the status, the creation time and the address
/// only while they are empty.
pub open spec fn inspect_step(info: InfoView, raw: Seq<char>) -> InfoView {
    let line = trim(raw, Class::Space);
    let value = json_value(line);
    if contains(line, "\"Id\":"@) {
        InfoView { id: value, ..info }
    } else if contains(line, "\"Name\":"@) {
        InfoView { name: trim_start(value, Class::AnyOf("/"@)), ..info }
    } else if contains(line, "\"Image\":"@) && info.image.len() == 0 {
        InfoView { image: value, ..info }
    } else if contains(line, "\"Status\":"@) && info.status.len() == 0 {
        InfoView { status: value, ..info }
    } else if contains(line, "\"Created\":"@) && info.created.len() == 0 {
        InfoView { created: value, ..info }
    } else if contains(line, "\"StartedAt\":"@) {
        InfoView { started: value, ..info }
    } else if contains(line, "\"IPAddress\":"@) && info.ip_address.len() == 0 {
        InfoView { ip_address: value, ..info }
    } else {
        info
    }
}

/// What the first `n` lines of the output of `docker inspect` tell.
pub open spec fn inspect_lines(ls: Seq<Seq<char>>, n: int) -> InfoView
    decreases n,
{
    if n <= 0 {
        blank_info()
    } else {
        inspect_step(inspect_lines(ls, n - 1), ls[n - 1])
    }
}

/// What the output of `docker inspect` tells of a container.
pub open spec fn inspect_of(output: Seq<char>) -> InfoView {
    inspect_lines(lines(output), lines(output).len() as int)
}

/// The summary of the output of `docker inspect`: identifier, name, image,
/// status, creation and start time and address, each from the line that
/// holds its label.
pub fn parse_docker_inspect(output: &str) -> (r: ContainerInfo)
    ensures
        r@ == inspect_of(output@),
        r.rest_is_blank(),
{
    let ls = lines_of(&chars_of(output));
    assert(views(ls@).len() == ls.len());
    let mut info = ContainerInfo::default();
    let mut i: usize = 0;
    while i < ls.len()
        invariant
            i <= ls.len(),
            info@ == inspect_lines(views(ls@), i as int),
            info.rest_is_blank(),
        decreases ls.len() - i,
    {
        assert(views(ls@)[i as int] == ls@[i as int]@);
        let line = trim_ws(&ls[i]);
        if has_str(&line, "\"Id\":") {
            info.id = string_of(&read_json_value(&line));
        } else if has_str(&line, "\"Name\":") {
            info.name = string_of(
                &trim_start_in(&read_json_value(&line), &CharSet::any_of("/")),
            );
        } else if has_str(&line, "\"Image\":") && info.image.as_str().is_empty() {
            info.image = string_of(&read_json_value(&line));
        } else if has_str(&line, "\"Status\":") && info.status.as_str().is_empty() {
            info.status = string_of(&read_json_value(&line));
        } else if has_str(&line, "\"Created\":") && info.created.as_str().is_empty() {
            info.created = string_of(&read_json_value(&line));
        } else if has_str(&line, "\"StartedAt\":") {
            info.started = string_of(&read_json_value(&line));
        } else if has_str(&line, "\"IPAddress\":") && info.ip_address.as_str().is_empty() {
            info.ip_address = string_of(&read_json_value(&line));
        }
        i += 1;
    }
    info
}

/// What a line of a long directory listing describes, with white space around
/// the line dropped: a directory where the line begins with `d`, under the
/// name that the words from the ninth on make. `None` for a line of fewer than
/// nine words and for the entries `.` and `..`.
pub open spec fn listed_entry(line: Seq<char>) -> Option<EntryView> {
    let w = words(trim(line, Class::Space));
    if w.len() < 9 {
        None
    } else {
        let name = join(w.skip(8), " "@);
        if name == "."@ || name == ".."@ {
            None
        } else {
            Some(entry_of(name, starts_with(w[0], "d"@)))
        }
    }
}

/// The entries that the first `n` lines describe, in the order of the lines.
pub open spec fn listed_in(ls: Seq<Seq<char>>, n: int) -> Seq<EntryView>
    decreases n,
{
    if n <= 0 {
        Seq::empty()
    } else {
        let prev = listed_in(ls, n - 1);
        match listed_entry(ls[n - 1]) {
            Some(e) => prev.push(e),
            None => prev,
        }
    }
}

/// The keys that order the entries: directories before files, and each kind
/// by name in lower case.
pub open spec fn entry_keys(entries: Seq<EntryView>) -> Seq<KeyView> {
    Seq::new(
        entries.len(),
        |i: int|
            KeyView {
                rank: if entries[i].is_dir {
                    0
                } else {
                    1
                },
                text: lowercase(entries[i].name),
            },
    )
}

/// The entries in the order of their keys; entries that the keys do not tell
/// apart keep the order in which they came.
pub open spec fn in_order(entries: Seq<EntryView>) -> Seq<EntryView> {
    Seq::new(entries.len(), |i: int| entries[sorted_order(entry_keys(entries))[i]])
}

/// The directory that a long listing shows: the way up first, then the
/// directories, then the files, each kind by name with letter case aside.
pub open spec fn listing_of(output: Seq<char>) -> Seq<EntryView> {
    seq![parent_entry()] + in_order(listed_in(lines(output), lines(output).len() as int))
}

/// What a line of a long directory listing describes.
pub fn parse_listing_line(line: &Vec<char>) -> (r: Option<FileEntry>)
    ensures
        match r {
            Some(e) => listed_entry(line@) == Some(e@),
            None => listed_entry(line@) is None,
        },
{
    let w = words_of(&trim_ws(line));
    assert(views(w@).len() == w.len());
    if w.len() < 9 {
        return None;
    }
    let mut rest: Vec<Vec<char>> = Vec::new();
    append_texts(&mut rest, &w, 8, w.len());
    assert(views(rest@) == views(w@).skip(8));
    let name = join_with(&rest, " ");
    if same(&name, &chars_of(".")) || same(&name, &chars_of("..")) {
        return None;
    }
    assert(views(w@)[0] == w@[0]@);
    let is_dir = crate::search::begins_with(&w[0], "d");
    Some(FileEntry::new(string_of(&name), is_dir))
}

/// The directory that the output of `ls -la` shows, for the file browser. The
/// heading line is expected to be gone; names may hold spaces.
pub fn parse_directory_listing(output: &str, _path: &str) -> (r: Vec<FileEntry>)
    ensures
        views(r@) == listing_of(output@),
{
    let ls = lines_of(&chars_of(output));
    assert(views(ls@).len() == ls.len());
    let mut found: Vec<FileEntry> = Vec::new();
    let mut keys: Vec<SortKey> = Vec::new();
    let mut i: usize = 0;
    assert(views(found@) == listed_in(views(ls@), 0));
    assert(views(keys@) == entry_keys(views(found@)));
    while i < ls.len()
        invariant
            i <= ls.len(),
            views(found@) == listed_in(views(ls@), i as int),
            views(keys@) == entry_keys(views(found@)),
        decreases ls.len() - i,
    {
        let ghost before = views(found@);
        let ghost keys_before = views(keys@);
        assert(views(ls@)[i as int] == ls@[i as int]@);
        match parse_listing_line(&ls[i]) {
            Some(entry) => {
                let key = SortKey {
                    rank: if entry.is_dir {
                        0
                    } else {
                        1
                    },
                    text: chars_of(to_lowercase(entry.name.as_str()).as_str()),
                };
                keys.push(key);
                found.push(entry);
                assert(views(found@) == before.push(entry@));
                assert(views(keys@) == keys_before.push(key@));
                assert(views(keys@) == entry_keys(views(found@)));
            },
            None => {},
        }
        i += 1;
    }
    let order = sort_order(&keys);
    let ghost target = in_order(views(found@));
    let mut out: Vec<FileEntry> = Vec::new();
    out.push(FileEntry::parent());
    let mut j: usize = 0;
    assert(views(out@) == seq![parent_entry()] + target.take(0));
    while j < order.len()
        invariant
            j <= order.len(),
            order.len() == keys.len(),
            keys.len() == found.len(),
            views(keys@) == entry_keys(views(found@)),
            indices(order@) == sorted_order(views(keys@)),
            forall|k: int| 0 <= k < order.len() ==> (#[trigger] order@[k]) < keys.len(),
            target == in_order(views(found@)),
            views(out@) == seq![parent_entry()] + target.take(j as int),
        decreases order.len() - j,
    {
        let ghost before = views(out@);
        assert(indices(order@)[j as int] == order@[j as int]);
        let e = found[order[j]].duplicate();
        out.push(e);
        j += 1;
        assert(views(out@) == before.push(target[j - 1]));
        assert(views(out@) == seq![parent_entry()] + target.take(j as int));
    }
    assert(target.take(order.len() as int) == target);
    out
}

} // verus!
