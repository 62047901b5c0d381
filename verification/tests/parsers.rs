use sshing::sorting::{sort_order, text_before_or_same, SortKey};
use sshing::docker::parser::{
    extract_json_value, parse_container_line, parse_directory_listing, parse_docker_inspect,
    parse_docker_ps, parse_docker_stats, parse_docker_top, parse_port_protocol, parse_ports,
    parse_single_port,
};
use sshing::models::{ContainerStatus, FileEntry, PortMapping};

fn port(host_port: u16, container_port: u16, protocol: &str) -> PortMapping {
    PortMapping { host_port, container_port, protocol: protocol.to_string() }
}

#[test]
fn ps_line_of_a_running_container() {
    let containers =
        parse_docker_ps("a1b2|web|nginx:latest|Up 3 hours|0.0.0.0:8080->80/tcp", "prod");
    assert_eq!(containers.len(), 1);
    let c = &containers[0];
    assert_eq!(c.id, "a1b2");
    assert_eq!(c.name, "web");
    assert_eq!(c.image, "nginx:latest");
    assert_eq!(c.status, ContainerStatus::Running);
    assert_eq!(c.ports, vec![port(8080, 80, "tcp")]);
    assert_eq!(c.server_name, "prod");
    assert_eq!(c.script_path, None);
    assert_eq!(c.created, None);
    assert!(c.networks.is_empty());
}

#[test]
fn ps_skips_short_and_empty_lines() {
    let out = "a|b|c\n\nid1|n1|img|Exited (137) 2 days ago\nid2|n2|img2|Paused|\n";
    let containers = parse_docker_ps(out, "h");
    assert_eq!(containers.len(), 2);
    assert_eq!(containers[0].status, ContainerStatus::Exited(137));
    assert!(containers[0].ports.is_empty());
    assert_eq!(containers[1].status, ContainerStatus::Paused);
    assert!(containers[1].ports.is_empty());
}

#[test]
fn ps_of_nothing_is_empty() {
    assert!(parse_docker_ps("", "h").is_empty());
    assert!(parse_docker_ps("\n\n", "h").is_empty());
    assert!(parse_docker_ps("no columns here", "h").is_empty());
}

#[test]
fn ps_twice_gives_the_same_containers() {
    let out = "a|web|nginx|Up 1 hour|80/tcp\nb|db|postgres|Exited (0) 1 hour ago|\r\n";
    assert_eq!(parse_docker_ps(out, "h"), parse_docker_ps(out, "h"));
}

#[test]
fn ps_line_keeps_carriage_return_out() {
    let containers = parse_docker_ps("a|b|c|Up\r\nd|e|f|Dead\r\n", "h");
    assert_eq!(containers.len(), 2);
    assert_eq!(containers[0].status, ContainerStatus::Running);
    assert_eq!(containers[1].status, ContainerStatus::Dead);
}

#[test]
fn container_line_needs_four_columns() {
    assert_eq!(parse_container_line("a|b|c", "h"), None);
    let c = parse_container_line("a|b|c|weird state", "h").unwrap();
    assert_eq!(c.status, ContainerStatus::Unknown("weird state".to_string()));
    let c = parse_container_line("|||", "h").unwrap();
    assert_eq!(c.id, "");
    assert_eq!(c.status, ContainerStatus::Unknown(String::new()));
}

#[test]
fn container_line_reads_back_its_columns() {
    let line = ["id9", "api", "repo/img:1", "Restarting (1) 5 seconds ago"].join("|");
    let c = parse_container_line(&line, "h").unwrap();
    assert_eq!(c.id, "id9");
    assert_eq!(c.name, "api");
    assert_eq!(c.image, "repo/img:1");
    assert_eq!(c.status, ContainerStatus::from_docker_status("Restarting (1) 5 seconds ago"));
    assert_eq!(c.status, ContainerStatus::Restarting);
}

#[test]
fn ports_are_merged_across_address_families() {
    let ports = parse_ports("0.0.0.0:8096->8080/tcp, :::8096->8080/tcp");
    assert_eq!(ports, vec![port(8096, 8080, "tcp")]);
}

#[test]
fn ports_keep_their_order_and_skip_what_cannot_be_read() {
    let ports = parse_ports("0.0.0.0:443->8443/tcp, junk, 53/udp, 0.0.0.0:x->1/tcp, 9000");
    assert_eq!(ports, vec![port(443, 8443, "tcp"), port(53, 53, "udp"), port(9000, 9000, "tcp")]);
    assert!(parse_ports("").is_empty());
}

#[test]
fn single_port_forms() {
    assert_eq!(parse_single_port("0.0.0.0:8096->8080/tcp"), Some(port(8096, 8080, "tcp")));
    assert_eq!(parse_single_port(":::8096->8080/udp"), Some(port(8096, 8080, "udp")));
    assert_eq!(parse_single_port("8080/tcp"), Some(port(8080, 8080, "tcp")));
    assert_eq!(parse_single_port("80->81"), Some(port(80, 81, "tcp")));
    assert_eq!(parse_single_port("+80->+81"), Some(port(80, 81, "tcp")));
    assert_eq!(parse_single_port("0.0.0.0:->80/tcp"), None);
    assert_eq!(parse_single_port("0.0.0.0:70000->80/tcp"), None);
    assert_eq!(parse_single_port("0.0.0.0:80->/tcp"), None);
    assert_eq!(parse_single_port(""), None);
}

#[test]
fn port_and_protocol() {
    assert_eq!(parse_port_protocol("80/tcp"), Some((80, "tcp".to_string())));
    assert_eq!(parse_port_protocol("80"), Some((80, "tcp".to_string())));
    assert_eq!(parse_port_protocol("80/udp/x"), Some((80, "udp".to_string())));
    assert_eq!(parse_port_protocol("65535/"), Some((65535, String::new())));
    assert_eq!(parse_port_protocol("65536/tcp"), None);
    assert_eq!(parse_port_protocol("-1/tcp"), None);
    assert_eq!(parse_port_protocol("8o/tcp"), None);
    assert_eq!(parse_port_protocol("/tcp"), None);
}

#[test]
fn stats_of_a_full_line() {
    let s = parse_docker_stats("0.15%|12.5MiB / 1.944GiB|0.63%|1.2kB / 0B|0B / 4.1kB|7\nmore");
    assert_eq!(s.cpu_percent, "0.15%");
    assert_eq!(s.memory_usage, "12.5MiB");
    assert_eq!(s.memory_limit, "1.944GiB");
    assert_eq!(s.memory_percent, "0.63%");
    assert_eq!(s.net_io, "1.2kB / 0B");
    assert_eq!(s.block_io, "0B / 4.1kB");
    assert_eq!(s.pids, "7");
}

#[test]
fn stats_fill_missing_columns_with_dashes() {
    let s = parse_docker_stats("1%|5MiB");
    assert_eq!(s.cpu_percent, "1%");
    assert_eq!(s.memory_usage, "5MiB");
    assert_eq!(s.memory_limit, "--");
    assert_eq!(s.memory_percent, "--");
    assert_eq!(s.net_io, "--");
    assert_eq!(s.block_io, "--");
    assert_eq!(s.pids, "--");
    let s = parse_docker_stats("");
    assert_eq!(s.cpu_percent, "");
    assert_eq!(s.memory_usage, "--");
    assert_eq!(s.memory_limit, "--");
    assert_eq!(s.pids, "--");
}

#[test]
fn top_skips_the_heading_and_joins_the_command() {
    let out = "PID USER %CPU %MEM COMMAND\n1 root 0.0 0.1 nginx: master process\n 22  www  1.5  2.0  worker\nshort line\n";
    let ps = parse_docker_top(out);
    assert_eq!(ps.len(), 2);
    assert_eq!(ps[0].pid, "1");
    assert_eq!(ps[0].user, "root");
    assert_eq!(ps[0].cpu, "0.0");
    assert_eq!(ps[0].mem, "0.1");
    assert_eq!(ps[0].command, "nginx: master process");
    assert_eq!(ps[1].pid, "22");
    assert_eq!(ps[1].command, "worker");
    assert!(parse_docker_top("").is_empty());
    assert!(parse_docker_top("1 root 0.0 0.1 only-heading").is_empty());
}

#[test]
fn inspect_reads_the_labelled_lines() {
    let out = r#"[
    {
        "Id": "abc123",
        "Created": "2024-01-01T00:00:00Z",
        "State": {
            "Status": "running",
            "StartedAt": "2024-01-02T00:00:00Z"
        },
        "Image": "sha256:111",
        "Name": "/web",
        "Config": {
            "Image": "nginx:latest"
        },
        "NetworkSettings": {
            "IPAddress": "",
            "Networks": { "bridge": { "Gateway": "172.17.0.1" } }
        }
    }
]"#;
    let info = parse_docker_inspect(out);
    assert_eq!(info.id, "abc123");
    assert_eq!(info.name, "web");
    assert_eq!(info.image, "sha256:111");
    assert_eq!(info.status, "running");
    assert_eq!(info.created, "2024-01-01T00:00:00Z");
    assert_eq!(info.started, "2024-01-02T00:00:00Z");
    assert_eq!(info.ip_address, "");
    assert!(info.networks.is_empty());
    assert!(info.labels.is_empty());
    assert_eq!(info.health_status, None);
}

#[test]
fn inspect_takes_the_first_address_that_is_not_empty() {
    let out = "\"IPAddress\": \"\",\n\"IPAddress\": \"10.0.0.2\",\n\"IPAddress\": \"10.0.0.3\",\n\"Image\": \"one\",\n\"Image\": \"two\",\n\"Id\": \"first\",\n\"Id\": \"second\"";
    let info = parse_docker_inspect(out);
    assert_eq!(info.ip_address, "10.0.0.2");
    assert_eq!(info.image, "one");
    assert_eq!(info.id, "second");
    assert_eq!(parse_docker_inspect("").id, "");
}

#[test]
fn inspect_keeps_the_time_of_day() {
    let info = parse_docker_inspect("\"Created\": \"2024-01-15T10:30:00Z\",");
    assert_eq!(info.created, "2024-01-15T10:30:00Z");
    let info = parse_docker_inspect("  \"Image\": \"nginx:latest\",\r\n  \"StartedAt\": \"2024-01-15T10:30:00.5Z\"\r\n");
    assert_eq!(info.image, "nginx:latest");
    assert_eq!(info.started, "2024-01-15T10:30:00.5Z");
}

#[test]
fn json_value_between_colons() {
    assert_eq!(extract_json_value("\"Name\": \"/web\","), "/web");
    assert_eq!(extract_json_value("no colon"), "");
    assert_eq!(extract_json_value("\"A\":  \" x y \" , "), "x y");
    assert_eq!(extract_json_value("\"T\": \"12:30\""), "12:30");
    assert_eq!(extract_json_value("\"Image\": \"nginx:latest\","), "nginx:latest");
    assert_eq!(extract_json_value("\"Image\": \"host:5000/a/b:1.2\","), "host:5000/a/b:1.2");
    assert_eq!(extract_json_value("\"Cmd\": ["), "[");
    assert_eq!(extract_json_value(":"), "");
    assert_eq!(extract_json_value(": , \" x"), "x");
}

#[test]
fn directory_listing_sorts_directories_first() {
    let out = "\
drwxr-xr-x  2 user group  4096 Jan  1 12:00 .\n\
drwxr-xr-x  2 user group  4096 Jan  1 12:00 ..\n\
-rw-r--r--  1 user group   120 Jan  1 12:00 zeta.txt\n\
-rwxr-xr-x  1 user group   120 Jan  1 12:00 start.sh\n\
drwxr-xr-x  2 user group  4096 Jan  1 12:00 beta\n\
-rw-r--r--  1 user group   120 Jan  1 12:00 Alpha notes.md\n\
drwxr-xr-x  2 user group  4096 Jan  1 12:00 Apps\n\
lrwxrwxrwx  1 user group     4 Jan  1 12:00 link -> beta\n\
total 12\n\
\n";
    let entries = parse_directory_listing(out, "/srv");
    let names: Vec<&str> = entries.iter().map(|e| e.name.as_str()).collect();
    assert_eq!(
        names,
        vec!["..", "Apps", "beta", "Alpha notes.md", "link -> beta", "start.sh", "zeta.txt"]
    );
    assert_eq!(entries[0], FileEntry::parent());
    assert!(entries[1].is_dir && entries[2].is_dir);
    assert!(!entries[3].is_dir);
    assert!(entries[5].is_script);
    assert!(!entries[6].is_script);
}

#[test]
fn directory_listing_of_nothing_has_the_way_up() {
    let entries = parse_directory_listing("", "/");
    assert_eq!(entries, vec![FileEntry::parent()]);
}

#[test]
fn directory_listing_keeps_the_order_of_equal_names() {
    let out = "\
-rw-r--r--  1 u g 1 Jan  1 12:00 readme\n\
-rw-r--r--  1 u g 1 Jan  1 12:00 README\n\
-rw-r--r--  1 u g 1 Jan  1 12:00 ReadMe\n";
    let entries = parse_directory_listing(out, "/");
    let names: Vec<&str> = entries.iter().map(|e| e.name.as_str()).collect();
    assert_eq!(names, vec!["..", "readme", "README", "ReadMe"]);
}

#[test]
fn sort_is_stable_and_by_key() {
    let key = |rank: i128, text: &str| SortKey { rank, text: text.chars().collect() };
    let order = sort_order(&vec![
        key(1, "b"),
        key(0, "z"),
        key(1, "a"),
        key(1, "b"),
        key(0, "y"),
        key(-5, ""),
        key(i128::MAX, ""),
        key(1, "B"),
    ]);
    assert_eq!(order, vec![5, 4, 1, 7, 2, 0, 3, 6]);
    assert!(sort_order(&vec![]).is_empty());
}

#[test]
fn text_order_is_that_of_strings() {
    let le = |a: &str, b: &str| {
        text_before_or_same(&a.chars().collect(), &b.chars().collect())
    };
    for (a, b) in [("", ""), ("", "a"), ("a", ""), ("abc", "abd"), ("abd", "abc"), ("ab", "abc"),
        ("abc", "ab"), ("Z", "a"), ("é", "z"), ("same", "same")]
    {
        assert_eq!(le(a, b), a <= b, "{:?} {:?}", a, b);
    }
}
