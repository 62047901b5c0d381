use sshing::completion::{
    autocomplete_path_among, complete_local_from, complete_name, complete_remote_path,
    directory_to_list, local_completion_target, local_target_from, remote_list_arguments,
};
use sshing::models::{
    Container, ContainerStatus, DeploymentScript, EnvVar, FileEntry, Host, PortMapping, Project,
    VolumeMount,
};
use sshing::number::{read_i32, read_u16};
use sshing::search::{find_in, join_with, lines_of, split_on, words_of};
use sshing::sorting::sort_strings;
use sshing::text::{chars_of, is_whitespace, replace_each, string_of, trim_in, trim_ws, CharSet};

fn chars(s: &str) -> Vec<char> {
    s.chars().collect()
}

fn texts(v: &[Vec<char>]) -> Vec<String> {
    v.iter().map(|c| c.iter().collect()).collect()
}

#[test]
fn status_from_text() {
    let cases = [
        ("Up 3 hours", ContainerStatus::Running),
        ("UP", ContainerStatus::Running),
        ("up (paused)", ContainerStatus::Running),
        ("Exited (0) 2 days ago", ContainerStatus::Exited(0)),
        ("Exited (137) 1 hour ago", ContainerStatus::Exited(137)),
        ("exited (-1)", ContainerStatus::Exited(-1)),
        ("Exited (+7) x", ContainerStatus::Exited(7)),
        ("Exited", ContainerStatus::Stopped),
        ("Exited (x)", ContainerStatus::Stopped),
        ("Exited ()", ContainerStatus::Stopped),
        ("Exited (99999999999)", ContainerStatus::Stopped),
        ("Exited (2147483647)", ContainerStatus::Exited(i32::MAX)),
        ("Exited (-2147483648)", ContainerStatus::Exited(i32::MIN)),
        ("Exited (-2147483649)", ContainerStatus::Stopped),
        ("Exited (1", ContainerStatus::Exited(1)),
        ("Paused", ContainerStatus::Paused),
        ("Created (paused)", ContainerStatus::Paused),
        ("Restarting (1) 5 seconds ago", ContainerStatus::Restarting),
        ("Dead", ContainerStatus::Dead),
        ("Removal In Progress", ContainerStatus::Unknown("Removal In Progress".to_string())),
        ("Created", ContainerStatus::Unknown("Created".to_string())),
        ("", ContainerStatus::Unknown(String::new())),
    ];
    for (text, status) in cases {
        assert_eq!(ContainerStatus::from_docker_status(text), status, "{}", text);
    }
    assert_eq!(ContainerStatus::from_lowercase("X", "up"), ContainerStatus::Running);
    assert_eq!(ContainerStatus::from_lowercase("Up", "Up"), ContainerStatus::Unknown("Up".to_string()));
}

#[test]
fn status_labels() {
    assert_eq!(ContainerStatus::Running.display(), "Up");
    assert_eq!(ContainerStatus::Stopped.display(), "Stopped");
    assert_eq!(ContainerStatus::Paused.display(), "Paused");
    assert_eq!(ContainerStatus::Restarting.display(), "Restarting");
    assert_eq!(ContainerStatus::Exited(3).display(), "Exited");
    assert_eq!(ContainerStatus::Dead.display(), "Dead");
    assert_eq!(ContainerStatus::Unknown("x".to_string()).display(), "Unknown");
    assert!(ContainerStatus::Running.is_running());
    assert!(!ContainerStatus::Exited(0).is_running());
    assert!(!ContainerStatus::Unknown("up".to_string()).is_running());
    assert_eq!(ContainerStatus::Unknown("x".to_string()).duplicate(), ContainerStatus::Unknown("x".to_string()));
}

fn container() -> Container {
    Container {
        id: "ABC123def".to_string(),
        name: "Web-Front".to_string(),
        image: "registry.example.com:5000/team/nginx:1.25".to_string(),
        status: ContainerStatus::Running,
        ports: vec![
            PortMapping { host_port: 8080, container_port: 80, protocol: "tcp".to_string() },
            PortMapping { host_port: 0, container_port: 65535, protocol: "udp".to_string() },
        ],
        created: None,
        server_name: "prod".to_string(),
        script_path: None,
        networks: vec!["bridge".to_string()],
    }
}

#[test]
fn container_display() {
    let mut c = container();
    assert_eq!(c.ports[0].display(), "8080:80");
    assert_eq!(c.ports_display(), "8080:80, 0:65535");
    assert_eq!(c.short_image(), "nginx");
    assert!(!c.has_script());
    let linked = c.with_script(Some("/s.sh".to_string()));
    assert!(linked.has_script());
    assert_eq!(linked.ports, c.ports);
    assert_eq!(linked.networks, c.networks);
    assert_eq!(linked.id, c.id);
    c.ports.clear();
    assert_eq!(c.ports_display(), "-");
    c.image = "redis".to_string();
    assert_eq!(c.short_image(), "redis");
    c.image = "a/b/c".to_string();
    assert_eq!(c.short_image(), "c");
    c.image = "".to_string();
    assert_eq!(c.short_image(), "");
    c.image = "repo/".to_string();
    assert_eq!(c.short_image(), "");
}

#[test]
fn container_search() {
    let c = container();
    assert!(c.matches_search("web"));
    assert!(c.matches_search("FRONT"));
    assert!(c.matches_search("NGINX"));
    assert!(c.matches_search("abc123"));
    assert!(c.matches_search(""));
    assert!(!c.matches_search("123def"));
    assert!(!c.matches_search("prod"));
}

#[test]
fn env_var_secrets_and_display() {
    for key in ["DB_PASSWORD", "secret", "Api_Token", "ssh_key", "credentials", "PRIVATE_X", "monkey"] {
        assert!(EnvVar::detect_secret(key), "{}", key);
        assert!(EnvVar::new(key.to_string(), "v".to_string()).is_secret);
    }
    for key in ["PORT", "USER", "PASSWOR", "TOKE", ""] {
        assert!(!EnvVar::detect_secret(key), "{}", key);
    }
    assert!(EnvVar::is_secret_upper("KEY"));
    assert!(!EnvVar::is_secret_upper("key"));
    let plain = EnvVar::new("PORT".to_string(), "8080".to_string());
    assert_eq!(plain.display_value(), "8080");
    assert_eq!(plain.duplicate(), plain);
    let secret = EnvVar::new("TOKEN".to_string(), "abc".to_string());
    assert_eq!(secret.display_value(), "••••••••••••");
    assert_eq!(secret.display_value().chars().count(), 12);
}

#[test]
fn env_var_truncation() {
    let long = EnvVar::new("PATH".to_string(), "/usr/local/bin:/usr/bin".to_string());
    assert_eq!(long.display_value_truncated(10), "/usr/lo...");
    assert_eq!(long.display_value_truncated(23), "/usr/local/bin:/usr/bin");
    assert_eq!(long.display_value_truncated(100), "/usr/local/bin:/usr/bin");
    assert_eq!(long.display_value_truncated(3), "...");
    let secret = EnvVar::new("TOKEN".to_string(), "abc".to_string());
    assert_eq!(secret.display_value_truncated(36), "••••••••••••");
    assert_eq!(secret.display_value_truncated(12), "•••...");
    let empty = EnvVar::new("E".to_string(), String::new());
    assert_eq!(empty.display_value_truncated(0), "");
}

#[test]
fn volume_display() {
    let mut v = VolumeMount {
        host_path: "/srv".to_string(),
        container_path: "/data".to_string(),
        read_only: false,
    };
    assert_eq!(v.display(), "/srv -> /data");
    v.read_only = true;
    assert_eq!(v.display(), "/srv -> /data:ro");
    assert_eq!(v.duplicate(), v);
}

#[test]
fn script_variables() {
    let mut s = DeploymentScript::new("/p".to_string(), "acme".to_string());
    assert_eq!(s.path, "/p");
    assert_eq!(s.client_name, "acme");
    assert!(s.container_name.is_empty() && s.repo.is_empty() && s.raw_content.is_empty());
    assert!(s.env_vars.is_empty() && s.volumes.is_empty() && s.ports.is_empty());
    assert_eq!((s.network.clone(), s.restart_policy.clone(), s.last_modified), (None, None, None));
    s.add_env_var("A".to_string(), "1".to_string());
    s.add_env_var("SECRET".to_string(), "x".to_string());
    s.add_env_var("A".to_string(), "2".to_string());
    assert_eq!(s.env_vars.len(), 2);
    assert_eq!(s.get_env_var("A").unwrap().value, "2");
    assert!(s.get_env_var("SECRET").unwrap().is_secret);
    assert!(s.get_env_var("B").is_none());
    s.remove_env_var("A");
    s.remove_env_var("missing");
    assert_eq!(s.env_vars.len(), 1);
    assert_eq!(s.env_vars[0].key, "SECRET");
    assert_eq!(s.duplicate(), s);
}

#[test]
fn file_entries_and_projects() {
    assert!(FileEntry::new("run.sh".to_string(), false).is_script);
    assert!(FileEntry::new("start-all".to_string(), false).is_script);
    assert!(!FileEntry::new("start.sh".to_string(), true).is_script);
    assert!(!FileEntry::new("notes.txt".to_string(), false).is_script);
    let up = FileEntry::parent();
    assert_eq!((up.name.as_str(), up.is_dir, up.is_script), ("..", true, false));
    let mut p = Project::new("acme".to_string(), "/srv/acme".to_string());
    assert_eq!(p.script_count(), 0);
    assert!(p.find_script_for_container("web").is_none());
    for (path, name) in [("/1", "db"), ("/2", "web"), ("/3", "web")] {
        let mut s = DeploymentScript::new(path.to_string(), "acme".to_string());
        s.container_name = name.to_string();
        p.scripts.push(s);
    }
    assert_eq!(p.script_count(), 3);
    assert_eq!(p.find_script_for_container("web").unwrap().path, "/2");
}

#[test]
fn numbers() {
    for (text, value) in [("0", Some(0)), ("007", Some(7)), ("+80", Some(80)), ("65535", Some(65535)),
        ("65536", None), ("-1", None), ("", None), ("+", None), ("1 ", None), ("٣", None),
        ("99999999999999999999999999", None), ("0000000000000000000000065535", Some(65535)), ("++1", None)]
    {
        assert_eq!(read_u16(&chars(text)), value, "{:?}", text);
        assert_eq!(read_u16(&chars(text)), text.parse::<u16>().ok(), "{:?}", text);
    }
    for text in ["0", "-0", "+0", "-", "2147483647", "2147483648", "-2147483648", "-2147483649",
        "12a", "", " 1", "--1", "+-1", "00012", "-00012"]
    {
        assert_eq!(read_i32(&chars(text)), text.parse::<i32>().ok(), "{:?}", text);
    }
}

#[test]
fn white_space_and_trimming() {
    for c in ['\t', '\n', '\u{b}', '\u{c}', '\r', ' ', '\u{85}', '\u{a0}', '\u{1680}', '\u{2000}',
        '\u{200a}', '\u{2028}', '\u{2029}', '\u{202f}', '\u{205f}', '\u{3000}', 'a', '\0', '\u{200b}',
        '\u{feff}', '\u{1c}', '\u{180e}', '_']
    {
        assert_eq!(is_whitespace(c), c.is_whitespace(), "{:?}", c);
    }
    for code in 0..0x3100u32 {
        if let Some(c) = char::from_u32(code) {
            assert_eq!(is_whitespace(c), c.is_whitespace(), "{:x}", code);
        }
    }
    for text in ["", " ", "  a b \t\n", "a", "\u{a0}x\u{3000}", " \r\n"] {
        assert_eq!(string_of(&trim_ws(&chars_of(text))), text.trim(), "{:?}", text);
    }
    assert_eq!(string_of(&trim_in(&chars("\"'x'\""), &CharSet::any_of("\"'"))), "x");
    assert_eq!(string_of(&trim_in(&chars("xxaxx"), &CharSet::none_of("a"))), "a");
    assert_eq!(string_of(&replace_each(&chars("a'b''"), '\'', "'\\''")), "a'\\''b'\\'''\\''");
}

#[test]
fn splitting_like_the_standard_library() {
    for text in ["", "a", "a\n", "a\nb", "\n", "\n\n", "a\r\nb\r\n", "a\r", "a\r\r\n", "\r\n", "a\n\nb\n\n", "\ra\n"] {
        let expected: Vec<String> = text.lines().map(|l| l.to_string()).collect();
        assert_eq!(texts(&lines_of(&chars(text))), expected, "{:?}", text);
    }
    for (text, sep) in [("a, b, c", ", "), ("", ", "), (", ", ", "), ("a,, b", ", "), ("aaa", "aa"), ("a|b||c|", "|"), ("->x->", "->")] {
        let expected: Vec<String> = text.split(sep).map(|l| l.to_string()).collect();
        assert_eq!(texts(&split_on(&chars(text), &chars(sep))), expected, "{:?}", text);
    }
    for text in ["", "  ", "a", " a  b\tc\n", "\u{3000}x\u{a0}y"] {
        let expected: Vec<String> = text.split_whitespace().map(|l| l.to_string()).collect();
        assert_eq!(texts(&words_of(&chars(text))), expected, "{:?}", text);
    }
    assert_eq!(find_in(&chars("abcabc"), &chars("ca")), Some(2));
    assert_eq!(find_in(&chars("abc"), &chars("")), Some(0));
    assert_eq!(find_in(&chars(""), &chars("")), Some(0));
    assert_eq!(find_in(&chars("ab"), &chars("abc")), None);
    assert_eq!(string_of(&join_with(&vec![chars("a"), chars(""), chars("b")], ", ")), "a, , b");
    assert_eq!(string_of(&join_with(&vec![], ", ")), "");
}

#[test]
fn strings_are_sorted_like_the_standard_library() {
    let list: Vec<String> =
        ["b", "a", "B", "", "ab", "a", "é", "z", "aa"].iter().map(|s| s.to_string()).collect();
    let mut expected = list.clone();
    expected.sort();
    assert_eq!(sort_strings(&list), expected);
    assert!(sort_strings(&vec![]).is_empty());
}

#[test]
fn completion_of_names() {
    let names: Vec<String> =
        ["report.txt", "readme.md", "reports", "src"].iter().map(|s| s.to_string()).collect();
    assert_eq!(complete_name(&names, "rep"), Some("report".to_string()));
    assert_eq!(complete_name(&names, "re"), Some("re".to_string()));
    assert_eq!(complete_name(&names, "s"), Some("src".to_string()));
    assert_eq!(complete_name(&names, ""), Some(String::new()));
    assert_eq!(complete_name(&names, "x"), None);
    assert_eq!(complete_name(&vec![], ""), None);
}

#[test]
fn completion_of_remote_paths() {
    let listing = "alpha\n  alpine  \n\nbeta\n";
    assert_eq!(complete_remote_path("/srv/al", listing), Some("/srv/alp".to_string()));
    assert_eq!(complete_remote_path("/srv/", listing), Some("/srv/".to_string()));
    assert_eq!(complete_remote_path("be", listing), Some("./beta".to_string()));
    assert_eq!(complete_remote_path("/srv/x", listing), None);
    assert_eq!(complete_remote_path("", listing), None);
    assert_eq!(complete_remote_path("/srv/a", ""), None);
    assert_eq!(directory_to_list("/srv/al"), "/srv/");
    assert_eq!(directory_to_list("/srv/"), "/srv/");
    assert_eq!(directory_to_list("al"), "./");
    let mut host = Host::new("h".to_string(), "10.0.0.1".to_string());
    assert_eq!(
        remote_list_arguments(&host, "/srv/"),
        vec!["10.0.0.1", "-o", "StrictHostKeyChecking=no", "ls -1 '/srv/'"]
    );
    host.user = Some("root".to_string());
    host.port = Some(22);
    host.identity_file = Some(vec!["k".to_string()]);
    assert_eq!(
        remote_list_arguments(&host, "./"),
        vec!["root@10.0.0.1", "-p", "22", "-i", "k", "-o", "StrictHostKeyChecking=no", "ls -1 './'"]
    );
}

#[test]
fn completion_of_local_paths() {
    let names: Vec<String> = ["notes.txt", "notebook", "src"].iter().map(|s| s.to_string()).collect();
    let some = |s: &str| Some(s.to_string());
    let pair = |a: &str, b: &str| Some((a.to_string(), b.to_string()));
    assert_eq!(local_target_from("", &None, &None), None);
    assert_eq!(local_target_from("/tmp/", &some("/"), &some("tmp")), pair("/tmp/", ""));
    assert_eq!(local_target_from("/tmp/no", &some("/tmp"), &some("no")), pair("/tmp", "no"));
    assert_eq!(local_target_from("/tmp/..", &some("/tmp"), &None), None);
    assert_eq!(local_target_from("no", &some(""), &some("no")), pair(".", "no"));
    assert_eq!(local_target_from("no", &None, &some("no")), pair(".", "no"));
    assert_eq!(complete_local_from("/tmp/", &some("/"), &some("tmp"), &names), some("/tmp/"));
    assert_eq!(complete_local_from("/tmp/no", &some("/tmp"), &some("no"), &names), some("/tmp/note"));
    assert_eq!(complete_local_from("/s", &some("/"), &some("s"), &names), some("/src"));
    assert_eq!(complete_local_from("s", &some(""), &some("s"), &names), some("src"));
    assert_eq!(complete_local_from("x", &some(""), &some("x"), &names), None);
    assert_eq!(complete_local_from("", &None, &None, &names), None);
    assert_eq!(local_completion_target("/var/lo"), pair("/var", "lo"));
    assert_eq!(local_completion_target("lo"), pair(".", "lo"));
    assert_eq!(local_completion_target("/var/"), pair("/var/", ""));
    assert_eq!(local_completion_target(""), None);
    assert_eq!(autocomplete_path_among("/var/no", &names), some("/var/note"));
    assert_eq!(autocomplete_path_among("/no", &names), some("/note"));
    assert_eq!(autocomplete_path_among("", &names), None);
}
