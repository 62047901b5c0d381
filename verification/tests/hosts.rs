use sshing::models::{get_shell_options, get_ssh_flag_options, AppMode, Host, HostField, SortBy};
use sshing::ssh::config::{
    parse_config_content, parse_config_with_home, render_config, write_host_block, ConfigError,
    SshConfig,
};
use sshing::ssh::executor::{build_ssh_command, connect_arguments};
use sshing::ssh::metadata::{default_version, HostMetadata, Metadata};
use sshing::ssh::rsync::build_rsync_arguments;

#[test]
fn test_new_host() {
    let host = Host::new("test".to_string(), "192.168.1.1".to_string());
    assert_eq!(host.host, "test");
    assert_eq!(host.hostname, "192.168.1.1");
    assert_eq!(host.effective_port(), 22);
}

#[test]
fn test_effective_port() {
    let mut host = Host::new("test".to_string(), "192.168.1.1".to_string());
    assert_eq!(host.effective_port(), 22);

    host.port = Some(2222);
    assert_eq!(host.effective_port(), 2222);
}

#[test]
fn test_has_keys() {
    let mut host = Host::new("test".to_string(), "192.168.1.1".to_string());
    assert!(!host.has_keys());

    host.identity_file = Some(vec!["/home/user/.ssh/id_rsa".to_string()]);
    assert!(host.has_keys());
}

#[test]
fn test_matches_search() {
    let mut host = Host::new("prod-web".to_string(), "192.168.1.1".to_string());
    host.user = Some("ubuntu".to_string());
    host.tags = vec!["prod".to_string(), "web".to_string()];

    assert!(host.matches_search("prod"));
    assert!(host.matches_search("web"));
    assert!(host.matches_search("192.168"));
    assert!(host.matches_search("ubuntu"));
    assert!(!host.matches_search("staging"));
}

#[test]
fn test_has_any_tag() {
    let mut host = Host::new("test".to_string(), "192.168.1.1".to_string());
    host.tags = vec!["prod".to_string(), "web".to_string()];

    assert!(host.has_any_tag(&vec!["prod".to_string()]));
    assert!(host.has_any_tag(&vec!["web".to_string()]));
    assert!(host.has_any_tag(&vec!["prod".to_string(), "db".to_string()]));
    assert!(!host.has_any_tag(&vec!["staging".to_string()]));
    assert!(host.has_any_tag(&vec![])); // Empty filter matches all
}

#[test]
fn test_parse_simple_config() {
    let config = r#"
Host test-server
  HostName 192.168.1.1
  User ubuntu
  Port 2222

Host prod-db
  HostName 10.0.0.5
  User admin
"#;

    let hosts = parse_config_content(config).unwrap();
    assert_eq!(hosts.len(), 2);

    let host1 = &hosts[0];
    assert_eq!(host1.host, "test-server");
    assert_eq!(host1.hostname, "192.168.1.1");
    assert_eq!(host1.user, Some("ubuntu".to_string()));
    assert_eq!(host1.port, Some(2222));

    let host2 = &hosts[1];
    assert_eq!(host2.host, "prod-db");
    assert_eq!(host2.hostname, "10.0.0.5");
    assert_eq!(host2.user, Some("admin".to_string()));
    assert_eq!(host2.port, None);
}

#[test]
fn test_parse_with_identity_files() {
    let config = r#"
Host github
  HostName github.com
  User git
  IdentityFile ~/.ssh/id_rsa
  IdentityFile ~/.ssh/id_ed25519
"#;

    let hosts = parse_config_content(config).unwrap();
    assert_eq!(hosts.len(), 1);

    let host = &hosts[0];
    assert_eq!(host.host, "github");
    assert!(host.identity_file.is_some());
    assert_eq!(host.identity_file.as_ref().unwrap().len(), 2);
}

#[test]
fn test_parse_with_proxy_jump() {
    let config = r#"
Host internal
  HostName 10.0.0.1
  ProxyJump bastion
"#;

    let hosts = parse_config_content(config).unwrap();
    assert_eq!(hosts.len(), 1);

    let host = &hosts[0];
    assert_eq!(host.proxy_jump, Some("bastion".to_string()));
}

#[test]
fn test_skip_wildcard_hosts() {
    let config = r#"
Host *
  ServerAliveInterval 60

Host test
  HostName 192.168.1.1
"#;

    let hosts = parse_config_content(config).unwrap();
    assert_eq!(hosts.len(), 1);
    assert_eq!(hosts[0].host, "test");
}

#[test]
fn test_write_host_block() {
    let mut host = Host::new("test".to_string(), "192.168.1.1".to_string());
    host.user = Some("ubuntu".to_string());
    host.port = Some(2222);
    host.identity_file = Some(vec!["~/.ssh/id_rsa".to_string()]);

    let mut content = String::new();
    write_host_block(&mut content, &host);

    assert!(content.contains("Host test"));
    assert!(content.contains("HostName 192.168.1.1"));
    assert!(content.contains("User ubuntu"));
    assert!(content.contains("Port 2222"));
    assert!(content.contains("IdentityFile ~/.ssh/id_rsa"));
}

#[test]
fn test_build_ssh_command_simple() {
    let host = Host::new("test".to_string(), "192.168.1.1".to_string());
    let cmd = build_ssh_command(&host);
    assert_eq!(cmd, "ssh 192.168.1.1");
}

#[test]
fn test_build_ssh_command_with_user() {
    let mut host = Host::new("test".to_string(), "192.168.1.1".to_string());
    host.user = Some("ubuntu".to_string());
    let cmd = build_ssh_command(&host);
    assert_eq!(cmd, "ssh -l ubuntu 192.168.1.1");
}

#[test]
fn test_build_ssh_command_with_port() {
    let mut host = Host::new("test".to_string(), "192.168.1.1".to_string());
    host.port = Some(2222);
    let cmd = build_ssh_command(&host);
    assert_eq!(cmd, "ssh -p 2222 192.168.1.1");
}

#[test]
fn test_build_ssh_command_full() {
    let mut host = Host::new("test".to_string(), "192.168.1.1".to_string());
    host.user = Some("ubuntu".to_string());
    host.port = Some(2222);
    host.identity_file = Some(vec!["~/.ssh/id_rsa".to_string()]);
    host.proxy_jump = Some("bastion".to_string());

    let cmd = build_ssh_command(&host);
    assert!(cmd.contains("ssh"));
    assert!(cmd.contains("-l ubuntu"));
    assert!(cmd.contains("-p 2222"));
    assert!(cmd.contains("-i ~/.ssh/id_rsa"));
    assert!(cmd.contains("-J bastion"));
    assert!(cmd.contains("192.168.1.1"));
}

#[test]
fn test_metadata_new() {
    let metadata = Metadata::new();
    assert_eq!(metadata.version, "1.0");
    assert!(metadata.hosts.is_empty());
}

#[test]
fn test_metadata_get_set() {
    let mut metadata = Metadata::new();

    let host_meta = HostMetadata {
        note: Some("Test note".to_string()),
        tags: vec!["prod".to_string()],
        ssh_flags: vec![],
        shell: None,
        last_used: None,
    };

    metadata.set("test-host".to_string(), host_meta.clone());

    let retrieved = metadata.get("test-host").unwrap();
    assert_eq!(retrieved.note, Some("Test note".to_string()));
    assert_eq!(retrieved.tags, vec!["prod".to_string()]);
}

#[test]
fn test_apply_to_host() {
    let mut metadata = Metadata::new();

    metadata.set(
        "test".to_string(),
        HostMetadata {
            note: Some("Production server".to_string()),
            tags: vec!["prod".to_string(), "web".to_string()],
            ssh_flags: vec![],
            shell: None,
            last_used: None,
        },
    );

    let mut host = Host::new("test".to_string(), "192.168.1.1".to_string());
    metadata.apply_to_host(&mut host);

    assert_eq!(host.note, Some("Production server".to_string()));
    assert_eq!(host.tags, vec!["prod".to_string(), "web".to_string()]);
}

#[test]
fn test_extract_from_host() {
    let mut metadata = Metadata::new();

    let mut host = Host::new("test".to_string(), "192.168.1.1".to_string());
    host.note = Some("Test note".to_string());
    host.tags = vec!["dev".to_string()];

    metadata.extract_from_host(&host);

    let retrieved = metadata.get("test").unwrap();
    assert_eq!(retrieved.note, Some("Test note".to_string()));
    assert_eq!(retrieved.tags, vec!["dev".to_string()]);
}

#[test]
fn hosts_are_the_same_by_alias() {
    let a = Host::new("x".to_string(), "1.1.1.1".to_string());
    let mut b = Host::new("x".to_string(), "2.2.2.2".to_string());
    b.port = Some(1);
    assert_eq!(a, b);
    assert_ne!(a, Host::new("y".to_string(), "1.1.1.1".to_string()));
    assert_eq!(a.duplicate().hostname, "1.1.1.1");
}

#[test]
fn mark_used_sets_a_time() {
    let mut h = Host::new("x".to_string(), "h".to_string());
    h.mark_used_at(1234);
    assert_eq!(h.last_used, Some(1234));
    h.mark_used();
    assert!(h.last_used.unwrap() > 1_600_000_000_000);
    assert_eq!(h.host, "x");
}

#[test]
fn search_looks_at_note_and_ignores_case() {
    let mut h = Host::new("Alpha".to_string(), "Example.COM".to_string());
    h.note = Some("Behind the VPN".to_string());
    assert!(h.matches_search("ALPHA"));
    assert!(h.matches_search("example.com"));
    assert!(h.matches_search("vpn"));
    assert!(h.matches_search(""));
    assert!(!h.matches_search("beta"));
}

#[test]
fn config_parsing_details() {
    let home = Some("/home/me".to_string());
    let text = "# comment\nhost a\n\thostname  1.2.3.4  \n  PORT 70000\n  port 22x\n  Port 2200\n  IdentityFile ~/.ssh/k\n  identityfile /abs/k\n  Unknown thing\n  LoneWord\nHost b?\n  HostName skipped\nHost c\n  User nobody\nHOST d\n  HostName d.example\r\n";
    let hosts = parse_config_with_home(text, &home);
    assert_eq!(hosts.len(), 2);
    assert_eq!(hosts[0].host, "a");
    assert_eq!(hosts[0].hostname, "1.2.3.4");
    assert_eq!(hosts[0].port, Some(2200));
    assert_eq!(
        hosts[0].identity_file,
        Some(vec!["/home/me/.ssh/k".to_string(), "/abs/k".to_string()])
    );
    assert_eq!(hosts[1].host, "d");
    assert_eq!(hosts[1].hostname, "d.example");
    let hosts = parse_config_with_home("Host a\n HostName h\n IdentityFile ~/.ssh/k", &None);
    assert_eq!(hosts[0].identity_file, Some(vec!["~/.ssh/k".to_string()]));
    assert!(parse_config_with_home("", &home).is_empty());
    assert!(parse_config_with_home("HostName orphan\n", &home).is_empty());
}

#[test]
fn host_block_text() {
    let mut host = Host::new("test".to_string(), "192.168.1.1".to_string());
    let mut content = "before\n".to_string();
    write_host_block(&mut content, &host);
    assert_eq!(content, "before\nHost test\n  HostName 192.168.1.1\n\n");
    host.user = Some("u".to_string());
    host.port = Some(0);
    host.identity_file = Some(vec!["a".to_string(), "b".to_string()]);
    host.proxy_jump = Some("j".to_string());
    let mut content = String::new();
    write_host_block(&mut content, &host);
    assert_eq!(
        content,
        "Host test\n  HostName 192.168.1.1\n  User u\n  Port 0\n  IdentityFile a\n  IdentityFile b\n  ProxyJump j\n\n"
    );
}

#[test]
fn config_text_round_trip() {
    let mut config = SshConfig::new("/tmp/config".to_string());
    let mut a = Host::new("a".to_string(), "1.1.1.1".to_string());
    a.user = Some("root".to_string());
    a.port = Some(65535);
    config.add_host(a);
    config.add_host(Host::new("b".to_string(), "b.example".to_string()));
    let text = render_config(&config);
    assert_eq!(
        text,
        "# SSH Config managed by sshing\n# Edit with caution or use sshing to manage hosts\n\nHost a\n  HostName 1.1.1.1\n  User root\n  Port 65535\n\nHost b\n  HostName b.example\n\n"
    );
    let back = parse_config_with_home(&text, &None);
    assert_eq!(back.len(), 2);
    assert_eq!(back[0].user, Some("root".to_string()));
    assert_eq!(back[0].port, Some(65535));
    assert_eq!(back[1].hostname, "b.example");
    assert_eq!(render_config(&SshConfig::new(String::new())),
        "# SSH Config managed by sshing\n# Edit with caution or use sshing to manage hosts\n\n");
}

#[test]
fn config_changes() {
    let mut config = SshConfig::new("p".to_string());
    assert_eq!(config.path, "p");
    config.add_host(Host::new("a".to_string(), "1".to_string()));
    config.add_host(Host::new("b".to_string(), "2".to_string()));
    assert!(config.host_exists("a"));
    assert!(!config.host_exists("c"));
    assert_eq!(config.find_host("b").unwrap().hostname, "2");
    assert!(config.find_host("c").is_none());
    assert_eq!(config.update_host(1, Host::new("c".to_string(), "3".to_string())), Ok(()));
    assert_eq!(config.hosts[1].host, "c");
    assert_eq!(
        config.update_host(2, Host::new("d".to_string(), "4".to_string())),
        Err(ConfigError::IndexOutOfBounds)
    );
    assert_eq!(config.hosts.len(), 2);
    assert_eq!(config.remove_host(0).unwrap().host, "a");
    assert_eq!(config.remove_host(5).unwrap_err(), ConfigError::IndexOutOfBounds);
    assert_eq!(config.hosts.len(), 1);
    assert_eq!(ConfigError::IndexOutOfBounds.message(), "Host index out of bounds");
}

#[test]
fn connect_and_rsync_arguments() {
    let mut host = Host::new("test".to_string(), "192.168.1.1".to_string());
    assert_eq!(connect_arguments(&host), vec!["192.168.1.1".to_string()]);
    host.user = Some("ubuntu".to_string());
    host.port = Some(2222);
    host.identity_file = Some(vec!["k1".to_string(), "k2".to_string()]);
    host.proxy_jump = Some("bastion".to_string());
    host.ssh_flags = vec!["-t".to_string(), "-A".to_string()];
    host.shell = Some("zsh".to_string());
    let args: Vec<String> = ["-l", "ubuntu", "-p", "2222", "-i", "k1", "-i", "k2", "-J", "bastion", "-t", "-A", "192.168.1.1", "zsh"]
        .iter().map(|s| s.to_string()).collect();
    assert_eq!(connect_arguments(&host), args);
    assert_eq!(
        build_ssh_command(&host),
        "ssh -l ubuntu -p 2222 -i k1 -i k2 -J bastion 192.168.1.1"
    );
    let args: Vec<String> = ["-e", "ssh -l ubuntu -p 2222 -i k1 -i k2 -o StrictHostKeyChecking=no", "-a", "-z", "./src", "192.168.1.1:/dst"]
        .iter().map(|s| s.to_string()).collect();
    assert_eq!(build_rsync_arguments(&host, "./src", "/dst", true, true), args);
    let plain = Host::new("p".to_string(), "h".to_string());
    let args: Vec<String> = ["-e", "ssh -o StrictHostKeyChecking=no", "-a", "h:/remote", "local"]
        .iter().map(|s| s.to_string()).collect();
    assert_eq!(build_rsync_arguments(&plain, "/remote", "local", false, false), args);
}

#[test]
fn metadata_map_behaviour() {
    let mut m = Metadata::default();
    assert_eq!(default_version(), "1.0");
    let meta = |note: &str| HostMetadata {
        note: Some(note.to_string()),
        tags: vec![],
        ssh_flags: vec!["-A".to_string()],
        shell: Some("fish".to_string()),
        last_used: Some(5),
    };
    m.set("a".to_string(), meta("one"));
    m.set("b".to_string(), meta("two"));
    m.set("a".to_string(), meta("three"));
    assert_eq!(m.hosts.len(), 2);
    assert_eq!(m.get("a").unwrap().note, Some("three".to_string()));
    assert_eq!(m.get("b").unwrap().note, Some("two".to_string()));
    assert!(m.get("c").is_none());
    assert_eq!(m.remove("a").unwrap().note, Some("three".to_string()));
    assert_eq!(m.remove("a"), None);
    assert_eq!(m.hosts.len(), 1);

    let mut hosts = vec![
        Host::new("b".to_string(), "1".to_string()),
        Host::new("z".to_string(), "2".to_string()),
    ];
    hosts[1].note = Some("keep".to_string());
    m.merge_into_hosts(&mut hosts);
    assert_eq!(hosts[0].note, Some("two".to_string()));
    assert_eq!(hosts[0].shell, Some("fish".to_string()));
    assert_eq!(hosts[0].ssh_flags, vec!["-A".to_string()]);
    assert_eq!(hosts[0].last_used, Some(5));
    assert_eq!(hosts[1].note, Some("keep".to_string()));

    hosts[0].tags = vec!["t".to_string()];
    m.extract_from_hosts(&hosts);
    assert_eq!(m.hosts.len(), 2);
    assert_eq!(m.get("b").unwrap().tags, vec!["t".to_string()]);
    assert_eq!(m.get("z").unwrap().note, Some("keep".to_string()));
}

#[test]
fn global_tags_stay_sorted_and_unique() {
    let mut m = Metadata::new();
    for t in ["web", "db", "prod", "db", "Web", "api"] {
        m.add_global_tag(t.to_string());
    }
    assert_eq!(m.get_global_tags(), vec!["Web", "api", "db", "prod", "web"]);
}

#[test]
fn fields_and_orders_cycle() {
    let all = HostField::all();
    assert_eq!(all.len(), 10);
    assert_eq!(all[0], HostField::HostAlias);
    assert_eq!(all[9], HostField::Note);
    for (i, f) in all.iter().enumerate() {
        assert_eq!(f.next(), all[(i + 1) % 10]);
        assert_eq!(f.previous(), all[(i + 9) % 10]);
        assert_eq!(f.next().previous(), *f);
    }
    assert_eq!(HostField::HostAlias.label(), "Host (alias)");
    assert_eq!(HostField::Hostname.label(), "Hostname (IP)");
    assert_eq!(HostField::IdentityFiles.label(), "SSH Keys");
    assert_eq!(HostField::ProxyJump.label(), "Jump Host");
    assert_eq!(HostField::SshFlags.label(), "SSH Flags");
    let orders = SortBy::all();
    assert_eq!(orders, vec![SortBy::Name, SortBy::Hostname, SortBy::LastUsed, SortBy::User]);
    assert_eq!(SortBy::User.next(), SortBy::Name);
    assert_eq!(SortBy::LastUsed.label(), "Last Used");
    assert_eq!(SortBy::default(), SortBy::Name);
    assert_eq!(AppMode::default(), AppMode::Table);
}

#[test]
fn options_that_are_offered() {
    let flags = get_ssh_flag_options();
    assert_eq!(flags.len(), 13);
    assert_eq!(flags[0].flag, "-t");
    assert_eq!(flags[0].description, "Force pseudo-terminal (needed for interactive shells)");
    assert_eq!(flags[12].flag, "-6");
    assert_eq!(flags[8].description, "Don't execute command (port forwarding only)");
    let shells = get_shell_options();
    assert_eq!(shells.len(), 7);
    assert_eq!(shells[0].name, "bash");
    assert_eq!(shells[6].name, "dash");
    assert_eq!(shells[6].description, "Debian Almquist Shell");
}
