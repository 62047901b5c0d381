use sshing::app::{
    apply_field_buffer, available_keys, get_field_value, get_field_value_for_editing, App,
};
use sshing::display::{
    colorize_script_line, format_timestamp, get_line_kind, get_log_level, get_tag_color, LineKind,
    LogLevel, TagColor,
};
use sshing::models::{AppMode, Host, HostField, SortBy};
use sshing::ssh::config::{ConfigError, SshConfig};
use sshing::ssh::metadata::{HostMetadata, Metadata};

fn host(alias: &str, hostname: &str, user: Option<&str>, tags: &[&str], used: Option<i64>) -> Host {
    let mut h = Host::new(alias.to_string(), hostname.to_string());
    h.user = user.map(|u| u.to_string());
    h.tags = tags.iter().map(|t| t.to_string()).collect();
    h.last_used = used;
    h
}

fn app() -> App {
    let mut config = SshConfig::new("/cfg".to_string());
    config.add_host(Host::new("web".to_string(), "10.0.0.3".to_string()));
    config.add_host(Host::new("db".to_string(), "10.0.0.1".to_string()));
    config.add_host(Host::new("cache".to_string(), "10.0.0.2".to_string()));
    config.hosts[0].user = Some("root".to_string());
    config.hosts[2].user = Some("admin".to_string());
    let mut metadata = Metadata::new();
    let meta = |tags: &[&str], used: Option<i64>| HostMetadata {
        note: None,
        tags: tags.iter().map(|t| t.to_string()).collect(),
        ssh_flags: vec![],
        shell: None,
        last_used: used,
    };
    metadata.set("web".to_string(), meta(&["prod", "web"], Some(30)));
    metadata.set("db".to_string(), meta(&["prod"], None));
    metadata.set("cache".to_string(), meta(&["dev", "prod"], Some(50)));
    App::new("/cfg".to_string(), "/meta".to_string(), config, metadata)
}

fn shown(a: &App) -> Vec<String> {
    a.filtered_hosts().iter().map(|h| h.host.clone()).collect()
}

#[test]
fn beginning_state() {
    let a = app();
    assert_eq!(a.mode, AppMode::Table);
    assert_eq!(a.hosts.len(), 3);
    assert_eq!(a.hosts[0].tags, vec!["prod", "web"]);
    assert_eq!(a.hosts[0].last_used, Some(30));
    assert_eq!(a.ssh_config.hosts[0].tags, vec!["prod", "web"]);
    assert_eq!(a.selected_index, 0);
    assert_eq!(a.search_query, "");
    assert!(a.active_tag_filters.is_empty());
    assert_eq!(a.sort_by, SortBy::Name);
    assert_eq!(a.all_tags(), vec!["dev", "prod", "web"]);
    assert_eq!(a.config_path, "/cfg");
    assert_eq!(a.metadata_path, "/meta");
    assert!(!a.should_quit);
    assert_eq!(a.pending_connection, None);
}

#[test]
fn kept_global_tags_are_not_replaced() {
    let mut metadata = Metadata::new();
    metadata.add_global_tag("only".to_string());
    let mut config = SshConfig::new(String::new());
    config.add_host(host("a", "h", None, &["x"], None));
    let a = App::new(String::new(), String::new(), config, metadata);
    assert_eq!(a.all_tags(), vec!["only"]);
    assert!(a.hosts[0].tags.len() == 1);
}

#[test]
fn hosts_are_sorted_in_every_order() {
    let mut a = app();
    assert_eq!(shown(&a), vec!["cache", "db", "web"]);
    a.cycle_sort();
    assert_eq!(a.sort_by, SortBy::Hostname);
    assert_eq!(a.status_message, Some("Sorting by: Hostname".to_string()));
    assert_eq!(shown(&a), vec!["db", "cache", "web"]);
    a.cycle_sort();
    assert_eq!(a.sort_by, SortBy::LastUsed);
    assert_eq!(shown(&a), vec!["cache", "web", "db"]);
    a.cycle_sort();
    assert_eq!(a.sort_by, SortBy::User);
    assert_eq!(shown(&a), vec!["db", "cache", "web"]);
    a.cycle_sort();
    assert_eq!(a.sort_by, SortBy::Name);
    assert_eq!(a.filtered_indices(), vec![2, 1, 0]);
}

#[test]
fn search_and_tags_filter_the_hosts() {
    let mut a = app();
    a.selected_index = 2;
    a.start_search();
    assert_eq!(a.mode, AppMode::Search { query: String::new() });
    a.apply_search("10.0.0".to_string());
    assert_eq!(a.mode, AppMode::Table);
    assert_eq!(a.selected_index, 0);
    assert_eq!(shown(&a).len(), 3);
    a.apply_search("ROOT".to_string());
    assert_eq!(shown(&a), vec!["web"]);
    a.clear_search();
    a.start_tag_filter();
    assert_eq!(a.mode, AppMode::TagFilter { selected_tags: vec![] });
    a.apply_tag_filter(vec!["dev".to_string(), "web".to_string()]);
    assert_eq!(shown(&a), vec!["cache", "web"]);
    a.apply_search("cache".to_string());
    assert_eq!(shown(&a), vec!["cache"]);
    a.apply_search("nothing".to_string());
    assert!(shown(&a).is_empty());
    assert!(a.selected_host().is_none());
}

#[test]
fn selection_moves_within_the_shown_hosts() {
    let mut a = app();
    assert_eq!(a.selected_host().unwrap().host, "cache");
    a.select_previous();
    assert_eq!(a.selected_index, 0);
    a.select_next();
    a.select_next();
    a.select_next();
    assert_eq!(a.selected_index, 2);
    assert_eq!(a.selected_host().unwrap().host, "web");
    a.select_first();
    assert_eq!(a.selected_index, 0);
    a.select_last();
    assert_eq!(a.selected_index, 2);
    a.page_up(10);
    assert_eq!(a.selected_index, 0);
    a.page_down(1);
    assert_eq!(a.selected_index, 1);
    a.page_down(usize::MAX);
    assert_eq!(a.selected_index, 2);
    a.page_up(2);
    assert_eq!(a.selected_index, 0);
    a.apply_search("nothing".to_string());
    a.selected_index = 7;
    a.select_next();
    a.select_last();
    a.page_down(3);
    assert_eq!(a.selected_index, 7);
}

#[test]
fn editing_modes() {
    let mut a = app();
    a.start_new_host();
    assert_eq!(
        a.mode,
        AppMode::EditHost {
            host_index: None,
            editing_host: Host::new(String::new(), String::new()),
            focused_field: HostField::HostAlias,
            field_buffer: String::new(),
            editing_mode: false,
        }
    );
    a.select_last();
    a.start_edit_host();
    match &a.mode {
        AppMode::EditHost { host_index, editing_host, field_buffer, editing_mode, .. } => {
            assert_eq!(*host_index, Some(0));
            assert_eq!(editing_host.host, "web");
            assert_eq!(editing_host.hostname, "10.0.0.3");
            assert_eq!(field_buffer, "web");
            assert!(!editing_mode);
        }
        other => panic!("{:?}", other),
    }
    let h = a.hosts[0].duplicate();
    a.start_key_selection(Some(0), h.duplicate(), HostField::IdentityFiles, vec!["~/.ssh/id".to_string()]);
    assert!(matches!(&a.mode, AppMode::SelectKeys { available_keys, selected_key_index: 0, .. } if available_keys.len() == 1));
    a.start_tag_editing(Some(0), h.duplicate(), HostField::Tags);
    assert!(matches!(&a.mode, AppMode::EditTags { input_mode: false, selected_tag_index: 0, .. }));
    a.start_ssh_flags_selection(None, h.duplicate(), HostField::SshFlags);
    assert!(matches!(&a.mode, AppMode::SelectSshFlags { host_index: None, selected_flag_index: 0, .. }));
    a.start_shell_selection(None, h.duplicate(), HostField::Shell);
    assert!(matches!(&a.mode, AppMode::SelectShell { selected_shell_index: 0, .. }));
    a.return_to_edit(Some(0), h.duplicate(), HostField::Hostname);
    assert!(matches!(&a.mode, AppMode::EditHost { field_buffer, focused_field: HostField::Hostname, .. } if field_buffer == "10.0.0.3"));
    a.show_help();
    assert_eq!(a.mode, AppMode::Help);
    a.return_to_table();
    assert_eq!(a.mode, AppMode::Table);
    a.apply_search("nothing".to_string());
    a.start_edit_host();
    a.start_delete_host();
    assert_eq!(a.mode, AppMode::Table);
    a.quit();
    assert!(a.should_quit);
}

#[test]
fn saving_a_host() {
    let mut a = app();
    a.start_new_host();
    assert_eq!(a.save_edited_host(Host::new("db".to_string(), "h".to_string()), None), Ok(false));
    assert_eq!(a.error_message, Some("Host 'db' already exists".to_string()));
    assert_eq!(a.save_edited_host(Host::new("".to_string(), "h".to_string()), None), Ok(false));
    assert_eq!(a.error_message, Some("Host alias cannot be empty".to_string()));
    assert_eq!(a.save_edited_host(Host::new("n".to_string(), "".to_string()), None), Ok(false));
    assert_eq!(a.error_message, Some("Hostname/IP cannot be empty".to_string()));
    assert_eq!(a.hosts.len(), 3);
    assert!(matches!(a.mode, AppMode::EditHost { .. }));
    a.clear_messages();
    assert_eq!(a.error_message, None);

    let mut n = host("new", "10.0.0.9", None, &["fresh"], None);
    n.note = Some("note".to_string());
    assert_eq!(a.save_edited_host(n, None), Ok(true));
    assert_eq!(a.status_message, Some("Added host 'new'".to_string()));
    assert_eq!(a.mode, AppMode::Table);
    assert_eq!(a.hosts.len(), 4);
    assert_eq!(a.ssh_config.hosts.len(), 4);
    assert_eq!(a.metadata.get("new").unwrap().tags, vec!["fresh"]);
    assert_eq!(a.metadata.get("new").unwrap().note, Some("note".to_string()));

    let renamed = host("database", "10.0.0.1", None, &[], None);
    assert_eq!(a.save_edited_host(renamed, Some(1)), Ok(true));
    assert_eq!(a.status_message, Some("Updated host 'database'".to_string()));
    assert_eq!(a.hosts[1].host, "database");
    assert_eq!(a.ssh_config.hosts[1].host, "database");
    let same = host("database", "10.0.0.7", None, &[], None);
    assert_eq!(a.save_edited_host(same, Some(1)), Ok(true));
    assert_eq!(a.hosts[1].hostname, "10.0.0.7");
    let clash = host("web", "10.0.0.7", None, &[], None);
    assert_eq!(a.save_edited_host(clash, Some(1)), Ok(false));
    let far = host("far", "h", None, &[], None);
    assert_eq!(a.save_edited_host(far, Some(9)), Err(ConfigError::IndexOutOfBounds));
    assert_eq!(a.hosts.len(), 4);
}

#[test]
fn deleting_a_host() {
    let mut a = app();
    a.select_last();
    a.start_delete_host();
    assert_eq!(a.mode, AppMode::ConfirmDelete { host_index: 0 });
    assert_eq!(a.delete_host(0), Ok(true));
    assert_eq!(a.mode, AppMode::Table);
    assert_eq!(a.status_message, Some("Deleted host 'web'".to_string()));
    assert_eq!(a.hosts.len(), 2);
    assert_eq!(a.ssh_config.hosts.len(), 2);
    assert!(a.metadata.get("web").is_none());
    assert!(a.metadata.get("db").is_some());
    assert_eq!(a.selected_index, 1);
    a.show_help();
    assert_eq!(a.delete_host(5), Ok(false));
    assert_eq!(a.mode, AppMode::Table);
    assert_eq!(a.hosts.len(), 2);
}

#[test]
fn connecting_marks_the_host_used() {
    let mut a = app();
    a.select_next();
    assert!(a.connect_to_selected_at(99));
    assert_eq!(a.hosts[1].last_used, Some(99));
    assert_eq!(a.metadata.get("db").unwrap().last_used, Some(99));
    let pending = a.pending_connection.clone().unwrap();
    assert_eq!(pending.host, "db");
    assert_eq!(pending.last_used, None);
    a.complete_connection(true, None);
    assert_eq!(a.status_message, Some("Connected to 'db'".to_string()));
    assert_eq!(a.pending_connection, None);
    assert!(a.connect_to_selected());
    assert!(a.hosts[1].last_used.unwrap() > 99);
    a.complete_connection(false, Some("SSH error: x".to_string()));
    assert_eq!(a.error_message, Some("SSH error: x".to_string()));
    a.clear_messages();
    a.complete_connection(true, None);
    assert_eq!(a.status_message, None);
    a.apply_search("nothing".to_string());
    assert!(!a.connect_to_selected_at(1));
    assert_eq!(a.error_message, Some("No host selected".to_string()));
    assert_eq!(a.pending_connection, None);
}

#[test]
fn global_tags_and_saving() {
    let mut a = app();
    a.add_global_tag("alpha".to_string());
    a.add_global_tag("prod".to_string());
    assert_eq!(a.all_tags(), vec!["alpha", "dev", "prod", "web"]);
    a.hosts[0].note = Some("changed".to_string());
    a.prepare_save();
    assert_eq!(a.metadata.get("web").unwrap().note, Some("changed".to_string()));
}

#[test]
fn field_texts() {
    let mut h = host("a", "h", Some("u"), &["t1", "t2"], None);
    h.port = Some(2222);
    h.identity_file = Some(vec!["k1".to_string(), "k2".to_string()]);
    h.ssh_flags = vec!["-t".to_string(), "-A".to_string()];
    h.shell = Some("zsh".to_string());
    h.note = Some("n".to_string());
    h.proxy_jump = Some("j".to_string());
    let texts: Vec<String> = HostField::all().iter().map(|f| get_field_value(&h, f)).collect();
    assert_eq!(texts, vec!["a", "h", "u", "2222", "k1, k2", "j", "-t -A", "zsh", "t1, t2", "n"]);
    let texts: Vec<String> =
        HostField::all().iter().map(|f| get_field_value_for_editing(&h, f)).collect();
    assert_eq!(texts, vec!["a", "h", "u", "2222", "", "j", "", "", "", "n"]);
    let blank = Host::new(String::new(), String::new());
    for f in HostField::all() {
        assert_eq!(get_field_value(&blank, &f), "");
    }
}

#[test]
fn field_buffer_is_applied() {
    let mut h = host("a", "h", Some("u"), &["t"], None);
    apply_field_buffer(&mut h, &HostField::HostAlias, "b");
    apply_field_buffer(&mut h, &HostField::Hostname, "");
    apply_field_buffer(&mut h, &HostField::User, "");
    apply_field_buffer(&mut h, &HostField::Port, "8022");
    apply_field_buffer(&mut h, &HostField::ProxyJump, "jump");
    apply_field_buffer(&mut h, &HostField::Note, "note");
    apply_field_buffer(&mut h, &HostField::Tags, "ignored");
    apply_field_buffer(&mut h, &HostField::Shell, "ignored");
    assert_eq!(h.host, "b");
    assert_eq!(h.hostname, "");
    assert_eq!(h.user, None);
    assert_eq!(h.port, Some(8022));
    assert_eq!(h.proxy_jump, Some("jump".to_string()));
    assert_eq!(h.note, Some("note".to_string()));
    assert_eq!(h.tags, vec!["t"]);
    assert_eq!(h.shell, None);
    apply_field_buffer(&mut h, &HostField::Port, "port");
    assert_eq!(h.port, None);
    apply_field_buffer(&mut h, &HostField::Port, "65536");
    assert_eq!(h.port, None);
}

#[test]
fn keys_that_are_offered() {
    let names: Vec<String> = ["id_rsa.pub", "id_rsa", "config", "known_hosts", "authorized_keys",
        ".hidden", "x.lock", "id_ed25519", "Work key"]
        .iter().map(|s| s.to_string()).collect();
    assert_eq!(available_keys(&names), vec!["~/.ssh/Work key", "~/.ssh/id_ed25519", "~/.ssh/id_rsa"]);
    assert!(available_keys(&vec![]).is_empty());
}

#[test]
fn display_decisions() {
    assert_eq!(format_timestamp("2024-01-15T10:30:00.123456Z"), "2024-01-15 10:30:00");
    assert_eq!(format_timestamp("2024-01-15T10:30:00"), "2024-01-15 10:30:00");
    assert_eq!(format_timestamp("2024-01-15T10:30"), "2024-01-15T10:30");
    assert_eq!(format_timestamp(""), "");
    assert_eq!(colorize_script_line("  -e A=1 \\"), "  -e A=1 \\");
    assert_eq!(get_line_kind("  # note"), LineKind::Comment);
    assert_eq!(get_line_kind("docker run x"), LineKind::DockerCommand);
    assert_eq!(get_line_kind("  -e A=1"), LineKind::EnvVar);
    assert_eq!(get_line_kind("OPTS=-e A=1"), LineKind::EnvVar);
    assert_eq!(get_line_kind("  -p 1:2 \\"), LineKind::Port);
    assert_eq!(get_line_kind("\t-v a:b"), LineKind::Volume);
    assert_eq!(get_line_kind("echo hi"), LineKind::Other);
    assert_eq!(get_line_kind("-e"), LineKind::Other);
    assert_eq!(get_log_level("An ERROR occurred"), LogLevel::Error);
    assert_eq!(get_log_level("NullPointerException"), LogLevel::Error);
    assert_eq!(get_log_level("Warning: info"), LogLevel::Warning);
    assert_eq!(get_log_level("[INFO] debug on"), LogLevel::Info);
    assert_eq!(get_log_level("Debug"), LogLevel::Debug);
    assert_eq!(get_log_level("plain"), LogLevel::Plain);
    assert_eq!(get_tag_color("PROD"), TagColor::Red);
    assert_eq!(get_tag_color("stage"), TagColor::Yellow);
    assert_eq!(get_tag_color("Development"), TagColor::Green);
    assert_eq!(get_tag_color("testing"), TagColor::Cyan);
    assert_eq!(get_tag_color("db"), TagColor::Magenta);
    assert_eq!(get_tag_color("frontend"), TagColor::Blue);
    assert_eq!(get_tag_color("api"), TagColor::LightBlue);
    assert_eq!(get_tag_color("critical"), TagColor::LightRed);
    assert_eq!(get_tag_color("other"), TagColor::DarkGray);
}
