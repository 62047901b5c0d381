use sshing::app::App;
use sshing::input::{handle_input, toggle, type_into, Effect, Key, KeyPress};
use sshing::models::{AppMode, Host, HostField, SortBy};
use sshing::ssh::config::{ConfigError, SshConfig};
use sshing::ssh::metadata::Metadata;

fn app() -> App {
    let mut config = SshConfig::new("/cfg".to_string());
    for (alias, address) in [("web", "10.0.0.3"), ("db", "10.0.0.1"), ("cache", "10.0.0.2")] {
        config.add_host(Host::new(alias.to_string(), address.to_string()));
    }
    let mut metadata = Metadata::new();
    metadata.add_global_tag("prod".to_string());
    metadata.add_global_tag("dev".to_string());
    App::new("/cfg".to_string(), "/meta".to_string(), config, metadata)
}

fn press(a: &mut App, key: Key) -> Effect {
    handle_input(a, KeyPress { key, control: false }, 1000).unwrap()
}

fn ctrl(a: &mut App, c: char) -> Result<Effect, ConfigError> {
    handle_input(a, KeyPress { key: Key::Char(c), control: true }, 1000)
}

fn type_text(a: &mut App, text: &str) {
    for c in text.chars() {
        assert_eq!(press(a, Key::Char(c)), Effect::Nothing);
    }
}

#[test]
fn table_keys_move_and_open() {
    let mut a = app();
    a.status_message = Some("old".to_string());
    a.error_message = Some("old".to_string());
    assert_eq!(press(&mut a, Key::Char('j')), Effect::Nothing);
    assert_eq!(a.status_message, None);
    assert_eq!(a.error_message, None);
    assert_eq!(a.selected_index, 1);
    press(&mut a, Key::Down);
    press(&mut a, Key::Down);
    assert_eq!(a.selected_index, 2);
    press(&mut a, Key::Char('k'));
    press(&mut a, Key::Up);
    press(&mut a, Key::Up);
    assert_eq!(a.selected_index, 0);
    press(&mut a, Key::Char('G'));
    assert_eq!(a.selected_index, 2);
    press(&mut a, Key::Char('g'));
    assert_eq!(a.selected_index, 0);
    assert_eq!(ctrl(&mut a, 'd'), Ok(Effect::Nothing));
    assert_eq!(a.selected_index, 2);
    assert_eq!(ctrl(&mut a, 'u'), Ok(Effect::Nothing));
    assert_eq!(a.selected_index, 0);
    assert_eq!(press(&mut a, Key::Char('d')), Effect::StartDockerMode);
    assert_eq!(press(&mut a, Key::Char('r')), Effect::StartRsync);
    assert_eq!(press(&mut a, Key::Char('s')), Effect::Nothing);
    assert_eq!(a.sort_by, SortBy::Hostname);
    assert_eq!(a.status_message, Some("Sorting by: Hostname".to_string()));
    assert_eq!(press(&mut a, Key::Other), Effect::Nothing);
    assert_eq!(press(&mut a, Key::Char('x')), Effect::Nothing);
    assert_eq!(a.mode, AppMode::Table);
    press(&mut a, Key::Char('?'));
    assert_eq!(a.mode, AppMode::Help);
    press(&mut a, Key::Other);
    assert_eq!(a.mode, AppMode::Table);
    press(&mut a, Key::Char('t'));
    assert_eq!(a.mode, AppMode::TagFilter { selected_tags: vec![] });
    press(&mut a, Key::Char('x'));
    press(&mut a, Key::Enter);
    assert_eq!(a.mode, AppMode::Table);
    press(&mut a, Key::Char('t'));
    press(&mut a, Key::Esc);
    assert_eq!(a.mode, AppMode::Table);
    assert!(!a.should_quit);
    press(&mut a, Key::Char('q'));
    assert!(a.should_quit);
    let mut b = app();
    press(&mut b, Key::Esc);
    assert!(b.should_quit);
}

#[test]
fn connecting_from_the_table() {
    let mut a = app();
    assert_eq!(press(&mut a, Key::Enter), Effect::SaveMetadata);
    assert_eq!(a.pending_connection.as_ref().unwrap().host, "cache");
    assert_eq!(a.hosts[2].last_used, Some(1000));
    a.complete_connection(true, None);
    press(&mut a, Key::Char('j'));
    assert_eq!(press(&mut a, Key::Char(' ')), Effect::SaveMetadata);
    assert_eq!(a.pending_connection.as_ref().unwrap().host, "db");
    a.apply_search("none".to_string());
    assert_eq!(press(&mut a, Key::Enter), Effect::Nothing);
    assert_eq!(a.error_message, Some("No host selected".to_string()));
}

#[test]
fn search_line() {
    let mut a = app();
    press(&mut a, Key::Char('/'));
    type_text(&mut a, "dbx");
    press(&mut a, Key::Backspace);
    assert_eq!(a.mode, AppMode::Search { query: "db".to_string() });
    press(&mut a, Key::Tab);
    assert_eq!(a.mode, AppMode::Search { query: "db".to_string() });
    press(&mut a, Key::Enter);
    assert_eq!(a.mode, AppMode::Table);
    assert_eq!(a.search_query, "db");
    assert_eq!(a.filtered_indices(), vec![1]);
    press(&mut a, Key::Char('/'));
    for _ in 0..5 {
        press(&mut a, Key::Backspace);
    }
    assert_eq!(a.mode, AppMode::Search { query: String::new() });
    press(&mut a, Key::Esc);
    assert_eq!(a.mode, AppMode::Table);
    assert_eq!(a.search_query, "db");
}

#[test]
fn new_host_through_the_form() {
    let mut a = app();
    press(&mut a, Key::Char('n'));
    assert!(matches!(&a.mode, AppMode::EditHost { host_index: None, editing_mode: false, .. }));
    press(&mut a, Key::Enter);
    assert!(matches!(&a.mode, AppMode::EditHost { editing_mode: true, .. }));
    type_text(&mut a, "jump");
    press(&mut a, Key::Tab);
    assert!(matches!(&a.mode, AppMode::EditHost { focused_field: HostField::Hostname, editing_mode: false, editing_host, .. } if editing_host.host == "jump"));
    press(&mut a, Key::Enter);
    type_text(&mut a, "10.9.9.9");
    press(&mut a, Key::Enter);
    press(&mut a, Key::Char('j'));
    press(&mut a, Key::Enter);
    type_text(&mut a, "root");
    press(&mut a, Key::Esc);
    assert!(matches!(&a.mode, AppMode::EditHost { focused_field: HostField::User, field_buffer, editing_host, .. } if field_buffer.is_empty() && editing_host.user.is_none()));
    press(&mut a, Key::Down);
    press(&mut a, Key::Enter);
    type_text(&mut a, "2200");
    press(&mut a, Key::BackTab);
    assert!(matches!(&a.mode, AppMode::EditHost { focused_field: HostField::User, editing_host, .. } if editing_host.port == Some(2200)));
    press(&mut a, Key::Char('k'));
    press(&mut a, Key::Up);
    press(&mut a, Key::Up);
    assert!(matches!(&a.mode, AppMode::EditHost { focused_field: HostField::Note, .. }));
    press(&mut a, Key::Tab);
    assert!(matches!(&a.mode, AppMode::EditHost { focused_field: HostField::HostAlias, field_buffer, .. } if field_buffer == "jump"));
    assert_eq!(ctrl(&mut a, 's'), Ok(Effect::SaveAll));
    assert_eq!(a.mode, AppMode::Table);
    assert_eq!(a.hosts.len(), 4);
    assert_eq!(a.hosts[3].host, "jump");
    assert_eq!(a.hosts[3].hostname, "10.9.9.9");
    assert_eq!(a.hosts[3].port, Some(2200));
    assert_eq!(a.status_message, Some("Added host 'jump'".to_string()));
}

#[test]
fn saving_is_refused_or_fails() {
    let mut a = app();
    press(&mut a, Key::Char('n'));
    assert_eq!(ctrl(&mut a, 's'), Ok(Effect::Nothing));
    assert_eq!(a.error_message, Some("Host alias cannot be empty".to_string()));
    assert!(matches!(&a.mode, AppMode::EditHost { .. }));
    press(&mut a, Key::Esc);
    assert_eq!(a.mode, AppMode::Table);
    a.mode = AppMode::EditHost {
        host_index: Some(7),
        editing_host: Host::new("x".to_string(), "y".to_string()),
        focused_field: HostField::HostAlias,
        field_buffer: "x".to_string(),
        editing_mode: false,
    };
    assert_eq!(ctrl(&mut a, 's'), Err(ConfigError::IndexOutOfBounds));
    a.mode = AppMode::ConfirmDelete { host_index: 9 };
    assert_eq!(press(&mut a, Key::Enter), Effect::Nothing);
    assert_eq!(a.mode, AppMode::Table);
    a.ssh_config.hosts.clear();
    a.mode = AppMode::ConfirmDelete { host_index: 0 };
    assert_eq!(
        handle_input(&mut a, KeyPress { key: Key::Char('y'), control: false }, 0),
        Err(ConfigError::IndexOutOfBounds)
    );
}

#[test]
fn editing_and_deleting_the_selected_host() {
    let mut a = app();
    press(&mut a, Key::Char('G'));
    press(&mut a, Key::Char('e'));
    assert!(matches!(&a.mode, AppMode::EditHost { host_index: Some(0), field_buffer, .. } if field_buffer == "web"));
    press(&mut a, Key::Enter);
    type_text(&mut a, "2");
    assert_eq!(ctrl(&mut a, 's'), Ok(Effect::Nothing));
    assert!(matches!(&a.mode, AppMode::EditHost { editing_mode: true, field_buffer, .. } if field_buffer == "web2s"));
    press(&mut a, Key::Backspace);
    press(&mut a, Key::Enter);
    assert_eq!(ctrl(&mut a, 's'), Ok(Effect::SaveAll));
    assert_eq!(a.hosts[0].host, "web2");
    assert_eq!(a.status_message, Some("Updated host 'web2'".to_string()));
    press(&mut a, Key::Char('g'));
    press(&mut a, Key::Char('D'));
    assert_eq!(a.mode, AppMode::ConfirmDelete { host_index: 2 });
    press(&mut a, Key::Char('x'));
    assert_eq!(a.mode, AppMode::ConfirmDelete { host_index: 2 });
    press(&mut a, Key::Char('N'));
    assert_eq!(a.mode, AppMode::Table);
    press(&mut a, Key::Char('D'));
    assert_eq!(press(&mut a, Key::Char('Y')), Effect::SaveAll);
    assert_eq!(a.hosts.len(), 2);
    assert_eq!(a.status_message, Some("Deleted host 'cache'".to_string()));
}

#[test]
fn editors_of_the_special_fields() {
    let mut a = app();
    press(&mut a, Key::Char('e'));
    for _ in 0..4 {
        press(&mut a, Key::Char('j'));
    }
    let effect = press(&mut a, Key::Enter);
    match effect {
        Effect::ChooseKeys { host_index, editing_host, return_field } => {
            assert_eq!(host_index, Some(2));
            assert_eq!(return_field, HostField::IdentityFiles);
            a.start_key_selection(host_index, editing_host, return_field,
                vec!["~/.ssh/a".to_string(), "~/.ssh/b".to_string()]);
        }
        other => panic!("{:?}", other),
    }
    press(&mut a, Key::Char(' '));
    press(&mut a, Key::Down);
    press(&mut a, Key::Down);
    press(&mut a, Key::Enter);
    press(&mut a, Key::Up);
    press(&mut a, Key::Up);
    press(&mut a, Key::Char(' '));
    assert!(matches!(&a.mode, AppMode::SelectKeys { editing_host, selected_key_index: 0, .. } if editing_host.identity_file == Some(vec!["~/.ssh/b".to_string()])));
    press(&mut a, Key::Esc);
    assert!(matches!(&a.mode, AppMode::EditHost { focused_field: HostField::IdentityFiles, field_buffer, .. } if field_buffer == "~/.ssh/b"));

    press(&mut a, Key::Tab);
    press(&mut a, Key::Tab);
    assert_eq!(press(&mut a, Key::Enter), Effect::Nothing);
    assert!(matches!(&a.mode, AppMode::SelectSshFlags { selected_flag_index: 0, .. }));
    press(&mut a, Key::Char(' '));
    press(&mut a, Key::Char('j'));
    press(&mut a, Key::Enter);
    press(&mut a, Key::Char('k'));
    press(&mut a, Key::Enter);
    for _ in 0..20 {
        press(&mut a, Key::Down);
    }
    assert!(matches!(&a.mode, AppMode::SelectSshFlags { editing_host, selected_flag_index: 12, .. } if editing_host.ssh_flags == vec!["-A".to_string()]));
    press(&mut a, Key::Esc);
    assert!(matches!(&a.mode, AppMode::EditHost { field_buffer, .. } if field_buffer == "-A"));

    press(&mut a, Key::Down);
    press(&mut a, Key::Enter);
    press(&mut a, Key::Down);
    press(&mut a, Key::Char(' '));
    assert!(matches!(&a.mode, AppMode::SelectShell { editing_host, .. } if editing_host.shell == Some("zsh".to_string())));
    press(&mut a, Key::Char(' '));
    assert!(matches!(&a.mode, AppMode::SelectShell { editing_host, .. } if editing_host.shell.is_none()));
    press(&mut a, Key::Up);
    press(&mut a, Key::Enter);
    press(&mut a, Key::Esc);
    assert!(matches!(&a.mode, AppMode::EditHost { focused_field: HostField::Shell, field_buffer, .. } if field_buffer == "bash"));
}

#[test]
fn tags_of_a_host() {
    let mut a = app();
    press(&mut a, Key::Char('e'));
    press(&mut a, Key::Char('k'));
    press(&mut a, Key::Char('k'));
    press(&mut a, Key::Enter);
    assert!(matches!(&a.mode, AppMode::EditTags { input_mode: false, .. }));
    press(&mut a, Key::Char(' '));
    press(&mut a, Key::Char('j'));
    press(&mut a, Key::Char('j'));
    press(&mut a, Key::Enter);
    assert!(matches!(&a.mode, AppMode::EditTags { editing_host, selected_tag_index: 1, .. } if editing_host.tags == vec!["dev".to_string(), "prod".to_string()]));
    press(&mut a, Key::Char(' '));
    assert!(matches!(&a.mode, AppMode::EditTags { editing_host, .. } if editing_host.tags == vec!["dev".to_string()]));
    press(&mut a, Key::Char('a'));
    assert!(matches!(&a.mode, AppMode::EditTags { input_mode: true, .. }));
    type_text(&mut a, " newx");
    press(&mut a, Key::Backspace);
    assert_eq!(press(&mut a, Key::Enter), Effect::SaveMetadata);
    assert_eq!(a.all_tags(), vec!["dev", "new", "prod"]);
    assert!(matches!(&a.mode, AppMode::EditTags { input_mode: false, tag_input, .. } if tag_input.is_empty()));
    press(&mut a, Key::Char('n'));
    type_text(&mut a, "prod");
    assert_eq!(press(&mut a, Key::Enter), Effect::Nothing);
    press(&mut a, Key::Char('i'));
    assert_eq!(press(&mut a, Key::Enter), Effect::Nothing);
    assert!(matches!(&a.mode, AppMode::EditTags { input_mode: false, .. }));
    press(&mut a, Key::Char('i'));
    type_text(&mut a, "dropped");
    press(&mut a, Key::Esc);
    assert!(matches!(&a.mode, AppMode::EditTags { input_mode: false, tag_input, .. } if tag_input.is_empty()));
    assert_eq!(a.all_tags().len(), 3);
    press(&mut a, Key::Esc);
    assert!(matches!(&a.mode, AppMode::EditHost { focused_field: HostField::Tags, field_buffer, .. } if field_buffer == "dev"));
}

#[test]
fn typing_and_toggling() {
    assert_eq!(type_into("ab", Key::Char('c')), "abc");
    assert_eq!(type_into("ab", Key::Backspace), "a");
    assert_eq!(type_into("é", Key::Backspace), "");
    assert_eq!(type_into("", Key::Backspace), "");
    assert_eq!(type_into("ab", Key::Enter), "ab");
    let list = vec!["a".to_string(), "b".to_string(), "a".to_string()];
    assert_eq!(toggle(&list, "a"), vec!["b"]);
    assert_eq!(toggle(&list, "c"), vec!["a", "b", "a", "c"]);
    assert_eq!(toggle(&vec![], "x"), vec!["x"]);
}
