//! What a key does to the host list. The caller reads the keys and carries
//! out what is asked of it in return: writing files, listing keys, opening
//! another view.

use crate::app::{
    apply_field_buffer, editing_text, field_text, first_alias, get_field_value_for_editing,
    index_fits, paged_down, save_refusal, selected, shown_order, with_connection, with_deleted,
    with_field, with_saved, App, AppView,
};
use crate::models::app_state::{all_fields, AppMode, HostField, ModeView};
use crate::models::host::{Host, HostView};
use crate::models::ssh_options::{flag_names, get_shell_options, get_ssh_flag_options, shell_names};
use crate::ssh::config::ConfigError;
use crate::ssh::metadata::{with_tag, MetadataView};
use crate::text::{
    chars_of, copy_opt_strings, copy_str, copy_strings, has_string, slice_of, str_eq, string_of,
    trim, trim_ws, views, Class,
};
use vstd::prelude::*;

verus! {

/// A key of the keyboard.
#[derive(Debug, Clone, Copy, PartialEq, Eq, Structural)]
pub enum Key {
    Char(char),
    Enter,
    Esc,
    Tab,
    BackTab,
    Backspace,
    Up,
    Down,
    /// Any other key.
    Other,
}

/// A key that was pressed, and whether the control key was held with it.
#[derive(Debug, Clone, Copy, PartialEq, Eq, Structural)]
pub struct KeyPress {
    pub key: Key,
    pub control: bool,
}

/// What the caller is asked to do after a key.
#[derive(Debug, Clone, PartialEq, Eq)]
pub enum Effect {
    Nothing,
    /// Write the configuration and the metadata.
    SaveAll,
    /// Write the metadata.
    SaveMetadata,
    /// List the keys that can be chosen, and open the choice with them.
    ChooseKeys { host_index: Option<usize>, editing_host: Host, return_field: HostField },
    /// Open the view that copies files to or from the selected host.
    StartRsync,
    /// Open the view of the containers of the selected host.
    StartDockerMode,
}

/// What the caller is asked to do, as contracts see it.
pub enum EffectView {
    Nothing,
    SaveAll,
    SaveMetadata,
    ChooseKeys { host_index: Option<usize>, editing_host: HostView, return_field: HostField },
    StartRsync,
    StartDockerMode,
}

impl View for Effect {
    type V = EffectView;

    open spec fn view(&self) -> EffectView {
        match self {
            Effect::Nothing => EffectView::Nothing,
            Effect::SaveAll => EffectView::SaveAll,
            Effect::SaveMetadata => EffectView::SaveMetadata,
            Effect::ChooseKeys { host_index, editing_host, return_field } => EffectView::ChooseKeys {
                host_index: *host_index,
                editing_host: editing_host@,
                return_field: *return_field,
            },
            Effect::StartRsync => EffectView::StartRsync,
            Effect::StartDockerMode => EffectView::StartDockerMode,
        }
    }
}

/// The state after a key, and what the caller is asked to do.
pub struct Step {
    pub app: AppView,
    pub effect: EffectView,
}

/// A state in which nothing is asked of the caller.
pub open spec fn quiet(app: AppView) -> Step {
    Step { app, effect: EffectView::Nothing }
}

/// A text after a key was typed into it: with the character at its end, or
/// without its last character after a backspace.
pub open spec fn typed(text: Seq<char>, key: Key) -> Seq<char> {
    match key {
        Key::Char(c) => text.push(c),
        Key::Backspace => if text.len() > 0 {
            text.drop_last()
        } else {
            text
        },
        _ => text,
    }
}

/// The texts without the given one.
pub open spec fn without(list: Seq<Seq<char>>, item: Seq<char>) -> Seq<Seq<char>>
    decreases list.len(),
{
    if list.len() == 0 {
        Seq::empty()
    } else if list.last() == item {
        without(list.drop_last(), item)
    } else {
        without(list.drop_last(), item).push(list.last())
    }
}

/// The texts with the given one taken out where it was among them, and put at
/// the end where it was not.
pub open spec fn toggled(list: Seq<Seq<char>>, item: Seq<char>) -> Seq<Seq<char>> {
    if list.contains(item) {
        without(list, item)
    } else {
        list.push(item)
    }
}

/// The index after a step up.
pub open spec fn stepped_up(index: usize) -> usize {
    if index > 0 {
        (index - 1) as usize
    } else {
        index
    }
}

/// The index after a step down among `count` entries.
pub open spec fn stepped_down(index: usize, count: nat) -> usize {
    if index + 1 < count {
        (index + 1) as usize
    } else {
        index
    }
}

/// Whether a field has an editor of its own.
pub open spec fn has_editor(field: HostField) -> bool {
    field == HostField::IdentityFiles || field == HostField::SshFlags || field == HostField::Shell
        || field == HostField::Tags
}

/// The state in which the editor of a field is open for a host, and what is
/// asked of the caller: for the keys, to list them first.
pub open spec fn editor_opened(
    app: AppView,
    host_index: Option<usize>,
    h: HostView,
    field: HostField,
) -> Step {
    match field {
        HostField::IdentityFiles => Step {
            app,
            effect: EffectView::ChooseKeys { host_index, editing_host: h, return_field: field },
        },
        HostField::SshFlags => quiet(
            AppView {
                mode: ModeView::SelectSshFlags {
                    host_index,
                    editing_host: h,
                    selected_flag_index: 0,
                    return_field: field,
                },
                ..app
            },
        ),
        HostField::Shell => quiet(
            AppView {
                mode: ModeView::SelectShell {
                    host_index,
                    editing_host: h,
                    selected_shell_index: 0,
                    return_field: field,
                },
                ..app
            },
        ),
        _ => quiet(
            AppView {
                mode: ModeView::EditTags {
                    host_index,
                    editing_host: h,
                    tag_input: Seq::empty(),
                    selected_tag_index: 0,
                    return_field: field,
                    input_mode: false,
                },
                ..app
            },
        ),
    }
}

/// The form with the focus on a field and the text of that field.
pub open spec fn focused(
    app: AppView,
    host_index: Option<usize>,
    h: HostView,
    field: HostField,
) -> AppView {
    AppView {
        mode: ModeView::EditHost {
            host_index,
            editing_host: h,
            focused_field: field,
            field_buffer: editing_text(h, field),
            editing_mode: false,
        },
        ..app
    }
}

/// The field below.
pub open spec fn field_after(f: HostField) -> HostField {
    all_fields()[(f.position() + 1) % 10]
}

/// The field above.
pub open spec fn field_before(f: HostField) -> HostField {
    all_fields()[(f.position() + 9) % 10]
}

/// The state after what is kept of a save of the host `h`.
pub open spec fn saved(app: AppView, h: HostView, replaced: Option<usize>) -> Step {
    match save_refusal(app, h, replaced) {
        Some(why) => quiet(AppView { error_message: Some(why), ..app }),
        None => Step { app: with_saved(app, h, replaced), effect: EffectView::SaveAll },
    }
}

/// What a key does in the form of a host. While a field is typed into, Enter
/// takes the text, Esc drops it, and Tab takes it and moves on; else the
/// arrows and Tab move between the fields, Enter begins to type or opens the
/// editor of the field, Ctrl-S saves, and Esc leaves.
pub open spec fn edit_key(app: AppView, press: KeyPress) -> Step {
    match app.mode {
        ModeView::EditHost { host_index, editing_host, focused_field, field_buffer, editing_mode } => {
            let h = editing_host;
            let f = focused_field;
            let applied = with_field(h, f, field_buffer);
            let mode_with = |h2: HostView, b: Seq<char>, e: bool|
                AppView {
                    mode: ModeView::EditHost {
                        host_index,
                        editing_host: h2,
                        focused_field: f,
                        field_buffer: b,
                        editing_mode: e,
                    },
                    ..app
                };
            if editing_mode {
                match press.key {
                    Key::Enter => if has_editor(f) {
                        editor_opened(mode_with(applied, field_buffer, true), host_index, applied, f)
                    } else {
                        quiet(mode_with(applied, field_buffer, false))
                    },
                    Key::Esc => quiet(mode_with(h, editing_text(h, f), false)),
                    Key::Tab => quiet(focused(app, host_index, applied, field_after(f))),
                    Key::BackTab => quiet(focused(app, host_index, applied, field_before(f))),
                    Key::Char(c) => quiet(mode_with(h, typed(field_buffer, press.key), true)),
                    Key::Backspace => quiet(mode_with(h, typed(field_buffer, press.key), true)),
                    _ => quiet(app),
                }
            } else {
                if press.key == Key::Char('j') || press.key == Key::Down || press.key == Key::Tab {
                    quiet(focused(app, host_index, h, field_after(f)))
                } else if press.key == Key::Char('k') || press.key == Key::Up || press.key
                    == Key::BackTab {
                    quiet(focused(app, host_index, h, field_before(f)))
                } else if press.key == Key::Enter {
                    if has_editor(f) {
                        editor_opened(mode_with(applied, field_buffer, false), host_index, applied, f)
                    } else {
                        quiet(mode_with(h, field_buffer, true))
                    }
                } else if press.key == Key::Char('s') && press.control {
                    saved(mode_with(applied, field_buffer, false), applied, host_index)
                } else if press.key == Key::Esc {
                    quiet(AppView { mode: ModeView::Table, ..app })
                } else {
                    quiet(app)
                }
            }
        },
        _ => quiet(app),
    }
}

/// What a key does in the table of hosts.
pub open spec fn table_key(app: AppView, press: KeyPress, now: i64) -> Step {
    let count = shown_order(app).len();
    match press.key {
        Key::Down => quiet(
            AppView { selected_index: stepped_down(app.selected_index, count), ..app },
        ),
        Key::Up => quiet(AppView { selected_index: stepped_up(app.selected_index), ..app }),
        Key::Enter => Step {
            app: with_connection(app, now),
            effect: if selected(app) is Some {
                EffectView::SaveMetadata
            } else {
                EffectView::Nothing
            },
        },
        Key::Esc => quiet(AppView { should_quit: true, ..app }),
        Key::Char(c) => if c == 'j' {
            quiet(AppView { selected_index: stepped_down(app.selected_index, count), ..app })
        } else if c == 'k' {
            quiet(AppView { selected_index: stepped_up(app.selected_index), ..app })
        } else if c == 'g' {
            quiet(AppView { selected_index: 0, ..app })
        } else if c == 'G' {
            quiet(
                AppView {
                    selected_index: if count > 0 {
                        (count - 1) as usize
                    } else {
                        app.selected_index
                    },
                    ..app
                },
            )
        } else if c == 'd' && press.control {
            quiet(AppView { selected_index: paged_down(app.selected_index, 10, count), ..app })
        } else if c == 'u' && press.control {
            quiet(
                AppView {
                    selected_index: if app.selected_index >= 10 {
                        (app.selected_index - 10) as usize
                    } else {
                        0
                    },
                    ..app
                },
            )
        } else if c == ' ' {
            Step {
                app: with_connection(app, now),
                effect: if selected(app) is Some {
                    EffectView::SaveMetadata
                } else {
                    EffectView::Nothing
                },
            }
        } else if c == 'r' {
            Step { app, effect: EffectView::StartRsync }
        } else if c == 'n' {
            quiet(
                focused(
                    app,
                    None,
                    crate::models::host::blank_host(Seq::empty(), Seq::empty()),
                    HostField::HostAlias,
                ),
            )
        } else if c == 'e' {
            match selected(app) {
                Some(h) => quiet(
                    AppView {
                        mode: ModeView::EditHost {
                            host_index: Some(first_alias(app.hosts, h.host) as usize),
                            editing_host: h,
                            focused_field: HostField::HostAlias,
                            field_buffer: h.host,
                            editing_mode: false,
                        },
                        ..app
                    },
                ),
                None => quiet(app),
            }
        } else if c == 'D' {
            match selected(app) {
                Some(h) => quiet(
                    AppView {
                        mode: ModeView::ConfirmDelete {
                            host_index: first_alias(app.hosts, h.host) as usize,
                        },
                        ..app
                    },
                ),
                None => quiet(app),
            }
        } else if c == 'd' {
            Step { app, effect: EffectView::StartDockerMode }
        } else if c == '/' {
            quiet(AppView { mode: ModeView::Search { query: app.search_query }, ..app })
        } else if c == 't' {
            quiet(
                AppView {
                    mode: ModeView::TagFilter { selected_tags: app.active_tag_filters },
                    ..app
                },
            )
        } else if c == 's' {
            let next = crate::models::app_state::all_orders()[(app.sort_by.position() + 1) % 4];
            quiet(
                AppView {
                    sort_by: next,
                    selected_index: 0,
                    status_message: Some("Sorting by: "@ + next.label_text()),
                    ..app
                },
            )
        } else if c == '?' {
            quiet(AppView { mode: ModeView::Help, ..app })
        } else if c == 'q' {
            quiet(AppView { should_quit: true, ..app })
        } else {
            quiet(app)
        },
        _ => quiet(app),
    }
}

/// What a key does in the search line, in the choice of tags to filter by,
/// and before the question whether to delete.
pub open spec fn simple_key(app: AppView, press: KeyPress) -> Step {
    match app.mode {
        ModeView::Search { query } => match press.key {
            Key::Enter => quiet(
                AppView { search_query: query, selected_index: 0, mode: ModeView::Table, ..app },
            ),
            Key::Esc => quiet(AppView { mode: ModeView::Table, ..app }),
            Key::Char(c) => quiet(
                AppView { mode: ModeView::Search { query: typed(query, press.key) }, ..app },
            ),
            Key::Backspace => quiet(
                AppView { mode: ModeView::Search { query: typed(query, press.key) }, ..app },
            ),
            _ => quiet(app),
        },
        ModeView::TagFilter { selected_tags } => match press.key {
            Key::Enter => quiet(
                AppView {
                    active_tag_filters: selected_tags,
                    selected_index: 0,
                    mode: ModeView::Table,
                    ..app
                },
            ),
            Key::Esc => quiet(AppView { mode: ModeView::Table, ..app }),
            _ => quiet(app),
        },
        ModeView::ConfirmDelete { host_index } => if press.key == Key::Char('y') || press.key
            == Key::Char('Y') || press.key == Key::Enter {
            if host_index < app.hosts.len() {
                Step { app: with_deleted(app, host_index), effect: EffectView::SaveAll }
            } else {
                quiet(AppView { mode: ModeView::Table, ..app })
            }
        } else if press.key == Key::Char('n') || press.key == Key::Char('N') || press.key
            == Key::Esc {
            quiet(AppView { mode: ModeView::Table, ..app })
        } else {
            quiet(app)
        },
        ModeView::Help => quiet(AppView { mode: ModeView::Table, ..app }),
        _ => quiet(app),
    }
}

/// The keys of a host, none where there are none set.
pub open spec fn keys_or_none(keys: Option<Seq<Seq<char>>>) -> Seq<Seq<char>> {
    match keys {
        Some(k) => k,
        None => Seq::empty(),
    }
}

/// Whether a key steps up in a list.
pub open spec fn is_up(key: Key) -> bool {
    key == Key::Up || key == Key::Char('k')
}

/// Whether a key steps down in a list.
pub open spec fn is_down(key: Key) -> bool {
    key == Key::Down || key == Key::Char('j')
}

/// Whether a key picks the entry of a list.
pub open spec fn is_pick(key: Key) -> bool {
    key == Key::Char(' ') || key == Key::Enter
}

/// What a key does in the choice of keys, of SSH flags and of a shell: the
/// arrows move, the space bar and Enter pick or drop the entry, and Esc goes
/// back to the form.
pub open spec fn choice_key(app: AppView, press: KeyPress) -> Step {
    let key = press.key;
    match app.mode {
        ModeView::SelectKeys {
            host_index,
            editing_host,
            available_keys,
            selected_key_index,
            return_field,
        } => {
            let at = |h: HostView, i: usize|
                quiet(
                    AppView {
                        mode: ModeView::SelectKeys {
                            host_index,
                            editing_host: h,
                            available_keys,
                            selected_key_index: i,
                            return_field,
                        },
                        ..app
                    },
                );
            if is_up(key) {
                at(editing_host, stepped_up(selected_key_index))
            } else if is_down(key) {
                at(editing_host, stepped_down(selected_key_index, available_keys.len()))
            } else if is_pick(key) {
                if selected_key_index < available_keys.len() {
                    at(
                        HostView {
                            identity_file: Some(
                                toggled(
                                    keys_or_none(editing_host.identity_file),
                                    available_keys[selected_key_index as int],
                                ),
                            ),
                            ..editing_host
                        },
                        selected_key_index,
                    )
                } else {
                    quiet(app)
                }
            } else if key == Key::Esc {
                quiet(focused_on(app, host_index, editing_host, return_field))
            } else {
                quiet(app)
            }
        },
        ModeView::SelectSshFlags { host_index, editing_host, selected_flag_index, return_field } => {
            let at = |h: HostView, i: usize|
                quiet(
                    AppView {
                        mode: ModeView::SelectSshFlags {
                            host_index,
                            editing_host: h,
                            selected_flag_index: i,
                            return_field,
                        },
                        ..app
                    },
                );
            if is_up(key) {
                at(editing_host, stepped_up(selected_flag_index))
            } else if is_down(key) {
                at(editing_host, stepped_down(selected_flag_index, flag_names().len()))
            } else if is_pick(key) {
                if selected_flag_index < flag_names().len() {
                    at(
                        HostView {
                            ssh_flags: toggled(
                                editing_host.ssh_flags,
                                flag_names()[selected_flag_index as int],
                            ),
                            ..editing_host
                        },
                        selected_flag_index,
                    )
                } else {
                    quiet(app)
                }
            } else if key == Key::Esc {
                quiet(focused_on(app, host_index, editing_host, return_field))
            } else {
                quiet(app)
            }
        },
        ModeView::SelectShell { host_index, editing_host, selected_shell_index, return_field } => {
            let at = |h: HostView, i: usize|
                quiet(
                    AppView {
                        mode: ModeView::SelectShell {
                            host_index,
                            editing_host: h,
                            selected_shell_index: i,
                            return_field,
                        },
                        ..app
                    },
                );
            if is_up(key) {
                at(editing_host, stepped_up(selected_shell_index))
            } else if is_down(key) {
                at(editing_host, stepped_down(selected_shell_index, shell_names().len()))
            } else if is_pick(key) {
                if selected_shell_index < shell_names().len() {
                    let shell = shell_names()[selected_shell_index as int];
                    at(
                        HostView {
                            shell: if editing_host.shell == Some(shell) {
                                None
                            } else {
                                Some(shell)
                            },
                            ..editing_host
                        },
                        selected_shell_index,
                    )
                } else {
                    quiet(app)
                }
            } else if key == Key::Esc {
                quiet(focused_on(app, host_index, editing_host, return_field))
            } else {
                quiet(app)
            }
        },
        _ => quiet(app),
    }
}

/// The form with the focus on a field and the text of that field as the form
/// shows it.
pub open spec fn focused_on(
    app: AppView,
    host_index: Option<usize>,
    h: HostView,
    field: HostField,
) -> AppView {
    AppView {
        mode: ModeView::EditHost {
            host_index,
            editing_host: h,
            focused_field: field,
            field_buffer: field_text(h, field),
            editing_mode: false,
        },
        ..app
    }
}

/// What a key does in the tags of a host. While a tag is typed, Enter offers
/// it to all hosts unless it is offered already, and Esc drops it; else the
/// arrows move, the space bar and Enter give the tag to the host or take it
/// away, `a`, `n` and `i` begin a new tag, and Esc goes back to the form.
pub open spec fn tags_key(app: AppView, press: KeyPress) -> Step {
    let key = press.key;
    let offered = app.metadata.global_tags;
    match app.mode {
        ModeView::EditTags {
            host_index,
            editing_host,
            tag_input,
            selected_tag_index,
            return_field,
            input_mode,
        } => {
            let with = |h: HostView, t: Seq<char>, i: usize, m: bool|
                AppView {
                    mode: ModeView::EditTags {
                        host_index,
                        editing_host: h,
                        tag_input: t,
                        selected_tag_index: i,
                        return_field,
                        input_mode: m,
                    },
                    ..app
                };
            if input_mode {
                match key {
                    Key::Enter => if tag_input.len() > 0 {
                        let tag = trim(tag_input, Class::Space);
                        let cleared = with(editing_host, Seq::empty(), selected_tag_index, false);
                        if offered.contains(tag) {
                            quiet(cleared)
                        } else {
                            Step {
                                app: AppView {
                                    metadata: MetadataView {
                                        global_tags: with_tag(offered, tag),
                                        ..app.metadata
                                    },
                                    ..cleared
                                },
                                effect: EffectView::SaveMetadata,
                            }
                        }
                    } else {
                        quiet(with(editing_host, tag_input, selected_tag_index, false))
                    },
                    Key::Esc => quiet(with(editing_host, Seq::empty(), selected_tag_index, false)),
                    Key::Char(c) => quiet(
                        with(editing_host, typed(tag_input, key), selected_tag_index, true),
                    ),
                    Key::Backspace => quiet(
                        with(editing_host, typed(tag_input, key), selected_tag_index, true),
                    ),
                    _ => quiet(app),
                }
            } else {
                if is_up(key) {
                    quiet(with(editing_host, tag_input, stepped_up(selected_tag_index), false))
                } else if is_down(key) {
                    quiet(
                        with(
                            editing_host,
                            tag_input,
                            stepped_down(selected_tag_index, offered.len()),
                            false,
                        ),
                    )
                } else if is_pick(key) {
                    if selected_tag_index < offered.len() {
                        quiet(
                            with(
                                HostView {
                                    tags: toggled(
                                        editing_host.tags,
                                        offered[selected_tag_index as int],
                                    ),
                                    ..editing_host
                                },
                                tag_input,
                                selected_tag_index,
                                false,
                            ),
                        )
                    } else {
                        quiet(app)
                    }
                } else if key == Key::Char('a') || key == Key::Char('n') || key == Key::Char('i') {
                    quiet(with(editing_host, tag_input, selected_tag_index, true))
                } else if key == Key::Esc {
                    quiet(focused_on(app, host_index, editing_host, return_field))
                } else {
                    quiet(app)
                }
            }
        },
        _ => quiet(app),
    }
}

/// What a key does: the messages are taken away, and the key goes to what
/// is shown.
pub open spec fn after_key(app: AppView, press: KeyPress, now: i64) -> Step {
    let clean = AppView { status_message: None, error_message: None, ..app };
    match app.mode {
        ModeView::Table => table_key(clean, press, now),
        ModeView::EditHost { .. } => edit_key(clean, press),
        ModeView::SelectKeys { .. } => choice_key(clean, press),
        ModeView::SelectSshFlags { .. } => choice_key(clean, press),
        ModeView::SelectShell { .. } => choice_key(clean, press),
        ModeView::EditTags { .. } => tags_key(clean, press),
        _ => simple_key(clean, press),
    }
}

/// Whether a key asks to put a host in place of one that is not there: the
/// form is saved for an index at which the list or the configuration has no
/// host, or a host is to be deleted that the configuration does not have.
pub open spec fn key_fails(app: AppView, press: KeyPress) -> bool {
    match app.mode {
        ModeView::EditHost { host_index, editing_host, focused_field, field_buffer, editing_mode } => {
            let applied = with_field(editing_host, focused_field, field_buffer);
            !editing_mode && press.key == Key::Char('s') && press.control && save_refusal(
                app,
                applied,
                host_index,
            ) is None && !index_fits(app, host_index)
        },
        ModeView::ConfirmDelete { host_index } => (press.key == Key::Char('y') || press.key
            == Key::Char('Y') || press.key == Key::Enter) && host_index < app.hosts.len()
            && host_index >= app.ssh_config.hosts.len(),
        _ => false,
    }
}

/// The text after the key was typed into it.
pub fn type_into(text: &str, key: Key) -> (r: String)
    ensures
        r@ == typed(text@, key),
{
    match key {
        Key::Char(c) => {
            let mut v = chars_of(text);
            v.push(c);
            string_of(&v)
        },
        Key::Backspace => {
            let v = chars_of(text);
            if v.len() > 0 {
                string_of(&slice_of(&v, 0, v.len() - 1))
            } else {
                copy_str(text)
            }
        },
        _ => copy_str(text),
    }
}

/// The strings with the given one taken out where it was among them, and put
/// at the end where it was not.
pub fn toggle(list: &Vec<String>, item: &str) -> (r: Vec<String>)
    ensures
        views(r@) == toggled(views(list@), item@),
{
    if has_string(list, item) {
        let mut out: Vec<String> = Vec::new();
        let mut i: usize = 0;
        assert(views(list@).take(0) == Seq::<Seq<char>>::empty());
        while i < list.len()
            invariant
                i <= list.len(),
                views(out@) == without(views(list@).take(i as int), item@),
            decreases list.len() - i,
        {
            let ghost before = views(out@);
            assert(views(list@).take(i + 1).drop_last() == views(list@).take(i as int));
            assert(views(list@).take(i + 1).last() == list@[i as int]@);
            if !str_eq(list[i].as_str(), item) {
                out.push(list[i].clone());
                assert(views(out@) == before.push(list@[i as int]@));
            }
            i += 1;
        }
        assert(views(list@).take(list.len() as int) == views(list@));
        out
    } else {
        let mut out = copy_strings(list);
        let ghost before = views(out@);
        out.push(copy_str(item));
        assert(views(out@) == before.push(item@));
        out
    }
}

fn step_up(index: usize) -> (r: usize)
    ensures
        r == stepped_up(index),
{
    if index > 0 {
        index - 1
    } else {
        index
    }
}

fn step_down(index: usize, count: usize) -> (r: usize)
    ensures
        r == stepped_down(index, count as nat),
{
    if index < usize::MAX && index + 1 < count {
        index + 1
    } else {
        index
    }
}

fn key_is_up(key: Key) -> (r: bool)
    ensures
        r == is_up(key),
{
    match key {
        Key::Up => true,
        Key::Char(c) => c == 'k',
        _ => false,
    }
}

fn key_is_down(key: Key) -> (r: bool)
    ensures
        r == is_down(key),
{
    match key {
        Key::Down => true,
        Key::Char(c) => c == 'j',
        _ => false,
    }
}

fn key_is_pick(key: Key) -> (r: bool)
    ensures
        r == is_pick(key),
{
    match key {
        Key::Enter => true,
        Key::Char(c) => c == ' ',
        _ => false,
    }
}

fn key_is_char(key: Key, c: char) -> (r: bool)
    ensures
        r == (key == Key::Char(c)),
{
    match key {
        Key::Char(d) => d == c,
        _ => false,
    }
}

fn field_has_editor(field: HostField) -> (r: bool)
    ensures
        r == has_editor(field),
{
    match field {
        HostField::IdentityFiles => true,
        HostField::SshFlags => true,
        HostField::Shell => true,
        HostField::Tags => true,
        _ => false,
    }
}

/// Opens the editor of a field for the host.
fn open_editor(app: &mut App, host_index: Option<usize>, host: Host, field: HostField) -> (r: Effect)
    requires
        has_editor(field),
    ensures
        final(app)@ == editor_opened(old(app)@, host_index, host@, field).app,
        r@ == editor_opened(old(app)@, host_index, host@, field).effect,
{
    match field {
        HostField::IdentityFiles => Effect::ChooseKeys {
            host_index,
            editing_host: host,
            return_field: field,
        },
        HostField::SshFlags => {
            app.start_ssh_flags_selection(host_index, host, field);
            Effect::Nothing
        },
        HostField::Shell => {
            app.start_shell_selection(host_index, host, field);
            Effect::Nothing
        },
        _ => {
            app.start_tag_editing(host_index, host, field);
            Effect::Nothing
        },
    }
}

/// Puts the focus of the form on a field.
fn focus(app: &mut App, host_index: Option<usize>, host: Host, field: HostField)
    ensures
        final(app)@ == focused(old(app)@, host_index, host@, field),
{
    let field_buffer = get_field_value_for_editing(&host, &field);
    app.mode = AppMode::EditHost {
        host_index,
        editing_host: host,
        focused_field: field,
        field_buffer,
        editing_mode: false,
    };
}

fn handle_edit(
    app: &mut App,
    host_index: Option<usize>,
    editing_host: Host,
    focused_field: HostField,
    field_buffer: String,
    editing_mode: bool,
    press: KeyPress,
) -> (r: Result<Effect, ConfigError>)
    ensures
        ({
            let before = AppView {
                mode: ModeView::EditHost {
                    host_index,
                    editing_host: editing_host@,
                    focused_field,
                    field_buffer: field_buffer@,
                    editing_mode,
                },
                ..old(app)@
            };
            &&& r is Err <==> key_fails(before, press)
            &&& r matches Ok(e) ==> final(app)@ == edit_key(before, press).app && e@ == edit_key(
                before,
                press,
            ).effect
        }),
{
    let ghost before = AppView {
        mode: ModeView::EditHost {
            host_index,
            editing_host: editing_host@,
            focused_field,
            field_buffer: field_buffer@,
            editing_mode,
        },
        ..app@
    };
    let mut host = editing_host;
    let f = focused_field;
    if editing_mode {
        match press.key {
            Key::Enter => {
                apply_field_buffer(&mut host, &f, field_buffer.as_str());
                if field_has_editor(f) {
                    let copy = host.duplicate();
                    app.mode = AppMode::EditHost {
                        host_index,
                        editing_host: host,
                        focused_field: f,
                        field_buffer,
                        editing_mode: true,
                    };
                    Ok(open_editor(app, host_index, copy, f))
                } else {
                    app.mode = AppMode::EditHost {
                        host_index,
                        editing_host: host,
                        focused_field: f,
                        field_buffer,
                        editing_mode: false,
                    };
                    Ok(Effect::Nothing)
                }
            },
            Key::Esc => {
                let restored = get_field_value_for_editing(&host, &f);
                app.mode = AppMode::EditHost {
                    host_index,
                    editing_host: host,
                    focused_field: f,
                    field_buffer: restored,
                    editing_mode: false,
                };
                Ok(Effect::Nothing)
            },
            Key::Tab => {
                apply_field_buffer(&mut host, &f, field_buffer.as_str());
                focus(app, host_index, host, f.next());
                Ok(Effect::Nothing)
            },
            Key::BackTab => {
                apply_field_buffer(&mut host, &f, field_buffer.as_str());
                focus(app, host_index, host, f.previous());
                Ok(Effect::Nothing)
            },
            Key::Char(_) | Key::Backspace => {
                let buffer = type_into(field_buffer.as_str(), press.key);
                app.mode = AppMode::EditHost {
                    host_index,
                    editing_host: host,
                    focused_field: f,
                    field_buffer: buffer,
                    editing_mode: true,
                };
                Ok(Effect::Nothing)
            },
            _ => {
                app.mode = AppMode::EditHost {
                    host_index,
                    editing_host: host,
                    focused_field: f,
                    field_buffer,
                    editing_mode,
                };
                Ok(Effect::Nothing)
            },
        }
    } else {
        let key = press.key;
        if key_is_down(key) || key == Key::Tab {
            focus(app, host_index, host, f.next());
            Ok(Effect::Nothing)
        } else if key_is_up(key) || key == Key::BackTab {
            focus(app, host_index, host, f.previous());
            Ok(Effect::Nothing)
        } else if key == Key::Enter {
            if field_has_editor(f) {
                apply_field_buffer(&mut host, &f, field_buffer.as_str());
                let copy = host.duplicate();
                app.mode = AppMode::EditHost {
                    host_index,
                    editing_host: host,
                    focused_field: f,
                    field_buffer,
                    editing_mode: false,
                };
                Ok(open_editor(app, host_index, copy, f))
            } else {
                app.mode = AppMode::EditHost {
                    host_index,
                    editing_host: host,
                    focused_field: f,
                    field_buffer,
                    editing_mode: true,
                };
                Ok(Effect::Nothing)
            }
        } else if key_is_char(key, 's') && press.control {
            apply_field_buffer(&mut host, &f, field_buffer.as_str());
            let copy = host.duplicate();
            app.mode = AppMode::EditHost {
                host_index,
                editing_host: host,
                focused_field: f,
                field_buffer,
                editing_mode: false,
            };
            match app.save_edited_host(copy, host_index) {
                Ok(true) => Ok(Effect::SaveAll),
                Ok(false) => Ok(Effect::Nothing),
                Err(e) => Err(e),
            }
        } else if key == Key::Esc {
            app.mode = AppMode::Table;
            Ok(Effect::Nothing)
        } else {
            app.mode = AppMode::EditHost {
                host_index,
                editing_host: host,
                focused_field: f,
                field_buffer,
                editing_mode,
            };
            Ok(Effect::Nothing)
        }
    }
}

fn handle_table(app: &mut App, press: KeyPress, now: i64) -> (r: Effect)
    requires
        old(app)@.mode is Table,
    ensures
        final(app)@ == table_key(old(app)@, press, now).app,
        r@ == table_key(old(app)@, press, now).effect,
{
    match press.key {
        Key::Down => {
            app.select_next();
            Effect::Nothing
        },
        Key::Up => {
            app.select_previous();
            Effect::Nothing
        },
        Key::Enter => {
            if app.connect_to_selected_at(now) {
                Effect::SaveMetadata
            } else {
                Effect::Nothing
            }
        },
        Key::Esc => {
            app.quit();
            Effect::Nothing
        },
        Key::Char(c) => {
            if c == 'j' {
                app.select_next();
                Effect::Nothing
            } else if c == 'k' {
                app.select_previous();
                Effect::Nothing
            } else if c == 'g' {
                app.select_first();
                Effect::Nothing
            } else if c == 'G' {
                app.select_last();
                Effect::Nothing
            } else if c == 'd' && press.control {
                app.page_down(10);
                Effect::Nothing
            } else if c == 'u' && press.control {
                app.page_up(10);
                Effect::Nothing
            } else if c == ' ' {
                if app.connect_to_selected_at(now) {
                    Effect::SaveMetadata
                } else {
                    Effect::Nothing
                }
            } else if c == 'r' {
                Effect::StartRsync
            } else if c == 'n' {
                app.start_new_host();
                Effect::Nothing
            } else if c == 'e' {
                app.start_edit_host();
                Effect::Nothing
            } else if c == 'D' {
                app.start_delete_host();
                Effect::Nothing
            } else if c == 'd' {
                Effect::StartDockerMode
            } else if c == '/' {
                app.start_search();
                Effect::Nothing
            } else if c == 't' {
                app.start_tag_filter();
                Effect::Nothing
            } else if c == 's' {
                app.cycle_sort();
                Effect::Nothing
            } else if c == '?' {
                app.show_help();
                Effect::Nothing
            } else if c == 'q' {
                app.quit();
                Effect::Nothing
            } else {
                Effect::Nothing
            }
        },
        _ => Effect::Nothing,
    }
}

fn handle_choice(app: &mut App, mode: AppMode, press: KeyPress) -> (r: Effect)
    requires
        mode@ is SelectKeys || mode@ is SelectSshFlags || mode@ is SelectShell,
    ensures
        final(app)@ == choice_key(AppView { mode: mode@, ..old(app)@ }, press).app,
        r@ == choice_key(AppView { mode: mode@, ..old(app)@ }, press).effect,
{
    let key = press.key;
    match mode {
        AppMode::SelectKeys {
            host_index,
            editing_host,
            available_keys,
            selected_key_index,
            return_field,
        } => {
            let mut host = editing_host;
            let mut index = selected_key_index;
            assert(views(available_keys@).len() == available_keys.len());
            if key_is_up(key) {
                index = step_up(index);
            } else if key_is_down(key) {
                index = step_down(index, available_keys.len());
            } else if key_is_pick(key) {
                if index < available_keys.len() {
                    assert(views(available_keys@)[index as int] == available_keys@[index as int]@);
                    let current = match copy_opt_strings(&host.identity_file) {
                        Some(k) => k,
                        None => Vec::new(),
                    };
                    assert(views(current@) == keys_or_none(host@.identity_file));
                    host.identity_file = Some(toggle(&current, available_keys[index].as_str()));
                }
            } else if key == Key::Esc {
                app.return_to_edit(host_index, host, return_field);
                return Effect::Nothing;
            }
            app.mode = AppMode::SelectKeys {
                host_index,
                editing_host: host,
                available_keys,
                selected_key_index: index,
                return_field,
            };
            Effect::Nothing
        },
        AppMode::SelectSshFlags { host_index, editing_host, selected_flag_index, return_field } => {
            let flags = get_ssh_flag_options();
            let mut host = editing_host;
            let mut index = selected_flag_index;
            if key_is_up(key) {
                index = step_up(index);
            } else if key_is_down(key) {
                index = step_down(index, flags.len());
            } else if key_is_pick(key) {
                if index < flags.len() {
                    host.ssh_flags = toggle(&host.ssh_flags, flags[index].flag);
                }
            } else if key == Key::Esc {
                app.return_to_edit(host_index, host, return_field);
                return Effect::Nothing;
            }
            app.mode = AppMode::SelectSshFlags {
                host_index,
                editing_host: host,
                selected_flag_index: index,
                return_field,
            };
            Effect::Nothing
        },
        AppMode::SelectShell { host_index, editing_host, selected_shell_index, return_field } => {
            let shells = get_shell_options();
            let mut host = editing_host;
            let mut index = selected_shell_index;
            if key_is_up(key) {
                index = step_up(index);
            } else if key_is_down(key) {
                index = step_down(index, shells.len());
            } else if key_is_pick(key) {
                if index < shells.len() {
                    let name = shells[index].name;
                    let same = match &host.shell {
                        Some(s) => str_eq(s.as_str(), name),
                        None => false,
                    };
                    if same {
                        host.shell = None;
                    } else {
                        host.shell = Some(copy_str(name));
                    }
                }
            } else if key == Key::Esc {
                app.return_to_edit(host_index, host, return_field);
                return Effect::Nothing;
            }
            app.mode = AppMode::SelectShell {
                host_index,
                editing_host: host,
                selected_shell_index: index,
                return_field,
            };
            Effect::Nothing
        },
        _ => Effect::Nothing,
    }
}

fn handle_tags(
    app: &mut App,
    host_index: Option<usize>,
    editing_host: Host,
    tag_input: String,
    selected_tag_index: usize,
    return_field: HostField,
    input_mode: bool,
    press: KeyPress,
) -> (r: Effect)
    ensures
        ({
            let before = AppView {
                mode: ModeView::EditTags {
                    host_index,
                    editing_host: editing_host@,
                    tag_input: tag_input@,
                    selected_tag_index,
                    return_field,
                    input_mode,
                },
                ..old(app)@
            };
            final(app)@ == tags_key(before, press).app && r@ == tags_key(before, press).effect
        }),
{
    let key = press.key;
    let offered = app.all_tags();
    assert(views(offered@).len() == offered.len());
    let mut host = editing_host;
    let mut input = tag_input;
    let mut index = selected_tag_index;
    let mut typing = input_mode;
    let mut effect = Effect::Nothing;
    if input_mode {
        match key {
            Key::Enter => {
                if !input.as_str().is_empty() {
                    let tag = string_of(&trim_ws(&chars_of(input.as_str())));
                    if !has_string(&offered, tag.as_str()) {
                        app.add_global_tag(tag);
                        effect = Effect::SaveMetadata;
                    }
                    input = String::new();
                }
                typing = false;
            },
            Key::Esc => {
                input = String::new();
                typing = false;
            },
            Key::Char(_) | Key::Backspace => {
                input = type_into(input.as_str(), key);
            },
            _ => {},
        }
    } else {
        if key_is_up(key) {
            index = step_up(index);
        } else if key_is_down(key) {
            index = step_down(index, offered.len());
        } else if key_is_pick(key) {
            if index < offered.len() {
                assert(views(offered@)[index as int] == offered@[index as int]@);
                host.tags = toggle(&host.tags, offered[index].as_str());
            }
        } else if key_is_char(key, 'a') || key_is_char(key, 'n') || key_is_char(key, 'i') {
            typing = true;
        } else if key == Key::Esc {
            app.return_to_edit(host_index, host, return_field);
            return Effect::Nothing;
        }
    }
    app.mode = AppMode::EditTags {
        host_index,
        editing_host: host,
        tag_input: input,
        selected_tag_index: index,
        return_field,
        input_mode: typing,
    };
    effect
}

fn handle_simple(app: &mut App, mode: AppMode, press: KeyPress) -> (r: Result<Effect, ConfigError>)
    requires
        mode@ is Search || mode@ is TagFilter || mode@ is ConfirmDelete || mode@ is Help,
    ensures
        r is Err <==> key_fails(AppView { mode: mode@, ..old(app)@ }, press),
        r matches Ok(e) ==> final(app)@ == simple_key(AppView { mode: mode@, ..old(app)@ }, press).app
            && e@ == simple_key(AppView { mode: mode@, ..old(app)@ }, press).effect,
{
    let key = press.key;
    match mode {
        AppMode::Search { query } => {
            match key {
                Key::Enter => {
                    app.apply_search(query);
                },
                Key::Esc => {
                    app.mode = AppMode::Table;
                },
                Key::Char(_) | Key::Backspace => {
                    app.mode = AppMode::Search { query: type_into(query.as_str(), key) };
                },
                _ => {
                    app.mode = AppMode::Search { query };
                },
            }
            Ok(Effect::Nothing)
        },
        AppMode::TagFilter { selected_tags } => {
            match key {
                Key::Enter => {
                    app.apply_tag_filter(selected_tags);
                },
                Key::Esc => {
                    app.mode = AppMode::Table;
                },
                _ => {
                    app.mode = AppMode::TagFilter { selected_tags };
                },
            }
            Ok(Effect::Nothing)
        },
        AppMode::ConfirmDelete { host_index } => {
            if key_is_char(key, 'y') || key_is_char(key, 'Y') || key == Key::Enter {
                app.mode = AppMode::ConfirmDelete { host_index };
                match app.delete_host(host_index) {
                    Ok(true) => Ok(Effect::SaveAll),
                    Ok(false) => Ok(Effect::Nothing),
                    Err(e) => Err(e),
                }
            } else if key_is_char(key, 'n') || key_is_char(key, 'N') || key == Key::Esc {
                app.mode = AppMode::Table;
                Ok(Effect::Nothing)
            } else {
                app.mode = AppMode::ConfirmDelete { host_index };
                Ok(Effect::Nothing)
            }
        },
        _ => {
            app.mode = AppMode::Table;
            Ok(Effect::Nothing)
        },
    }
}

/// Takes a key: the messages are taken away, and the key does what it does in
/// what is shown. `now` is the present time in milliseconds since the epoch.
/// The result says what the caller is to do; it is an error where a host was
/// to be saved or deleted at an index at which there is none.
pub fn handle_input(app: &mut App, press: KeyPress, now: i64) -> (r: Result<Effect, ConfigError>)
    ensures
        r is Err <==> key_fails(old(app)@, press),
        r matches Ok(e) ==> final(app)@ == after_key(old(app)@, press, now).app && e@ == after_key(
            old(app)@,
            press,
            now,
        ).effect,
{
    app.clear_messages();
    let mut mode = AppMode::Table;
    core::mem::swap(&mut mode, &mut app.mode);
    match mode {
        AppMode::Table => Ok(handle_table(app, press, now)),
        AppMode::EditHost { host_index, editing_host, focused_field, field_buffer, editing_mode } => {
            handle_edit(
                app,
                host_index,
                editing_host,
                focused_field,
                field_buffer,
                editing_mode,
                press,
            )
        },
        AppMode::SelectKeys { .. } => Ok(handle_choice(app, mode, press)),
        AppMode::SelectSshFlags { .. } => Ok(handle_choice(app, mode, press)),
        AppMode::SelectShell { .. } => Ok(handle_choice(app, mode, press)),
        AppMode::EditTags {
            host_index,
            editing_host,
            tag_input,
            selected_tag_index,
            return_field,
            input_mode,
        } => Ok(
            handle_tags(
                app,
                host_index,
                editing_host,
                tag_input,
                selected_tag_index,
                return_field,
                input_mode,
                press,
            ),
        ),
        _ => handle_simple(app, mode, press),
    }
}

} // verus!
