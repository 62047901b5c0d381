//! What the host list shows and edits.

use crate::models::host::{Host, HostView};
use crate::text::views;
use vstd::prelude::*;

verus! {

/// What the application is showing.
#[derive(Debug, Clone, PartialEq, Eq)]
pub enum AppMode {
    /// The table of all hosts.
    Table,
    /// The form of a host that is made or changed.
    EditHost {
        /// The index of the host that is changed; `None` for a new host.
        host_index: Option<usize>,
        editing_host: Host,
        focused_field: HostField,
        /// The text of the field that has the focus.
        field_buffer: String,
        /// Whether the field is being typed into.
        editing_mode: bool,
    },
    /// The choice of keys for a host.
    SelectKeys {
        host_index: Option<usize>,
        editing_host: Host,
        available_keys: Vec<String>,
        selected_key_index: usize,
        return_field: HostField,
    },
    /// The tags of a host.
    EditTags {
        host_index: Option<usize>,
        editing_host: Host,
        tag_input: String,
        selected_tag_index: usize,
        return_field: HostField,
        /// Whether a tag is being typed.
        input_mode: bool,
    },
    /// The choice of SSH flags for a host.
    SelectSshFlags {
        host_index: Option<usize>,
        editing_host: Host,
        selected_flag_index: usize,
        return_field: HostField,
    },
    /// The choice of a shell for a host.
    SelectShell {
        host_index: Option<usize>,
        editing_host: Host,
        selected_shell_index: usize,
        return_field: HostField,
    },
    /// The search line.
    Search { query: String },
    /// The choice of tags to filter by.
    TagFilter { selected_tags: Vec<String> },
    /// The help.
    Help,
    /// The question whether to delete a host.
    ConfirmDelete { host_index: usize },
}

/// What the application is showing, as contracts see it.
pub enum ModeView {
    Table,
    EditHost {
        host_index: Option<usize>,
        editing_host: HostView,
        focused_field: HostField,
        field_buffer: Seq<char>,
        editing_mode: bool,
    },
    SelectKeys {
        host_index: Option<usize>,
        editing_host: HostView,
        available_keys: Seq<Seq<char>>,
        selected_key_index: usize,
        return_field: HostField,
    },
    EditTags {
        host_index: Option<usize>,
        editing_host: HostView,
        tag_input: Seq<char>,
        selected_tag_index: usize,
        return_field: HostField,
        input_mode: bool,
    },
    SelectSshFlags {
        host_index: Option<usize>,
        editing_host: HostView,
        selected_flag_index: usize,
        return_field: HostField,
    },
    SelectShell {
        host_index: Option<usize>,
        editing_host: HostView,
        selected_shell_index: usize,
        return_field: HostField,
    },
    Search { query: Seq<char> },
    TagFilter { selected_tags: Seq<Seq<char>> },
    Help,
    ConfirmDelete { host_index: usize },
}

impl View for AppMode {
    type V = ModeView;

    open spec fn view(&self) -> ModeView {
        match self {
            AppMode::Table => ModeView::Table,
            AppMode::EditHost {
                host_index,
                editing_host,
                focused_field,
                field_buffer,
                editing_mode,
            } => ModeView::EditHost {
                host_index: *host_index,
                editing_host: editing_host@,
                focused_field: *focused_field,
                field_buffer: field_buffer@,
                editing_mode: *editing_mode,
            },
            AppMode::SelectKeys {
                host_index,
                editing_host,
                available_keys,
                selected_key_index,
                return_field,
            } => ModeView::SelectKeys {
                host_index: *host_index,
                editing_host: editing_host@,
                available_keys: views(available_keys@),
                selected_key_index: *selected_key_index,
                return_field: *return_field,
            },
            AppMode::EditTags {
                host_index,
                editing_host,
                tag_input,
                selected_tag_index,
                return_field,
                input_mode,
            } => ModeView::EditTags {
                host_index: *host_index,
                editing_host: editing_host@,
                tag_input: tag_input@,
                selected_tag_index: *selected_tag_index,
                return_field: *return_field,
                input_mode: *input_mode,
            },
            AppMode::SelectSshFlags {
                host_index,
                editing_host,
                selected_flag_index,
                return_field,
            } => ModeView::SelectSshFlags {
                host_index: *host_index,
                editing_host: editing_host@,
                selected_flag_index: *selected_flag_index,
                return_field: *return_field,
            },
            AppMode::SelectShell {
                host_index,
                editing_host,
                selected_shell_index,
                return_field,
            } => ModeView::SelectShell {
                host_index: *host_index,
                editing_host: editing_host@,
                selected_shell_index: *selected_shell_index,
                return_field: *return_field,
            },
            AppMode::Search { query } => ModeView::Search { query: query@ },
            AppMode::TagFilter { selected_tags } => ModeView::TagFilter {
                selected_tags: views(selected_tags@),
            },
            AppMode::Help => ModeView::Help,
            AppMode::ConfirmDelete { host_index } => ModeView::ConfirmDelete {
                host_index: *host_index,
            },
        }
    }
}

impl Default for AppMode {
    fn default() -> (r: AppMode)
        ensures
            r@ == ModeView::Table,
    {
        AppMode::Table
    }
}

/// A field of the form of a host.
#[derive(Debug, Clone, Copy, PartialEq, Eq, Structural)]
pub enum HostField {
    HostAlias,
    Hostname,
    User,
    Port,
    IdentityFiles,
    ProxyJump,
    SshFlags,
    Shell,
    Tags,
    Note,
}

/// The fields of the form, from top to bottom.
pub open spec fn all_fields() -> Seq<HostField> {
    seq![
        HostField::HostAlias,
        HostField::Hostname,
        HostField::User,
        HostField::Port,
        HostField::IdentityFiles,
        HostField::ProxyJump,
        HostField::SshFlags,
        HostField::Shell,
        HostField::Tags,
        HostField::Note,
    ]
}

impl HostField {
    /// The place of the field in the form, counted from 0.
    pub open spec fn position(self) -> int {
        match self {
            HostField::HostAlias => 0,
            HostField::Hostname => 1,
            HostField::User => 2,
            HostField::Port => 3,
            HostField::IdentityFiles => 4,
            HostField::ProxyJump => 5,
            HostField::SshFlags => 6,
            HostField::Shell => 7,
            HostField::Tags => 8,
            HostField::Note => 9,
        }
    }

    /// The label of the field.
    pub open spec fn label_text(self) -> Seq<char> {
        match self {
            HostField::HostAlias => "Host (alias)"@,
            HostField::Hostname => "Hostname (IP)"@,
            HostField::User => "User"@,
            HostField::Port => "Port"@,
            HostField::IdentityFiles => "SSH Keys"@,
            HostField::ProxyJump => "Jump Host"@,
            HostField::SshFlags => "SSH Flags"@,
            HostField::Shell => "Shell"@,
            HostField::Tags => "Tags"@,
            HostField::Note => "Note"@,
        }
    }

    /// The fields of the form, from top to bottom.
    pub fn all() -> (r: Vec<HostField>)
        ensures
            r@ == all_fields(),
    {
        let mut v: Vec<HostField> = Vec::new();
        v.push(HostField::HostAlias);
        v.push(HostField::Hostname);
        v.push(HostField::User);
        v.push(HostField::Port);
        v.push(HostField::IdentityFiles);
        v.push(HostField::ProxyJump);
        v.push(HostField::SshFlags);
        v.push(HostField::Shell);
        v.push(HostField::Tags);
        v.push(HostField::Note);
        assert(v@ == all_fields());
        v
    }

    /// The field below this one; the first field below the last.
    pub fn next(&self) -> (r: HostField)
        ensures
            r == all_fields()[(self.position() + 1) % 10],
    {
        match self {
            HostField::HostAlias => HostField::Hostname,
            HostField::Hostname => HostField::User,
            HostField::User => HostField::Port,
            HostField::Port => HostField::IdentityFiles,
            HostField::IdentityFiles => HostField::ProxyJump,
            HostField::ProxyJump => HostField::SshFlags,
            HostField::SshFlags => HostField::Shell,
            HostField::Shell => HostField::Tags,
            HostField::Tags => HostField::Note,
            HostField::Note => HostField::HostAlias,
        }
    }

    /// The field above this one; the last field above the first.
    pub fn previous(&self) -> (r: HostField)
        ensures
            r == all_fields()[(self.position() + 9) % 10],
    {
        match self {
            HostField::HostAlias => HostField::Note,
            HostField::Hostname => HostField::HostAlias,
            HostField::User => HostField::Hostname,
            HostField::Port => HostField::User,
            HostField::IdentityFiles => HostField::Port,
            HostField::ProxyJump => HostField::IdentityFiles,
            HostField::SshFlags => HostField::ProxyJump,
            HostField::Shell => HostField::SshFlags,
            HostField::Tags => HostField::Shell,
            HostField::Note => HostField::Tags,
        }
    }

    /// The label of the field.
    pub fn label(&self) -> (r: &'static str)
        ensures
            r@ == self.label_text(),
    {
        match self {
            HostField::HostAlias => "Host (alias)",
            HostField::Hostname => "Hostname (IP)",
            HostField::User => "User",
            HostField::Port => "Port",
            HostField::IdentityFiles => "SSH Keys",
            HostField::ProxyJump => "Jump Host",
            HostField::SshFlags => "SSH Flags",
            HostField::Shell => "Shell",
            HostField::Tags => "Tags",
            HostField::Note => "Note",
        }
    }
}

/// Going to the next field and back, or back and to the next, ends at the
/// field where it began.
pub proof fn lemma_field_next_previous(f: HostField)
    ensures
        all_fields()[(all_fields()[(f.position() + 1) % 10].position() + 9) % 10] == f,
        all_fields()[(all_fields()[(f.position() + 9) % 10].position() + 1) % 10] == f,
        all_fields()[f.position()] == f,
{
}

/// The order in which the hosts are shown.
#[derive(Debug, Clone, Copy, PartialEq, Eq, Structural)]
pub enum SortBy {
    /// By alias.
    Name,
    /// By address.
    Hostname,
    /// By the time of the last connection, the latest first.
    LastUsed,
    /// By user.
    User,
}

/// The orders, in the order in which they are cycled through.
pub open spec fn all_orders() -> Seq<SortBy> {
    seq![SortBy::Name, SortBy::Hostname, SortBy::LastUsed, SortBy::User]
}

impl SortBy {
    /// The place of the order in the cycle, counted from 0.
    pub open spec fn position(self) -> int {
        match self {
            SortBy::Name => 0,
            SortBy::Hostname => 1,
            SortBy::LastUsed => 2,
            SortBy::User => 3,
        }
    }

    /// The label of the order.
    pub open spec fn label_text(self) -> Seq<char> {
        match self {
            SortBy::Name => "Name"@,
            SortBy::Hostname => "Hostname"@,
            SortBy::LastUsed => "Last Used"@,
            SortBy::User => "User"@,
        }
    }

    /// The orders, in the order in which they are cycled through.
    pub fn all() -> (r: Vec<SortBy>)
        ensures
            r@ == all_orders(),
    {
        let mut v: Vec<SortBy> = Vec::new();
        v.push(SortBy::Name);
        v.push(SortBy::Hostname);
        v.push(SortBy::LastUsed);
        v.push(SortBy::User);
        assert(v@ == all_orders());
        v
    }

    /// The order that follows this one in the cycle.
    pub fn next(&self) -> (r: SortBy)
        ensures
            r == all_orders()[(self.position() + 1) % 4],
    {
        match self {
            SortBy::Name => SortBy::Hostname,
            SortBy::Hostname => SortBy::LastUsed,
            SortBy::LastUsed => SortBy::User,
            SortBy::User => SortBy::Name,
        }
    }

    /// The label of the order.
    pub fn label(&self) -> (r: &'static str)
        ensures
            r@ == self.label_text(),
    {
        match self {
            SortBy::Name => "Name",
            SortBy::Hostname => "Hostname",
            SortBy::LastUsed => "Last Used",
            SortBy::User => "User",
        }
    }
}

impl Default for SortBy {
    fn default() -> (r: SortBy)
        ensures
            r == SortBy::Name,
    {
        SortBy::Name
    }
}

} // verus!
