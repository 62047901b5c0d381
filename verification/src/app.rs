//! The state of the host list: which hosts are shown and in what order, what
//! is selected, and what is being edited. Reading and writing files is left to
//! the caller, who is told when there is something to write.

use crate::models::app_state::{AppMode, HostField, ModeView, SortBy};
use crate::models::host::{host_hit, now_millis, tagged_with_any, Host, HostView};
use crate::number::{decimal, push_decimal};
use crate::search::{begins_with, ends_with, finishes_with, join, join_with, starts_with};
use crate::sorting::{
    indices, sort_order, sort_strings, sorted_order, sorted_texts, KeyView, SortKey,
};
use crate::ssh::config::{
    alias_index, first_alias_at, has_alias, ConfigError, ConfigView, SshConfig,
};
use crate::ssh::metadata::{merged, with_hosts, without_alias, Metadata, MetadataView};
use crate::text::{
    chars_of, concat2, concat3, copy_str, copy_strings, lowercase, opt_view, str_eq, string_of,
    views,
};
use vstd::prelude::*;

verus! {

/// The state of the host list.
#[derive(Debug, Clone)]
pub struct App {
    pub mode: AppMode,
    /// All hosts, with what is kept of them beside the configuration.
    pub hosts: Vec<Host>,
    /// The index of the selected host among the hosts that are shown.
    pub selected_index: usize,
    pub search_query: String,
    pub active_tag_filters: Vec<String>,
    pub sort_by: SortBy,
    pub ssh_config: SshConfig,
    pub metadata: Metadata,
    pub config_path: String,
    pub metadata_path: String,
    pub should_quit: bool,
    pub status_message: Option<String>,
    pub error_message: Option<String>,
    /// The host to connect to next.
    pub pending_connection: Option<Host>,
}

/// The state of the host list, as contracts see it.
pub struct AppView {
    pub mode: ModeView,
    pub hosts: Seq<HostView>,
    pub selected_index: usize,
    pub search_query: Seq<char>,
    pub active_tag_filters: Seq<Seq<char>>,
    pub sort_by: SortBy,
    pub ssh_config: ConfigView,
    pub metadata: MetadataView,
    pub config_path: Seq<char>,
    pub metadata_path: Seq<char>,
    pub should_quit: bool,
    pub status_message: Option<Seq<char>>,
    pub error_message: Option<Seq<char>>,
    pub pending_connection: Option<HostView>,
}

/// The view of an optional host.
pub open spec fn host_view(h: Option<Host>) -> Option<HostView> {
    match h {
        Some(h) => Some(h@),
        None => None,
    }
}

impl View for App {
    type V = AppView;

    open spec fn view(&self) -> AppView {
        AppView {
            mode: self.mode@,
            hosts: views(self.hosts@),
            selected_index: self.selected_index,
            search_query: self.search_query@,
            active_tag_filters: views(self.active_tag_filters@),
            sort_by: self.sort_by,
            ssh_config: self.ssh_config@,
            metadata: self.metadata@,
            config_path: self.config_path@,
            metadata_path: self.metadata_path@,
            should_quit: self.should_quit,
            status_message: opt_view(self.status_message),
            error_message: opt_view(self.error_message),
            pending_connection: host_view(self.pending_connection),
        }
    }
}

/// Whether a host is shown: it answers the search, if there is one, and has
/// one of the tags that are filtered by, if there are any.
pub open spec fn shown(h: HostView, query: Seq<char>, filters: Seq<Seq<char>>) -> bool {
    (query.len() == 0 || host_hit(h, lowercase(query))) && tagged_with_any(h, filters)
}

/// The indices of the hosts among the first `n` that are shown, in order.
pub open spec fn shown_upto(
    hosts: Seq<HostView>,
    query: Seq<char>,
    filters: Seq<Seq<char>>,
    n: int,
) -> Seq<int>
    decreases n,
{
    if n <= 0 {
        Seq::empty()
    } else if shown(hosts[n - 1], query, filters) {
        shown_upto(hosts, query, filters, n - 1).push(n - 1)
    } else {
        shown_upto(hosts, query, filters, n - 1)
    }
}

/// The key that orders a host: its alias, its address, its user with the
/// hosts without user first, or the time of its last connection with the
/// latest first and the hosts never connected to last.
pub open spec fn host_key(sort_by: SortBy, h: HostView) -> KeyView {
    match sort_by {
        SortBy::Name => KeyView { rank: 0, text: h.host },
        SortBy::Hostname => KeyView { rank: 0, text: h.hostname },
        SortBy::LastUsed => match h.last_used {
            Some(t) => KeyView { rank: (-(t as int)) as i128, text: Seq::empty() },
            None => KeyView { rank: i128::MAX, text: Seq::empty() },
        },
        SortBy::User => match h.user {
            Some(u) => KeyView { rank: 1, text: u },
            None => KeyView { rank: 0, text: Seq::empty() },
        },
    }
}

/// The keys of the hosts at the indices.
pub open spec fn keys_of(hosts: Seq<HostView>, picked: Seq<int>, sort_by: SortBy) -> Seq<KeyView> {
    Seq::new(picked.len(), |i: int| host_key(sort_by, hosts[picked[i]]))
}

/// The indices of the hosts that are shown, in the order in which they are
/// shown.
pub open spec fn shown_order(app: AppView) -> Seq<int> {
    let picked = shown_upto(
        app.hosts,
        app.search_query,
        app.active_tag_filters,
        app.hosts.len() as int,
    );
    let order = sorted_order(keys_of(app.hosts, picked, app.sort_by));
    Seq::new(picked.len(), |i: int| picked[order[i]])
}

/// The hosts that are shown, in the order in which they are shown.
pub open spec fn shown_hosts(app: AppView) -> Seq<HostView> {
    Seq::new(shown_order(app).len(), |i: int| app.hosts[shown_order(app)[i]])
}

/// The text of a field of a host, as the form shows it.
pub open spec fn field_text(h: HostView, field: HostField) -> Seq<char> {
    match field {
        HostField::HostAlias => h.host,
        HostField::Hostname => h.hostname,
        HostField::User => or_empty(h.user),
        HostField::Port => match h.port {
            Some(p) => decimal(p as nat),
            None => Seq::empty(),
        },
        HostField::IdentityFiles => match h.identity_file {
            Some(keys) => join(keys, ", "@),
            None => Seq::empty(),
        },
        HostField::ProxyJump => or_empty(h.proxy_jump),
        HostField::SshFlags => join(h.ssh_flags, " "@),
        HostField::Shell => or_empty(h.shell),
        HostField::Tags => join(h.tags, ", "@),
        HostField::Note => or_empty(h.note),
    }
}

/// An optional text, empty where there is none.
pub open spec fn or_empty(o: Option<Seq<char>>) -> Seq<char> {
    match o {
        Some(s) => s,
        None => Seq::empty(),
    }
}

fn text_or_empty(o: &Option<String>) -> (r: String)
    ensures
        r@ == or_empty(opt_view(*o)),
{
    match o {
        Some(s) => s.clone(),
        None => String::new(),
    }
}

fn join_strings(list: &Vec<String>, sep: &str) -> (r: String)
    ensures
        r@ == join(views(list@), sep@),
{
    let mut parts: Vec<Vec<char>> = Vec::new();
    let mut i: usize = 0;
    while i < list.len()
        invariant
            i <= list.len(),
            views(parts@) == views(list@).take(i as int),
        decreases list.len() - i,
    {
        let ghost before = views(parts@);
        parts.push(chars_of(list[i].as_str()));
        i += 1;
        assert(views(parts@) == before.push(list@[i - 1]@));
        assert(views(parts@) == views(list@).take(i as int));
    }
    assert(views(list@).take(list.len() as int) == views(list@));
    string_of(&join_with(&parts, sep))
}

/// The text of a field of the host, as the form shows it.
pub fn get_field_value(host: &Host, field: &HostField) -> (r: String)
    ensures
        r@ == field_text(host@, *field),
{
    match field {
        HostField::HostAlias => host.host.clone(),
        HostField::Hostname => host.hostname.clone(),
        HostField::User => text_or_empty(&host.user),
        HostField::Port => match host.port {
            Some(p) => {
                let mut out: Vec<char> = Vec::new();
                push_decimal(&mut out, p as u64);
                assert(out@ == decimal(p as nat));
                string_of(&out)
            },
            None => String::new(),
        },
        HostField::IdentityFiles => match &host.identity_file {
            Some(keys) => join_strings(keys, ", "),
            None => String::new(),
        },
        HostField::ProxyJump => text_or_empty(&host.proxy_jump),
        HostField::SshFlags => join_strings(&host.ssh_flags, " "),
        HostField::Shell => text_or_empty(&host.shell),
        HostField::Tags => join_strings(&host.tags, ", "),
        HostField::Note => text_or_empty(&host.note),
    }
}

/// The view of an optional reference to a host.
pub open spec fn host_ref_view(h: Option<&Host>) -> Option<HostView> {
    match h {
        Some(h) => Some(h@),
        None => None,
    }
}

/// Whether a file of the directory of SSH keys is offered as a private key:
/// it is neither a public key nor a lock, nor one of the files that SSH keeps
/// there, nor hidden.
pub open spec fn is_key_name(name: Seq<char>) -> bool {
    !ends_with(name, ".pub"@) && !ends_with(name, ".lock"@) && name != "config"@ && name
        != "known_hosts"@ && name != "authorized_keys"@ && !starts_with(name, "."@)
}

/// The paths of the files among the first `n` that are offered as keys.
pub open spec fn key_paths_upto(names: Seq<Seq<char>>, n: int) -> Seq<Seq<char>>
    decreases n,
{
    if n <= 0 {
        Seq::empty()
    } else if is_key_name(names[n - 1]) {
        key_paths_upto(names, n - 1).push("~/.ssh/"@ + names[n - 1])
    } else {
        key_paths_upto(names, n - 1)
    }
}

/// The keys that are offered, given the names of the files in the directory
/// of SSH keys: their paths, in the order of the dictionary.
pub open spec fn key_paths(names: Seq<Seq<char>>) -> Seq<Seq<char>> {
    sorted_texts(key_paths_upto(names, names.len() as int))
}

/// The keys that are offered, given the names of the files in the directory of
/// SSH keys.
pub fn available_keys(file_names: &Vec<String>) -> (r: Vec<String>)
    ensures
        views(r@) == key_paths(views(file_names@)),
{
    let mut keys: Vec<String> = Vec::new();
    let mut i: usize = 0;
    assert(views(keys@) == key_paths_upto(views(file_names@), 0));
    while i < file_names.len()
        invariant
            i <= file_names.len(),
            views(keys@) == key_paths_upto(views(file_names@), i as int),
        decreases file_names.len() - i,
    {
        let ghost before = views(keys@);
        assert(views(file_names@)[i as int] == file_names@[i as int]@);
        let name = file_names[i].as_str();
        let n = chars_of(name);
        let offered = !finishes_with(&n, ".pub") && !finishes_with(&n, ".lock") && !str_eq(
            name,
            "config",
        ) && !str_eq(name, "known_hosts") && !str_eq(name, "authorized_keys") && !begins_with(
            &n,
            ".",
        );
        if offered {
            let path = concat2("~/.ssh/", name);
            keys.push(path);
            assert(views(keys@) == before.push("~/.ssh/"@ + name@));
        }
        i += 1;
    }
    assert(views(file_names@).len() == file_names.len());
    sort_strings(&keys)
}

/// All tags of the first `n` hosts, in order.
pub open spec fn tags_upto(hosts: Seq<HostView>, n: int) -> Seq<Seq<char>>
    decreases n,
{
    if n <= 0 {
        Seq::empty()
    } else {
        tags_upto(hosts, n - 1) + hosts[n - 1].tags
    }
}

/// The texts without those that are the text before them.
pub open spec fn deduped(texts: Seq<Seq<char>>) -> Seq<Seq<char>>
    decreases texts.len(),
{
    if texts.len() == 0 {
        Seq::empty()
    } else if texts.len() >= 2 && texts[texts.len() - 2] == texts.last() {
        deduped(texts.drop_last())
    } else {
        deduped(texts.drop_last()).push(texts.last())
    }
}

/// The tags that are offered where none are kept: the tags of all hosts, in
/// the order of the dictionary, each once.
pub open spec fn tags_of_hosts(hosts: Seq<HostView>) -> Seq<Seq<char>> {
    deduped(sorted_texts(tags_upto(hosts, hosts.len() as int)))
}

/// The hosts, each with what the metadata keeps of it.
pub open spec fn all_merged(entries: Seq<crate::ssh::metadata::EntryView>, hosts: Seq<HostView>)
    -> Seq<HostView> {
    Seq::new(hosts.len(), |i: int| merged(entries, hosts[i]))
}

/// The state with which the application begins.
pub open spec fn initial(
    config_path: Seq<char>,
    metadata_path: Seq<char>,
    config: ConfigView,
    metadata: MetadataView,
) -> AppView {
    let hosts = all_merged(metadata.hosts, config.hosts);
    AppView {
        mode: ModeView::Table,
        hosts,
        selected_index: 0,
        search_query: Seq::empty(),
        active_tag_filters: Seq::empty(),
        sort_by: SortBy::Name,
        ssh_config: ConfigView { hosts, ..config },
        metadata: MetadataView {
            global_tags: if metadata.global_tags.len() == 0 {
                tags_of_hosts(hosts)
            } else {
                metadata.global_tags
            },
            ..metadata
        },
        config_path,
        metadata_path,
        should_quit: false,
        status_message: None,
        error_message: None,
        pending_connection: None,
    }
}

/// A copy of the hosts, in order.
pub fn copy_hosts(hosts: &Vec<Host>) -> (r: Vec<Host>)
    ensures
        views(r@) == views(hosts@),
{
    let mut out: Vec<Host> = Vec::new();
    let mut i: usize = 0;
    while i < hosts.len()
        invariant
            i <= hosts.len(),
            views(out@) == views(hosts@).take(i as int),
        decreases hosts.len() - i,
    {
        let ghost before = views(out@);
        out.push(hosts[i].duplicate());
        i += 1;
        assert(views(out@) == before.push(hosts@[i - 1]@));
        assert(views(out@) == views(hosts@).take(i as int));
    }
    assert(views(hosts@).take(hosts.len() as int) == views(hosts@));
    out
}

/// The strings without those that are the string before them.
fn dedup(list: &Vec<String>) -> (r: Vec<String>)
    ensures
        views(r@) == deduped(views(list@)),
{
    let mut out: Vec<String> = Vec::new();
    let mut i: usize = 0;
    assert(views(list@).take(0) == Seq::<Seq<char>>::empty());
    while i < list.len()
        invariant
            i <= list.len(),
            views(out@) == deduped(views(list@).take(i as int)),
        decreases list.len() - i,
    {
        let ghost before = views(out@);
        let ghost next = views(list@).take(i + 1);
        assert(next.drop_last() == views(list@).take(i as int));
        assert(next.last() == list@[i as int]@);
        let repeated = i > 0 && list[i - 1] == list[i];
        proof {
            if i > 0 {
                assert(next[next.len() - 2] == list@[i - 1]@);
            }
        }
        if !repeated {
            out.push(list[i].clone());
            assert(views(out@) == before.push(list@[i as int]@));
        }
        i += 1;
    }
    assert(views(list@).take(list.len() as int) == views(list@));
    out
}

impl App {
    /// The state with which the application begins, given the configuration
    /// and the metadata that were read: the hosts of the configuration with
    /// what the metadata keeps of them, sorted by alias, nothing selected away
    /// from the top, no search and no filter. Where the metadata offers no
    /// tags, the tags of the hosts are offered.
    pub fn new(
        config_path: String,
        metadata_path: String,
        ssh_config: SshConfig,
        metadata: Metadata,
    ) -> (r: App)
        ensures
            r@ == initial(config_path@, metadata_path@, ssh_config@, metadata@),
    {
        let mut ssh_config = ssh_config;
        let mut metadata = metadata;
        let ghost config0 = ssh_config@;
        let ghost metadata0 = metadata@;
        metadata.merge_into_hosts(&mut ssh_config.hosts);
        assert(ssh_config@.hosts == all_merged(metadata0.hosts, config0.hosts));
        let hosts = copy_hosts(&ssh_config.hosts);
        if metadata.global_tags.len() == 0 {
            let mut all: Vec<String> = Vec::new();
            let mut i: usize = 0;
            assert(views(all@) == tags_upto(views(hosts@), 0));
            while i < hosts.len()
                invariant
                    i <= hosts.len(),
                    views(all@) == tags_upto(views(hosts@), i as int),
                decreases hosts.len() - i,
            {
                assert(views(hosts@)[i as int] == hosts@[i as int]@);
                let mut j: usize = 0;
                let ghost start = views(all@);
                assert(views(all@) == start + hosts@[i as int]@.tags.take(0));
                while j < hosts[i].tags.len()
                    invariant
                        i < hosts.len(),
                        j <= hosts[i as int].tags.len(),
                        views(all@) == start + hosts@[i as int]@.tags.take(j as int),
                    decreases hosts[i as int].tags.len() - j,
                {
                    let ghost before = views(all@);
                    all.push(hosts[i].tags[j].clone());
                    j += 1;
                    assert(views(all@) == before.push(hosts@[i as int].tags@[j - 1]@));
                    assert(views(all@) == start + hosts@[i as int]@.tags.take(j as int));
                }
                assert(hosts@[i as int]@.tags.take(hosts@[i as int].tags.len() as int)
                    == hosts@[i as int]@.tags);
                i += 1;
            }
            assert(views(hosts@).len() == hosts.len());
            let sorted = sort_strings(&all);
            metadata.global_tags = dedup(&sorted);
        }
        let r = App {
            mode: AppMode::Table,
            hosts,
            selected_index: 0,
            search_query: String::new(),
            active_tag_filters: Vec::new(),
            sort_by: SortBy::Name,
            ssh_config,
            metadata,
            config_path,
            metadata_path,
            should_quit: false,
            status_message: None,
            error_message: None,
            pending_connection: None,
        };
        assert(r@.active_tag_filters == Seq::<Seq<char>>::empty());
        r
    }

    /// The key that orders the host.
    fn sort_key(&self, h: &Host) -> (r: SortKey)
        ensures
            r@ == host_key(self.sort_by, h@),
    {
        match self.sort_by {
            SortBy::Name => SortKey { rank: 0, text: chars_of(h.host.as_str()) },
            SortBy::Hostname => SortKey { rank: 0, text: chars_of(h.hostname.as_str()) },
            SortBy::LastUsed => match h.last_used {
                Some(t) => SortKey { rank: 0 - (t as i128), text: Vec::new() },
                None => SortKey { rank: i128::MAX, text: Vec::new() },
            },
            SortBy::User => match &h.user {
                Some(u) => SortKey { rank: 1, text: chars_of(u.as_str()) },
                None => SortKey { rank: 0, text: Vec::new() },
            },
        }
    }

    /// The indices of the hosts that are shown, in the order in which they are
    /// shown.
    pub fn filtered_indices(&self) -> (r: Vec<usize>)
        ensures
            indices(r@) == shown_order(self@),
            forall|i: int| 0 <= i < r.len() ==> (#[trigger] r@[i]) < self.hosts.len(),
    {
        let mut picked: Vec<usize> = Vec::new();
        let mut keys: Vec<SortKey> = Vec::new();
        let mut i: usize = 0;
        assert(indices(picked@) == shown_upto(
            self@.hosts,
            self@.search_query,
            self@.active_tag_filters,
            0,
        ));
        while i < self.hosts.len()
            invariant
                i <= self.hosts.len(),
                indices(picked@) == shown_upto(
                    self@.hosts,
                    self@.search_query,
                    self@.active_tag_filters,
                    i as int,
                ),
                forall|j: int| 0 <= j < picked.len() ==> (#[trigger] picked@[j]) < i,
                views(keys@) == keys_of(self@.hosts, indices(picked@), self.sort_by),
            decreases self.hosts.len() - i,
        {
            let ghost p0 = indices(picked@);
            let ghost k0 = views(keys@);
            let h = &self.hosts[i];
            assert(self@.hosts[i as int] == h@);
            let answers = if self.search_query.as_str().is_empty() {
                true
            } else {
                h.matches_search(self.search_query.as_str())
            };
            if answers && h.has_any_tag(&self.active_tag_filters) {
                picked.push(i);
                let k = self.sort_key(h);
                keys.push(k);
                assert(indices(picked@) == p0.push(i as int));
                assert(views(keys@) == k0.push(k@));
                assert(views(keys@) == keys_of(self@.hosts, indices(picked@), self.sort_by));
            }
            i += 1;
        }
        let order = sort_order(&keys);
        let mut out: Vec<usize> = Vec::new();
        let mut j: usize = 0;
        let ghost target = shown_order(self@);
        assert(target.len() == picked.len());
        while j < order.len()
            invariant
                j <= order.len(),
                order.len() == picked.len(),
                target == shown_order(self@),
                target.len() == picked.len(),
                indices(picked@) == shown_upto(
                    self@.hosts,
                    self@.search_query,
                    self@.active_tag_filters,
                    self.hosts.len() as int,
                ),
                indices(order@) == sorted_order(
                    keys_of(self@.hosts, indices(picked@), self.sort_by),
                ),
                forall|i: int| 0 <= i < order.len() ==> (#[trigger] order@[i]) < picked.len(),
                forall|i: int| 0 <= i < picked.len() ==> (#[trigger] picked@[i]) < self.hosts.len(),
                indices(out@) == target.take(j as int),
                forall|i: int| 0 <= i < out.len() ==> (#[trigger] out@[i]) < self.hosts.len(),
            decreases order.len() - j,
        {
            let ghost before = indices(out@);
            assert(indices(order@)[j as int] == order@[j as int]);
            assert(indices(picked@)[order@[j as int] as int] == picked@[order@[j as int] as int]);
            out.push(picked[order[j]]);
            j += 1;
            assert(indices(out@) == before.push(target[j - 1]));
            assert(indices(out@) == target.take(j as int));
        }
        assert(target.take(order.len() as int) == target);
        out
    }

    /// The hosts that are shown, in the order in which they are shown.
    pub fn filtered_hosts(&self) -> (r: Vec<&Host>)
        ensures
            views(r@) == shown_hosts(self@),
    {
        let order = self.filtered_indices();
        let mut out: Vec<&Host> = Vec::new();
        let mut i: usize = 0;
        while i < order.len()
            invariant
                i <= order.len(),
                indices(order@) == shown_order(self@),
                forall|j: int| 0 <= j < order.len() ==> (#[trigger] order@[j]) < self.hosts.len(),
                views(out@) == shown_hosts(self@).take(i as int),
            decreases order.len() - i,
        {
            let ghost before = views(out@);
            assert(indices(order@)[i as int] == order@[i as int]);
            let h = &self.hosts[order[i]];
            out.push(h);
            i += 1;
            assert(views(out@) == before.push(h@));
            assert(views(out@) == shown_hosts(self@).take(i as int));
        }
        assert(shown_hosts(self@).take(order.len() as int) == shown_hosts(self@));
        out
    }

    /// The tags that are offered.
    pub fn all_tags(&self) -> (r: Vec<String>)
        ensures
            views(r@) == self@.metadata.global_tags,
    {
        self.metadata.get_global_tags()
    }

    /// Adds a tag to the tags that are offered. The metadata is then to be
    /// written.
    pub fn add_global_tag(&mut self, tag: String)
        ensures
            final(self)@ == (AppView {
                metadata: MetadataView {
                    global_tags: crate::ssh::metadata::with_tag(
                        old(self)@.metadata.global_tags,
                        tag@,
                    ),
                    ..old(self)@.metadata
                },
                ..old(self)@
            }),
    {
        self.metadata.add_global_tag(tag);
    }

    /// The host that is selected.
    pub fn selected_host(&self) -> (r: Option<&Host>)
        ensures
            host_ref_view(r) == selected(self@),
    {
        let order = self.filtered_indices();
        if self.selected_index < order.len() {
            assert(indices(order@)[self.selected_index as int] == order@[self.selected_index as int]);
            Some(&self.hosts[order[self.selected_index]])
        } else {
            None
        }
    }

    /// Selects the host above.
    pub fn select_previous(&mut self)
        ensures
            final(self)@ == (AppView {
                selected_index: if old(self).selected_index > 0 {
                    (old(self).selected_index - 1) as usize
                } else {
                    0
                },
                ..old(self)@
            }),
    {
        if self.selected_index > 0 {
            self.selected_index -= 1;
        }
    }

    /// Selects the host below, if there is one.
    pub fn select_next(&mut self)
        ensures
            final(self)@ == (AppView {
                selected_index: if old(self).selected_index + 1 < shown_order(old(self)@).len() {
                    (old(self).selected_index + 1) as usize
                } else {
                    old(self).selected_index
                },
                ..old(self)@
            }),
    {
        let count = self.filtered_indices().len();
        if count > 0 && self.selected_index < count - 1 {
            self.selected_index += 1;
        }
    }

    /// Selects the first host.
    pub fn select_first(&mut self)
        ensures
            final(self)@ == (AppView { selected_index: 0, ..old(self)@ }),
    {
        self.selected_index = 0;
    }

    /// Selects the last host that is shown.
    pub fn select_last(&mut self)
        ensures
            final(self)@ == (AppView {
                selected_index: if shown_order(old(self)@).len() > 0 {
                    (shown_order(old(self)@).len() - 1) as usize
                } else {
                    old(self).selected_index
                },
                ..old(self)@
            }),
    {
        let count = self.filtered_indices().len();
        if count > 0 {
            self.selected_index = count - 1;
        }
    }

    /// Moves the selection down by a page, not beyond the last host.
    pub fn page_down(&mut self, page_size: usize)
        ensures
            final(self)@ == (AppView {
                selected_index: paged_down(
                    old(self).selected_index,
                    page_size,
                    shown_order(old(self)@).len(),
                ),
                ..old(self)@
            }),
    {
        let count = self.filtered_indices().len();
        if count > 0 {
            let target = match self.selected_index.checked_add(page_size) {
                Some(t) => t,
                None => usize::MAX,
            };
            self.selected_index = if target < count - 1 {
                target
            } else {
                count - 1
            };
        }
    }

    /// Moves the selection up by a page, not beyond the first host.
    pub fn page_up(&mut self, page_size: usize)
        ensures
            final(self)@ == (AppView {
                selected_index: if old(self).selected_index >= page_size {
                    (old(self).selected_index - page_size) as usize
                } else {
                    0
                },
                ..old(self)@
            }),
    {
        if self.selected_index >= page_size {
            self.selected_index -= page_size;
        } else {
            self.selected_index = 0;
        }
    }

    /// Opens the form for a new host.
    pub fn start_new_host(&mut self)
        ensures
            final(self)@ == (AppView {
                mode: ModeView::EditHost {
                    host_index: None,
                    editing_host: crate::models::host::blank_host(Seq::empty(), Seq::empty()),
                    focused_field: HostField::HostAlias,
                    field_buffer: Seq::empty(),
                    editing_mode: false,
                },
                ..old(self)@
            }),
    {
        self.mode = AppMode::EditHost {
            host_index: None,
            editing_host: Host::new(String::new(), String::new()),
            focused_field: HostField::HostAlias,
            field_buffer: String::new(),
            editing_mode: false,
        };
    }

    /// Opens the form for the selected host, if one is selected.
    pub fn start_edit_host(&mut self)
        ensures
            final(self)@ == (match selected(old(self)@) {
                Some(h) => AppView {
                    mode: ModeView::EditHost {
                        host_index: Some(first_alias(old(self)@.hosts, h.host) as usize),
                        editing_host: h,
                        focused_field: HostField::HostAlias,
                        field_buffer: h.host,
                        editing_mode: false,
                    },
                    ..old(self)@
                },
                None => old(self)@,
            }),
    {
        let found = match self.selected_host() {
            Some(h) => Some(h.duplicate()),
            None => None,
        };
        match found {
            Some(host) => {
                match alias_index(&self.hosts, host.host.as_str()) {
                    Some(actual_index) => {
                        proof {
                            lemma_first_alias(self@.hosts, host@.host, actual_index as int);
                        }
                        let field_buffer = get_field_value(&host, &HostField::HostAlias);
                        self.mode = AppMode::EditHost {
                            host_index: Some(actual_index),
                            editing_host: host,
                            focused_field: HostField::HostAlias,
                            field_buffer,
                            editing_mode: false,
                        };
                    },
                    None => {
                        proof {
                            lemma_selected_is_a_host(self@);
                        }
                    },
                }
            },
            None => {},
        }
    }

    /// Opens the choice of keys for the host that is edited, with the keys
    /// that are offered.
    pub fn start_key_selection(
        &mut self,
        host_index: Option<usize>,
        editing_host: Host,
        return_field: HostField,
        available_keys: Vec<String>,
    )
        ensures
            final(self)@ == (AppView {
                mode: ModeView::SelectKeys {
                    host_index,
                    editing_host: editing_host@,
                    available_keys: views(available_keys@),
                    selected_key_index: 0,
                    return_field,
                },
                ..old(self)@
            }),
    {
        self.mode = AppMode::SelectKeys {
            host_index,
            editing_host,
            available_keys,
            selected_key_index: 0,
            return_field,
        };
    }

    /// Opens the tags of the host that is edited.
    pub fn start_tag_editing(
        &mut self,
        host_index: Option<usize>,
        editing_host: Host,
        return_field: HostField,
    )
        ensures
            final(self)@ == (AppView {
                mode: ModeView::EditTags {
                    host_index,
                    editing_host: editing_host@,
                    tag_input: Seq::empty(),
                    selected_tag_index: 0,
                    return_field,
                    input_mode: false,
                },
                ..old(self)@
            }),
    {
        self.mode = AppMode::EditTags {
            host_index,
            editing_host,
            tag_input: String::new(),
            selected_tag_index: 0,
            return_field,
            input_mode: false,
        };
    }

    /// Opens the choice of SSH flags for the host that is edited.
    pub fn start_ssh_flags_selection(
        &mut self,
        host_index: Option<usize>,
        editing_host: Host,
        return_field: HostField,
    )
        ensures
            final(self)@ == (AppView {
                mode: ModeView::SelectSshFlags {
                    host_index,
                    editing_host: editing_host@,
                    selected_flag_index: 0,
                    return_field,
                },
                ..old(self)@
            }),
    {
        self.mode = AppMode::SelectSshFlags {
            host_index,
            editing_host,
            selected_flag_index: 0,
            return_field,
        };
    }

    /// Opens the choice of a shell for the host that is edited.
    pub fn start_shell_selection(
        &mut self,
        host_index: Option<usize>,
        editing_host: Host,
        return_field: HostField,
    )
        ensures
            final(self)@ == (AppView {
                mode: ModeView::SelectShell {
                    host_index,
                    editing_host: editing_host@,
                    selected_shell_index: 0,
                    return_field,
                },
                ..old(self)@
            }),
    {
        self.mode = AppMode::SelectShell {
            host_index,
            editing_host,
            selected_shell_index: 0,
            return_field,
        };
    }

    /// Goes back to the form with the host as it was changed.
    pub fn return_to_edit(
        &mut self,
        host_index: Option<usize>,
        editing_host: Host,
        focused_field: HostField,
    )
        ensures
            final(self)@ == (AppView {
                mode: ModeView::EditHost {
                    host_index,
                    editing_host: editing_host@,
                    focused_field,
                    field_buffer: field_text(editing_host@, focused_field),
                    editing_mode: false,
                },
                ..old(self)@
            }),
    {
        let field_buffer = get_field_value(&editing_host, &focused_field);
        self.mode = AppMode::EditHost {
            host_index,
            editing_host,
            focused_field,
            field_buffer,
            editing_mode: false,
        };
    }

    /// Takes what every host holds beside its configuration into the metadata,
    /// as is done before anything is written.
    pub fn prepare_save(&mut self)
        ensures
            final(self)@ == (AppView { metadata: kept_of(old(self)@), ..old(self)@ }),
    {
        self.metadata.extract_from_hosts(&self.hosts);
    }

    /// Opens the search with the query that is in effect.
    pub fn start_search(&mut self)
        ensures
            final(self)@ == (AppView {
                mode: ModeView::Search { query: old(self)@.search_query },
                ..old(self)@
            }),
    {
        self.mode = AppMode::Search { query: self.search_query.clone() };
    }

    /// Puts a query in effect and goes back to the table, with the first host
    /// selected.
    pub fn apply_search(&mut self, query: String)
        ensures
            final(self)@ == (AppView {
                search_query: query@,
                selected_index: 0,
                mode: ModeView::Table,
                ..old(self)@
            }),
    {
        self.search_query = query;
        self.selected_index = 0;
        self.mode = AppMode::Table;
    }

    /// Ends the search.
    pub fn clear_search(&mut self)
        ensures
            final(self)@ == (AppView {
                search_query: Seq::empty(),
                selected_index: 0,
                ..old(self)@
            }),
    {
        self.search_query = String::new();
        self.selected_index = 0;
    }

    /// Goes on to the next order and says so.
    pub fn cycle_sort(&mut self)
        ensures
            final(self)@ == (AppView {
                sort_by: crate::models::app_state::all_orders()[(old(self).sort_by.position() + 1)
                    % 4],
                selected_index: 0,
                status_message: Some(
                    "Sorting by: "@ + crate::models::app_state::all_orders()[(
                    old(self).sort_by.position() + 1) % 4].label_text(),
                ),
                ..old(self)@
            }),
    {
        self.sort_by = self.sort_by.next();
        self.selected_index = 0;
        self.status_message = Some(concat2("Sorting by: ", self.sort_by.label()));
    }

    /// Opens the choice of tags to filter by, with the tags that are in
    /// effect.
    pub fn start_tag_filter(&mut self)
        ensures
            final(self)@ == (AppView {
                mode: ModeView::TagFilter { selected_tags: old(self)@.active_tag_filters },
                ..old(self)@
            }),
    {
        self.mode = AppMode::TagFilter { selected_tags: copy_strings(&self.active_tag_filters) };
    }

    /// Puts tags to filter by in effect and goes back to the table, with the
    /// first host selected.
    pub fn apply_tag_filter(&mut self, tags: Vec<String>)
        ensures
            final(self)@ == (AppView {
                active_tag_filters: views(tags@),
                selected_index: 0,
                mode: ModeView::Table,
                ..old(self)@
            }),
    {
        self.active_tag_filters = tags;
        self.selected_index = 0;
        self.mode = AppMode::Table;
    }

    /// Shows the help.
    pub fn show_help(&mut self)
        ensures
            final(self)@ == (AppView { mode: ModeView::Help, ..old(self)@ }),
    {
        self.mode = AppMode::Help;
    }

    /// Goes back to the table.
    pub fn return_to_table(&mut self)
        ensures
            final(self)@ == (AppView { mode: ModeView::Table, ..old(self)@ }),
    {
        self.mode = AppMode::Table;
    }

    /// Asks the application to end.
    pub fn quit(&mut self)
        ensures
            final(self)@ == (AppView { should_quit: true, ..old(self)@ }),
    {
        self.should_quit = true;
    }

    /// Takes the messages away.
    pub fn clear_messages(&mut self)
        ensures
            final(self)@ == (AppView { status_message: None, error_message: None, ..old(self)@ }),
    {
        self.status_message = None;
        self.error_message = None;
    }

    /// Takes note of how the connection went that was pending: of a success
    /// the status says so, of a failure the error is shown. Nothing is pending
    /// afterwards.
    pub fn complete_connection(&mut self, success: bool, error: Option<String>)
        ensures
            final(self)@ == (match old(self)@.pending_connection {
                Some(h) => if success {
                    AppView {
                        status_message: Some("Connected to '"@ + h.host + "'"@),
                        pending_connection: None,
                        ..old(self)@
                    }
                } else {
                    AppView {
                        error_message: opt_view(error),
                        pending_connection: None,
                        ..old(self)@
                    }
                },
                None => old(self)@,
            }),
    {
        match &self.pending_connection {
            Some(host) => {
                if success {
                    self.status_message = Some(concat3("Connected to '", host.host.as_str(), "'"));
                } else {
                    self.error_message = error;
                }
            },
            None => {},
        }
        self.pending_connection = None;
    }
}

/// The host that is selected: the one at the selected index among the hosts
/// that are shown.
pub open spec fn selected(app: AppView) -> Option<HostView> {
    if app.selected_index < shown_order(app).len() {
        Some(app.hosts[shown_order(app)[app.selected_index as int]])
    } else {
        None
    }
}

/// The index to which a page down leads among `count` hosts.
pub open spec fn paged_down(selected: usize, page_size: usize, count: nat) -> usize {
    if count == 0 {
        selected
    } else if selected + page_size < count - 1 {
        (selected + page_size) as usize
    } else {
        (count - 1) as usize
    }
}

/// The metadata with what every host holds beside its configuration taken in.
pub open spec fn kept_of(app: AppView) -> MetadataView {
    MetadataView {
        hosts: with_hosts(app.metadata.hosts, app.hosts, app.hosts.len() as int),
        ..app.metadata
    }
}

/// The first index at which the hosts hold the alias; the number of hosts
/// where none does.
pub open spec fn first_alias(hosts: Seq<HostView>, alias: Seq<char>) -> nat
    decreases hosts.len(),
{
    if hosts.len() > 0 && hosts[0].host != alias {
        1 + first_alias(hosts.drop_first(), alias)
    } else {
        0
    }
}

/// The first index at which the hosts hold an alias is what `first_alias`
/// gives.
pub proof fn lemma_first_alias(hosts: Seq<HostView>, alias: Seq<char>, i: int)
    requires
        first_alias_at(hosts, alias, i),
    ensures
        first_alias(hosts, alias) == i,
    decreases hosts.len(),
{
    if i > 0 {
        let rest = hosts.drop_first();
        assert(hosts[0].host != alias);
        assert forall|j: int| 0 <= j < i - 1 implies (#[trigger] rest[j]).host != alias by {
            assert(rest[j] == hosts[j + 1]);
        }
        assert(rest[i - 1] == hosts[i]);
        lemma_first_alias(rest, alias, i - 1);
    }
}

/// The selected host is one of the hosts.
pub proof fn lemma_selected_is_a_host(app: AppView)
    ensures
        selected(app) matches Some(h) ==> has_alias(app.hosts, h.host),
{
    if app.selected_index < shown_order(app).len() {
        let picked = shown_upto(
            app.hosts,
            app.search_query,
            app.active_tag_filters,
            app.hosts.len() as int,
        );
        let keys = keys_of(app.hosts, picked, app.sort_by);
        let order = sorted_order(keys);
        crate::sorting::lemma_order_in_range(keys, keys.len() as int);
        lemma_shown_in_range(
            app.hosts,
            app.search_query,
            app.active_tag_filters,
            app.hosts.len() as int,
        );
        let k = order[app.selected_index as int];
        assert(0 <= k < picked.len());
        let i = picked[k];
        assert(0 <= i < app.hosts.len());
        assert(app.hosts[i].host == selected(app)->0.host);
    }
}

/// The indices of the hosts that are shown are indices of hosts.
pub proof fn lemma_shown_in_range(
    hosts: Seq<HostView>,
    query: Seq<char>,
    filters: Seq<Seq<char>>,
    n: int,
)
    requires
        0 <= n <= hosts.len(),
    ensures
        forall|i: int|
            0 <= i < shown_upto(hosts, query, filters, n).len() ==> 0 <= (#[trigger] shown_upto(
                hosts,
                query,
                filters,
                n,
            )[i]) < n,
    decreases n,
{
    if n > 0 {
        lemma_shown_in_range(hosts, query, filters, n - 1);
        let prev = shown_upto(hosts, query, filters, n - 1);
        let cur = shown_upto(hosts, query, filters, n);
        assert forall|i: int| 0 <= i < cur.len() implies 0 <= (#[trigger] cur[i]) < n by {
            if i < prev.len() {
                assert(cur[i] == prev[i]);
                assert(0 <= prev[i] < n - 1);
            }
        }
    }
}

/// Whether a host other than the one at the index `replaced` has the alias.
pub open spec fn alias_taken(hosts: Seq<HostView>, alias: Seq<char>, replaced: Option<usize>)
    -> bool {
    exists|i: int|
        0 <= i < hosts.len() && (#[trigger] hosts[i]).host == alias && replaced != Some(
            i as usize,
        )
}

/// Why a host cannot be saved, if it cannot: its alias is taken, or its alias
/// or its address is empty.
pub open spec fn save_refusal(app: AppView, host: HostView, replaced: Option<usize>) -> Option<
    Seq<char>,
> {
    if alias_taken(app.hosts, host.host, replaced) {
        Some("Host '"@ + host.host + "' already exists"@)
    } else if host.host.len() == 0 {
        Some("Host alias cannot be empty"@)
    } else if host.hostname.len() == 0 {
        Some("Hostname/IP cannot be empty"@)
    } else {
        None
    }
}

/// The state after a host was saved: in place of the host at the index
/// `replaced`, or as a new host at the end.
pub open spec fn with_saved(app: AppView, host: HostView, replaced: Option<usize>) -> AppView {
    let changed = match replaced {
        Some(i) => AppView {
            hosts: app.hosts.update(i as int, host),
            ssh_config: ConfigView {
                hosts: app.ssh_config.hosts.update(i as int, host),
                ..app.ssh_config
            },
            status_message: Some("Updated host '"@ + host.host + "'"@),
            ..app
        },
        None => AppView {
            hosts: app.hosts.push(host),
            ssh_config: ConfigView { hosts: app.ssh_config.hosts.push(host), ..app.ssh_config },
            status_message: Some("Added host '"@ + host.host + "'"@),
            ..app
        },
    };
    AppView { metadata: kept_of(changed), mode: ModeView::Table, ..changed }
}

/// Whether the index of a host to replace is one of a host, in the list and
/// in the configuration.
pub open spec fn index_fits(app: AppView, replaced: Option<usize>) -> bool {
    match replaced {
        Some(i) => i < app.hosts.len() && i < app.ssh_config.hosts.len(),
        None => true,
    }
}

/// The state after the host at `index` was deleted.
pub open spec fn with_deleted(app: AppView, index: usize) -> AppView {
    let alias = app.hosts[index as int].host;
    let hosts = app.hosts.remove(index as int);
    let removed = AppView {
        hosts,
        ssh_config: ConfigView {
            hosts: app.ssh_config.hosts.remove(index as int),
            ..app.ssh_config
        },
        metadata: MetadataView {
            hosts: without_alias(app.metadata.hosts, alias),
            ..app.metadata
        },
        ..app
    };
    AppView {
        metadata: kept_of(removed),
        status_message: Some("Deleted host '"@ + alias + "'"@),
        selected_index: if app.selected_index >= hosts.len() && app.selected_index > 0 {
            (app.selected_index - 1) as usize
        } else {
            app.selected_index
        },
        mode: ModeView::Table,
        ..removed
    }
}

/// The state after the selected host was chosen to connect to at the time
/// `now`: the host is marked as used, the metadata takes that in, and the
/// host as it was is the one to connect to.
pub open spec fn with_connection(app: AppView, now: i64) -> AppView {
    match selected(app) {
        Some(h) => {
            let i = first_alias(app.hosts, h.host) as int;
            let marked = AppView {
                hosts: app.hosts.update(i, HostView { last_used: Some(now), ..app.hosts[i] }),
                ..app
            };
            AppView { metadata: kept_of(marked), pending_connection: Some(h), ..marked }
        },
        None => AppView { error_message: Some("No host selected"@), ..app },
    }
}

impl App {
    /// Whether a host other than the one at the index `replaced` has the
    /// alias.
    fn is_alias_taken(&self, alias: &str, replaced: Option<usize>) -> (r: bool)
        ensures
            r == alias_taken(self@.hosts, alias@, replaced),
    {
        let mut i: usize = 0;
        while i < self.hosts.len()
            invariant
                i <= self.hosts.len(),
                forall|j: int|
                    0 <= j < i ==> !((#[trigger] self@.hosts[j]).host == alias@ && replaced
                        != Some(j as usize)),
            decreases self.hosts.len() - i,
        {
            let other = match replaced {
                Some(o) => o != i,
                None => true,
            };
            if other && str_eq(self.hosts[i].host.as_str(), alias) {
                assert(self@.hosts[i as int].host == alias@);
                return true;
            }
            i += 1;
        }
        false
    }

    /// Saves the host that was edited: in place of the host at
    /// `original_index`, or as a new host. A host whose alias is taken or
    /// whose alias or address is empty is not saved, and the error says why.
    /// After `Ok(true)` the configuration and the metadata are to be written.
    pub fn save_edited_host(&mut self, host: Host, original_index: Option<usize>) -> (r: Result<
        bool,
        ConfigError,
    >)
        ensures
            match save_refusal(old(self)@, host@, original_index) {
                Some(why) => r == Ok::<bool, ConfigError>(false) && final(self)@ == (AppView {
                    error_message: Some(why),
                    ..old(self)@
                }),
                None => if index_fits(old(self)@, original_index) {
                    r == Ok::<bool, ConfigError>(true) && final(self)@ == with_saved(
                        old(self)@,
                        host@,
                        original_index,
                    )
                } else {
                    r == Err::<bool, ConfigError>(ConfigError::IndexOutOfBounds)
                },
            },
    {
        if self.is_alias_taken(host.host.as_str(), original_index) {
            self.error_message = Some(concat3("Host '", host.host.as_str(), "' already exists"));
            return Ok(false);
        }
        if host.host.as_str().is_empty() {
            self.error_message = Some(copy_str("Host alias cannot be empty"));
            return Ok(false);
        }
        if host.hostname.as_str().is_empty() {
            self.error_message = Some(copy_str("Hostname/IP cannot be empty"));
            return Ok(false);
        }
        let ghost before = self@;
        match original_index {
            Some(index) => {
                if index >= self.hosts.len() {
                    return Err(ConfigError::IndexOutOfBounds);
                }
                self.hosts.set(index, host.duplicate());
                assert(self@.hosts == before.hosts.update(index as int, host@));
                match self.ssh_config.update_host(index, host.duplicate()) {
                    Ok(_) => {},
                    Err(e) => {
                        return Err(e);
                    },
                }
                self.status_message = Some(concat3("Updated host '", host.host.as_str(), "'"));
            },
            None => {
                self.hosts.push(host.duplicate());
                assert(self@.hosts == before.hosts.push(host@));
                self.ssh_config.add_host(host.duplicate());
                self.status_message = Some(concat3("Added host '", host.host.as_str(), "'"));
            },
        }
        self.prepare_save();
        self.mode = AppMode::Table;
        Ok(true)
    }

    /// Asks whether to delete the selected host, if one is selected.
    pub fn start_delete_host(&mut self)
        ensures
            final(self)@ == (match selected(old(self)@) {
                Some(h) => AppView {
                    mode: ModeView::ConfirmDelete {
                        host_index: first_alias(old(self)@.hosts, h.host) as usize,
                    },
                    ..old(self)@
                },
                None => old(self)@,
            }),
    {
        let found = match self.selected_host() {
            Some(h) => alias_index(&self.hosts, h.host.as_str()),
            None => None,
        };
        proof {
            lemma_selected_is_a_host(self@);
            if selected(self@) is Some {
                let h = selected(self@)->0;
                assert(found is Some);
                lemma_first_alias(self@.hosts, h.host, found->0 as int);
            }
        }
        match found {
            Some(actual_index) => {
                self.mode = AppMode::ConfirmDelete { host_index: actual_index };
            },
            None => {},
        }
    }

    /// Deletes the host at `index` with what is kept of it, and goes back to
    /// the table. After `Ok(true)` the configuration and the metadata are to
    /// be written. Where there is no host at the index, only the table is
    /// shown again.
    pub fn delete_host(&mut self, index: usize) -> (r: Result<bool, ConfigError>)
        ensures
            index >= old(self)@.hosts.len() ==> r == Ok::<bool, ConfigError>(false) && final(self)@
                == (AppView { mode: ModeView::Table, ..old(self)@ }),
            index < old(self)@.hosts.len() && index < old(self)@.ssh_config.hosts.len() ==> r
                == Ok::<bool, ConfigError>(true) && final(self)@ == with_deleted(
                old(self)@,
                index,
            ),
            index < old(self)@.hosts.len() && index >= old(self)@.ssh_config.hosts.len() ==> r
                == Err::<bool, ConfigError>(ConfigError::IndexOutOfBounds),
    {
        let mut changed = false;
        if index < self.hosts.len() {
            let ghost before = self@;
            let host = self.hosts.remove(index);
            assert(self@.hosts == before.hosts.remove(index as int));
            match self.ssh_config.remove_host(index) {
                Ok(_) => {},
                Err(e) => {
                    return Err(e);
                },
            }
            let _ = self.metadata.remove(host.host.as_str());
            self.prepare_save();
            self.status_message = Some(concat3("Deleted host '", host.host.as_str(), "'"));
            if self.selected_index >= self.hosts.len() && self.selected_index > 0 {
                self.selected_index -= 1;
            }
            changed = true;
        }
        self.mode = AppMode::Table;
        Ok(changed)
    }

    /// Chooses the selected host to connect to at the time `now`, in
    /// milliseconds since the epoch. Where a host is selected, the result is
    /// true and the metadata is to be written; else the error says that none
    /// is.
    pub fn connect_to_selected_at(&mut self, now: i64) -> (r: bool)
        ensures
            r == selected(old(self)@).is_some(),
            final(self)@ == with_connection(old(self)@, now),
    {
        let found = match self.selected_host() {
            Some(h) => Some(h.duplicate()),
            None => None,
        };
        match found {
            Some(host) => {
                let ghost before = self@;
                let at = alias_index(&self.hosts, host.host.as_str());
                proof {
                    lemma_selected_is_a_host(self@);
                    lemma_first_alias(self@.hosts, host@.host, at->0 as int);
                }
                match at {
                    Some(i) => {
                        let mut h = self.hosts[i].duplicate();
                        h.mark_used_at(now);
                        self.hosts.set(i, h);
                        assert(self@.hosts == before.hosts.update(
                            i as int,
                            HostView { last_used: Some(now), ..before.hosts[i as int] },
                        ));
                    },
                    None => {},
                }
                self.prepare_save();
                self.pending_connection = Some(host);
                true
            },
            None => {
                self.error_message = Some(copy_str("No host selected"));
                false
            },
        }
    }

    /// Chooses the selected host to connect to now.
    pub fn connect_to_selected(&mut self) -> (r: bool)
        ensures
            r == selected(old(self)@).is_some(),
            exists|now: i64| final(self)@ == with_connection(old(self)@, now),
    {
        let now = now_millis();
        let r = self.connect_to_selected_at(now);
        assert(self@ == with_connection(old(self)@, now));
        r
    }
}

/// The text with which a field is edited: that of the field for the fields
/// that are typed; empty for the fields that have an editor of their own.
pub open spec fn editing_text(h: HostView, field: HostField) -> Seq<char> {
    match field {
        HostField::IdentityFiles => Seq::empty(),
        HostField::SshFlags => Seq::empty(),
        HostField::Shell => Seq::empty(),
        HostField::Tags => Seq::empty(),
        _ => field_text(h, field),
    }
}

/// The text with which a field of the host is edited.
pub fn get_field_value_for_editing(host: &Host, field: &HostField) -> (r: String)
    ensures
        r@ == editing_text(host@, *field),
{
    match field {
        HostField::IdentityFiles => String::new(),
        HostField::SshFlags => String::new(),
        HostField::Shell => String::new(),
        HostField::Tags => String::new(),
        _ => get_field_value(host, field),
    }
}

/// An optional text: none where the text is empty.
pub open spec fn unless_empty(s: Seq<char>) -> Option<Seq<char>> {
    if s.len() == 0 {
        None
    } else {
        Some(s)
    }
}

/// The host with a field set to what was typed. Alias and address take the
/// text as it is; user, jump host and note are unset by an empty text; the
/// port is unset by a text that is no port number. The other fields have an
/// editor of their own and stay.
pub open spec fn with_field(h: HostView, field: HostField, buffer: Seq<char>) -> HostView {
    match field {
        HostField::HostAlias => HostView { host: buffer, ..h },
        HostField::Hostname => HostView { hostname: buffer, ..h },
        HostField::User => HostView { user: unless_empty(buffer), ..h },
        HostField::Port => HostView { port: crate::number::parse_u16(buffer), ..h },
        HostField::ProxyJump => HostView { proxy_jump: unless_empty(buffer), ..h },
        HostField::Note => HostView { note: unless_empty(buffer), ..h },
        _ => h,
    }
}

fn text_unless_empty(buffer: &str) -> (r: Option<String>)
    ensures
        opt_view(r) == unless_empty(buffer@),
{
    if buffer.is_empty() {
        None
    } else {
        Some(copy_str(buffer))
    }
}

/// Sets a field of the host to what was typed.
pub fn apply_field_buffer(host: &mut Host, field: &HostField, buffer: &str)
    ensures
        final(host)@ == with_field(old(host)@, *field, buffer@),
{
    match field {
        HostField::HostAlias => {
            host.host = copy_str(buffer);
        },
        HostField::Hostname => {
            host.hostname = copy_str(buffer);
        },
        HostField::User => {
            host.user = text_unless_empty(buffer);
        },
        HostField::Port => {
            host.port = crate::number::read_u16(&chars_of(buffer));
        },
        HostField::ProxyJump => {
            host.proxy_jump = text_unless_empty(buffer);
        },
        HostField::Note => {
            host.note = text_unless_empty(buffer);
        },
        _ => {},
    }
}

} // verus!
