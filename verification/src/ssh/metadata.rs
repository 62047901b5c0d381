//! What is kept of a host beside the SSH configuration: note, tags, SSH
//! flags, shell and the time of the last connection.

use crate::models::host::{Host, HostView};
use crate::sorting::{sort_strings, sorted_texts};
use crate::text::{copy_opt, copy_str, copy_strings, has_string, opt_view, str_eq, views};
use vstd::prelude::*;

verus! {

/// What is kept of one host.
#[derive(Debug, Clone, PartialEq, Eq)]
pub struct HostMetadata {
    pub note: Option<String>,
    pub tags: Vec<String>,
    pub ssh_flags: Vec<String>,
    pub shell: Option<String>,
    /// When the host was last connected to, in milliseconds since the epoch.
    pub last_used: Option<i64>,
}

/// What is kept of one host, as contracts see it.
pub struct MetaView {
    pub note: Option<Seq<char>>,
    pub tags: Seq<Seq<char>>,
    pub ssh_flags: Seq<Seq<char>>,
    pub shell: Option<Seq<char>>,
    pub last_used: Option<i64>,
}

impl View for HostMetadata {
    type V = MetaView;

    open spec fn view(&self) -> MetaView {
        MetaView {
            note: opt_view(self.note),
            tags: views(self.tags@),
            ssh_flags: views(self.ssh_flags@),
            shell: opt_view(self.shell),
            last_used: self.last_used,
        }
    }
}

impl HostMetadata {
    /// A copy of what is kept.
    pub fn duplicate(&self) -> (r: HostMetadata)
        ensures
            r@ == self@,
    {
        HostMetadata {
            note: copy_opt(&self.note),
            tags: copy_strings(&self.tags),
            ssh_flags: copy_strings(&self.ssh_flags),
            shell: copy_opt(&self.shell),
            last_used: self.last_used,
        }
    }

    /// What is kept of the host.
    pub fn of_host(host: &Host) -> (r: HostMetadata)
        ensures
            r@ == meta_of(host@),
    {
        HostMetadata {
            note: copy_opt(&host.note),
            tags: copy_strings(&host.tags),
            ssh_flags: copy_strings(&host.ssh_flags),
            shell: copy_opt(&host.shell),
            last_used: host.last_used,
        }
    }
}

/// What is kept of a host beside its configuration.
pub open spec fn meta_of(h: HostView) -> MetaView {
    MetaView {
        note: h.note,
        tags: h.tags,
        ssh_flags: h.ssh_flags,
        shell: h.shell,
        last_used: h.last_used,
    }
}

/// A host with what is kept of it put in.
pub open spec fn host_with_meta(h: HostView, m: MetaView) -> HostView {
    HostView {
        note: m.note,
        tags: m.tags,
        ssh_flags: m.ssh_flags,
        shell: m.shell,
        last_used: m.last_used,
        ..h
    }
}

/// What is kept of the host of an alias.
#[derive(Debug, Clone, PartialEq, Eq)]
pub struct HostEntry {
    pub alias: String,
    pub metadata: HostMetadata,
}

/// An entry, as contracts see it.
pub struct EntryView {
    pub alias: Seq<char>,
    pub metadata: MetaView,
}

impl View for HostEntry {
    type V = EntryView;

    open spec fn view(&self) -> EntryView {
        EntryView { alias: self.alias@, metadata: self.metadata@ }
    }
}

/// Everything that is kept beside the SSH configuration.
#[derive(Debug, Clone, PartialEq, Eq)]
pub struct Metadata {
    /// The version of the format.
    pub version: String,
    /// The tags that are offered for every host.
    pub global_tags: Vec<String>,
    /// What is kept of each host. Of two entries for one alias the first
    /// counts.
    pub hosts: Vec<HostEntry>,
}

/// The metadata, as contracts see it.
pub struct MetadataView {
    pub version: Seq<char>,
    pub global_tags: Seq<Seq<char>>,
    pub hosts: Seq<EntryView>,
}

impl View for Metadata {
    type V = MetadataView;

    open spec fn view(&self) -> MetadataView {
        MetadataView {
            version: self.version@,
            global_tags: views(self.global_tags@),
            hosts: views(self.hosts@),
        }
    }
}

/// What the entries keep of the host of an alias.
pub open spec fn meta_for(entries: Seq<EntryView>, alias: Seq<char>) -> Option<MetaView>
    decreases entries.len(),
{
    if entries.len() == 0 {
        None
    } else {
        match meta_for(entries.drop_last(), alias) {
            Some(m) => Some(m),
            None => if entries.last().alias == alias {
                Some(entries.last().metadata)
            } else {
                None
            },
        }
    }
}

/// The entries without those of an alias, in order.
pub open spec fn without_alias(entries: Seq<EntryView>, alias: Seq<char>) -> Seq<EntryView>
    decreases entries.len(),
{
    if entries.len() == 0 {
        Seq::empty()
    } else if entries.last().alias == alias {
        without_alias(entries.drop_last(), alias)
    } else {
        without_alias(entries.drop_last(), alias).push(entries.last())
    }
}

/// The entries with what is kept of the host of an alias set: in place of
/// what was kept of it before, if anything.
pub open spec fn with_entry(entries: Seq<EntryView>, alias: Seq<char>, m: MetaView) -> Seq<
    EntryView,
> {
    without_alias(entries, alias).push(EntryView { alias, metadata: m })
}

/// Whether no alias has two entries.
pub open spec fn distinct_aliases(entries: Seq<EntryView>) -> bool {
    forall|i: int, j: int|
        0 <= i < j < entries.len() ==> (#[trigger] entries[i]).alias != (#[trigger] entries[j]).alias
}

/// Each entry that is left without an alias was an entry before, and no alias
/// has two entries that had not before.
pub proof fn lemma_without_alias_distinct(entries: Seq<EntryView>, alias: Seq<char>)
    ensures
        forall|i: int|
            0 <= i < without_alias(entries, alias).len() ==> (#[trigger] without_alias(
                entries,
                alias,
            )[i]).alias != alias && exists|k: int|
                0 <= k < entries.len() && (#[trigger] entries[k]).alias == without_alias(
                    entries,
                    alias,
                )[i].alias,
        distinct_aliases(entries) ==> distinct_aliases(without_alias(entries, alias)),
    decreases entries.len(),
{
    if entries.len() > 0 {
        let init = entries.drop_last();
        lemma_without_alias_distinct(init, alias);
        let kept = without_alias(init, alias);
        let out = without_alias(entries, alias);
        assert forall|i: int| 0 <= i < out.len() implies (#[trigger] out[i]).alias != alias
            && exists|k: int|
            0 <= k < entries.len() && (#[trigger] entries[k]).alias == out[i].alias by {
            if i < kept.len() {
                assert(out[i] == kept[i]);
                let k = choose|k: int|
                    0 <= k < init.len() && (#[trigger] init[k]).alias == kept[i].alias;
                assert(entries[k] == init[k]);
            } else {
                assert(out[i] == entries[entries.len() - 1]);
            }
        }
        if distinct_aliases(entries) {
            assert forall|i: int, j: int| 0 <= i < j < init.len() implies (#[trigger] init[i]).alias
                != (#[trigger] init[j]).alias by {
                assert(init[i] == entries[i]);
                assert(init[j] == entries[j]);
            }
            assert forall|i: int, j: int| 0 <= i < j < out.len() implies (#[trigger] out[i]).alias
                != (#[trigger] out[j]).alias by {
                assert(out[i] == kept[i]);
                if j < kept.len() {
                    assert(out[j] == kept[j]);
                } else {
                    let k = choose|k: int|
                        0 <= k < init.len() && (#[trigger] init[k]).alias == kept[i].alias;
                    assert(entries[k] == init[k]);
                    assert(entries[k].alias != entries[entries.len() - 1].alias);
                }
            }
        }
    }
}

/// Setting what is kept for an alias lets no alias have two entries that had
/// not before.
pub proof fn lemma_with_entry_distinct(entries: Seq<EntryView>, alias: Seq<char>, m: MetaView)
    requires
        distinct_aliases(entries),
    ensures
        distinct_aliases(with_entry(entries, alias, m)),
{
    lemma_without_alias_distinct(entries, alias);
    let kept = without_alias(entries, alias);
    let out = with_entry(entries, alias, m);
    assert forall|i: int, j: int| 0 <= i < j < out.len() implies (#[trigger] out[i]).alias != (
    #[trigger] out[j]).alias by {
        assert(out[i] == kept[i]);
        if j < kept.len() {
            assert(out[j] == kept[j]);
        }
    }
}

/// Taking hosts in lets no alias have two entries that had not before.
pub proof fn lemma_with_hosts_distinct(entries: Seq<EntryView>, hosts: Seq<HostView>, n: int)
    requires
        distinct_aliases(entries),
    ensures
        distinct_aliases(with_hosts(entries, hosts, n)),
    decreases n,
{
    if n > 0 {
        lemma_with_hosts_distinct(entries, hosts, n - 1);
        lemma_with_entry_distinct(
            with_hosts(entries, hosts, n - 1),
            hosts[n - 1].host,
            meta_of(hosts[n - 1]),
        );
    }
}

/// Without the entries of an alias, nothing is kept of its host, and of every
/// other host what was kept before.
pub proof fn lemma_without_alias(entries: Seq<EntryView>, alias: Seq<char>, other: Seq<char>)
    ensures
        meta_for(without_alias(entries, alias), alias) is None,
        other != alias ==> meta_for(without_alias(entries, alias), other) == meta_for(
            entries,
            other,
        ),
    decreases entries.len(),
{
    if entries.len() > 0 {
        lemma_without_alias(entries.drop_last(), alias, other);
        if entries.last().alias != alias {
            assert(without_alias(entries, alias).drop_last() == without_alias(
                entries.drop_last(),
                alias,
            ));
        }
    }
}

/// What is set for an alias is what is kept of its host afterwards, and what
/// is kept of every other host stays.
pub proof fn lemma_set_then_get(
    entries: Seq<EntryView>,
    alias: Seq<char>,
    m: MetaView,
    other: Seq<char>,
)
    ensures
        meta_for(with_entry(entries, alias, m), alias) == Some(m),
        other != alias ==> meta_for(with_entry(entries, alias, m), other) == meta_for(
            entries,
            other,
        ),
{
    lemma_without_alias(entries, alias, other);
    assert(with_entry(entries, alias, m).drop_last() == without_alias(entries, alias));
}

/// What a prefix of the entries keeps of a host, all of them keep.
pub proof fn lemma_meta_for_prefix(entries: Seq<EntryView>, alias: Seq<char>, n: int)
    requires
        0 <= n <= entries.len(),
        meta_for(entries.take(n), alias) is Some,
    ensures
        meta_for(entries, alias) == meta_for(entries.take(n), alias),
    decreases entries.len() - n,
{
    if n == entries.len() {
        assert(entries.take(n) == entries);
    } else {
        assert(entries.take(n + 1).drop_last() == entries.take(n));
        lemma_meta_for_prefix(entries, alias, n + 1);
    }
}

/// The index of the first entry of an alias.
fn entry_index(entries: &Vec<HostEntry>, alias: &str) -> (r: Option<usize>)
    ensures
        match r {
            Some(i) => i < entries.len() && meta_for(views(entries@), alias@) == Some(
                entries@[i as int].metadata@,
            ),
            None => meta_for(views(entries@), alias@) is None,
        },
{
    let mut i: usize = 0;
    assert(views(entries@).take(0) == Seq::<EntryView>::empty());
    while i < entries.len()
        invariant
            i <= entries.len(),
            meta_for(views(entries@).take(i as int), alias@) is None,
        decreases entries.len() - i,
    {
        let ghost next = views(entries@).take(i + 1);
        assert(next.drop_last() == views(entries@).take(i as int));
        assert(next.last() == entries@[i as int]@);
        if str_eq(entries[i].alias.as_str(), alias) {
            proof {
                lemma_meta_for_prefix(views(entries@), alias@, i + 1);
            }
            return Some(i);
        }
        i += 1;
    }
    assert(views(entries@).take(entries.len() as int) == views(entries@));
    None
}

/// The version of the format that is written.
pub fn default_version() -> (r: String)
    ensures
        r@ == "1.0"@,
{
    copy_str("1.0")
}

/// The tags with one more, in the order of the dictionary; as they are where
/// the tag is among them.
pub open spec fn with_tag(tags: Seq<Seq<char>>, tag: Seq<char>) -> Seq<Seq<char>> {
    if tags.contains(tag) {
        tags
    } else {
        sorted_texts(tags.push(tag))
    }
}

/// What is kept after the first `n` hosts were taken in.
pub open spec fn with_hosts(entries: Seq<EntryView>, hosts: Seq<HostView>, n: int) -> Seq<
    EntryView,
>
    decreases n,
{
    if n <= 0 {
        entries
    } else {
        with_entry(with_hosts(entries, hosts, n - 1), hosts[n - 1].host, meta_of(hosts[n - 1]))
    }
}

/// A host with what the entries keep of it, as it is where they keep nothing.
pub open spec fn merged(entries: Seq<EntryView>, h: HostView) -> HostView {
    match meta_for(entries, h.host) {
        Some(m) => host_with_meta(h, m),
        None => h,
    }
}

impl Metadata {
    /// Whether the metadata is well formed: no alias has two entries.
    pub open spec fn wf(&self) -> bool {
        distinct_aliases(self@.hosts)
    }

    /// Metadata with no tags and no hosts.
    pub fn new() -> (r: Metadata)
        ensures
            r@ == (MetadataView {
                version: "1.0"@,
                global_tags: Seq::empty(),
                hosts: Seq::empty(),
            }),
            r.wf(),
    {
        let r = Metadata { version: default_version(), global_tags: Vec::new(), hosts: Vec::new() };
        assert(r@.global_tags == Seq::<Seq<char>>::empty());
        assert(r@.hosts == Seq::<EntryView>::empty());
        r
    }

    /// Adds a tag to the tags that are offered, and keeps them in order.
    pub fn add_global_tag(&mut self, tag: String)
        ensures
            final(self)@ == (MetadataView {
                global_tags: with_tag(old(self)@.global_tags, tag@),
                ..old(self)@
            }),
            old(self).wf() ==> final(self).wf(),
    {
        if !has_string(&self.global_tags, tag.as_str()) {
            let ghost before = self@.global_tags;
            self.global_tags.push(tag);
            assert(self@.global_tags == before.push(tag@));
            self.global_tags = sort_strings(&self.global_tags);
        }
    }

    /// The tags that are offered.
    pub fn get_global_tags(&self) -> (r: Vec<String>)
        ensures
            views(r@) == self@.global_tags,
    {
        copy_strings(&self.global_tags)
    }

    /// What is kept of the host of the alias.
    pub fn get(&self, host_alias: &str) -> (r: Option<&HostMetadata>)
        ensures
            match r {
                Some(m) => meta_for(self@.hosts, host_alias@) == Some(m@),
                None => meta_for(self@.hosts, host_alias@) is None,
            },
    {
        match entry_index(&self.hosts, host_alias) {
            Some(i) => Some(&self.hosts[i].metadata),
            None => None,
        }
    }

    /// The entries without those of the alias.
    fn entries_without(&self, alias: &str) -> (r: Vec<HostEntry>)
        ensures
            views(r@) == without_alias(self@.hosts, alias@),
    {
        let mut kept: Vec<HostEntry> = Vec::new();
        let mut i: usize = 0;
        assert(self@.hosts.take(0) == Seq::<EntryView>::empty());
        while i < self.hosts.len()
            invariant
                i <= self.hosts.len(),
                views(kept@) == without_alias(self@.hosts.take(i as int), alias@),
            decreases self.hosts.len() - i,
        {
            let ghost before = views(kept@);
            let e = &self.hosts[i];
            assert(self@.hosts.take(i + 1).drop_last() == self@.hosts.take(i as int));
            assert(self@.hosts.take(i + 1).last() == e@);
            if !str_eq(e.alias.as_str(), alias) {
                let c = HostEntry { alias: e.alias.clone(), metadata: e.metadata.duplicate() };
                kept.push(c);
                assert(views(kept@) == before.push(e@));
            }
            i += 1;
        }
        assert(self@.hosts.take(self.hosts.len() as int) == self@.hosts);
        kept
    }

    /// Keeps `metadata` of the host of the alias, in place of what was kept of
    /// it before.
    pub fn set(&mut self, host_alias: String, metadata: HostMetadata)
        ensures
            final(self)@ == (MetadataView {
                hosts: with_entry(old(self)@.hosts, host_alias@, metadata@),
                ..old(self)@
            }),
            old(self).wf() ==> final(self).wf(),
    {
        proof {
            if self.wf() {
                lemma_with_entry_distinct(self@.hosts, host_alias@, metadata@);
            }
        }
        let mut kept = self.entries_without(host_alias.as_str());
        let ghost before = views(kept@);
        let e = HostEntry { alias: host_alias, metadata };
        kept.push(e);
        assert(views(kept@) == before.push(e@));
        self.hosts = kept;
    }

    /// Keeps nothing of the host of the alias any more, and returns what was
    /// kept of it.
    pub fn remove(&mut self, host_alias: &str) -> (r: Option<HostMetadata>)
        ensures
            final(self)@ == (MetadataView {
                hosts: without_alias(old(self)@.hosts, host_alias@),
                ..old(self)@
            }),
            match r {
                Some(m) => meta_for(old(self)@.hosts, host_alias@) == Some(m@),
                None => meta_for(old(self)@.hosts, host_alias@) is None,
            },
            old(self).wf() ==> final(self).wf(),
    {
        proof {
            lemma_without_alias_distinct(self@.hosts, host_alias@);
        }
        let found = match entry_index(&self.hosts, host_alias) {
            Some(i) => Some(self.hosts[i].metadata.duplicate()),
            None => None,
        };
        self.hosts = self.entries_without(host_alias);
        found
    }

    /// Puts into the host what is kept of it; a host of which nothing is kept
    /// stays as it is.
    pub fn apply_to_host(&self, host: &mut Host)
        ensures
            final(host)@ == merged(self@.hosts, old(host)@),
    {
        match self.get(host.host.as_str()) {
            Some(m) => {
                host.note = copy_opt(&m.note);
                host.tags = copy_strings(&m.tags);
                host.ssh_flags = copy_strings(&m.ssh_flags);
                host.shell = copy_opt(&m.shell);
                host.last_used = m.last_used;
            },
            None => {},
        }
    }

    /// Keeps of the host what it holds beside its configuration.
    pub fn extract_from_host(&mut self, host: &Host)
        ensures
            final(self)@ == (MetadataView {
                hosts: with_entry(old(self)@.hosts, host@.host, meta_of(host@)),
                ..old(self)@
            }),
            old(self).wf() ==> final(self).wf(),
    {
        self.set(host.host.clone(), HostMetadata::of_host(host));
    }

    /// Puts into each host what is kept of it.
    pub fn merge_into_hosts(&self, hosts: &mut Vec<Host>)
        ensures
            final(hosts).len() == old(hosts).len(),
            forall|i: int|
                0 <= i < old(hosts).len() ==> (#[trigger] final(hosts)@[i])@ == merged(
                    self@.hosts,
                    old(hosts)@[i]@,
                ),
    {
        let mut i: usize = 0;
        while i < hosts.len()
            invariant
                i <= hosts.len(),
                hosts.len() == old(hosts).len(),
                forall|j: int|
                    0 <= j < i ==> (#[trigger] hosts@[j])@ == merged(self@.hosts, old(hosts)@[j]@),
                forall|j: int| i <= j < hosts.len() ==> hosts@[j] == old(hosts)@[j],
            decreases hosts.len() - i,
        {
            let mut h = hosts[i].duplicate();
            self.apply_to_host(&mut h);
            hosts.set(i, h);
            i += 1;
        }
    }

    /// Keeps of each host what it holds beside its configuration.
    pub fn extract_from_hosts(&mut self, hosts: &Vec<Host>)
        ensures
            final(self)@ == (MetadataView {
                hosts: with_hosts(old(self)@.hosts, views(hosts@), hosts.len() as int),
                ..old(self)@
            }),
            old(self).wf() ==> final(self).wf(),
    {
        proof {
            if self.wf() {
                lemma_with_hosts_distinct(self@.hosts, views(hosts@), hosts.len() as int);
            }
        }
        let mut i: usize = 0;
        while i < hosts.len()
            invariant
                i <= hosts.len(),
                self@ == (MetadataView {
                    hosts: with_hosts(old(self)@.hosts, views(hosts@), i as int),
                    ..old(self)@
                }),
            decreases hosts.len() - i,
        {
            assert(views(hosts@)[i as int] == hosts@[i as int]@);
            self.extract_from_host(&hosts[i]);
            i += 1;
        }
    }
}

impl Default for Metadata {
    fn default() -> (r: Metadata)
        ensures
            r@ == (MetadataView {
                version: "1.0"@,
                global_tags: Seq::empty(),
                hosts: Seq::empty(),
            }),
    {
        Metadata::new()
    }
}

} // verus!
