//! The queue of remote commands for one host and the inventory that their
//! results fill.
//!
//! At most one command is in flight. The caller runs it and hands back what it
//! printed; the orchestrator reads that into the inventory, queues the
//! commands that follow from it, and says which command is next.

use crate::docker::commands::{docker_ps_command, ps_command};
use crate::docker::discovery::{
    create_script_from_content, find_command, find_scripts_command, list_projects_command, listed,
    parse_project_listing, parse_script_paths, projects_of, read_command, read_script_command,
    script_of, write_command, write_script_command,
};
use crate::docker::parser::{container_list, listing_of, parse_directory_listing, parse_docker_ps};
use crate::docker::script_parser::{apply_script_changes, generate_script, patched, script_text};
use crate::models::{Container, DeploymentScript, EnvVar, FileEntry, Project};
use crate::models::docker::container::ContainerView;
use crate::models::docker::script::{EntryView, EnvVarView, ProjectView, ScriptView};
use crate::text::{copy_str, opt_view, str_eq, views};
use vstd::prelude::*;

verus! {

/// What a command is for, with what is needed to read its result.
#[derive(Debug, Clone, PartialEq, Eq)]
pub enum CommandKind {
    /// Lists the containers of the host.
    DockerPs,
    /// Lists the project directories.
    ListProjects,
    /// Finds the scripts under the directory of a project.
    FindScripts { project: String, path: String },
    /// Prints the script of a project at a path.
    ReadScript { project: String, path: String },
    /// Writes the script at a path.
    WriteScript { path: String },
    /// Lists a directory for the file browser.
    ListDirectory { path: String },
    /// Lists a directory for the browser of the file transfer.
    RsyncListDirectory { path: String },
}

/// What a command is for, as contracts see it.
pub enum KindView {
    DockerPs,
    ListProjects,
    FindScripts { project: Seq<char>, path: Seq<char> },
    ReadScript { project: Seq<char>, path: Seq<char> },
    WriteScript { path: Seq<char> },
    ListDirectory { path: Seq<char> },
    RsyncListDirectory { path: Seq<char> },
}

impl View for CommandKind {
    type V = KindView;

    open spec fn view(&self) -> KindView {
        match self {
            CommandKind::DockerPs => KindView::DockerPs,
            CommandKind::ListProjects => KindView::ListProjects,
            CommandKind::FindScripts { project, path } => KindView::FindScripts {
                project: project@,
                path: path@,
            },
            CommandKind::ReadScript { project, path } => KindView::ReadScript {
                project: project@,
                path: path@,
            },
            CommandKind::WriteScript { path } => KindView::WriteScript { path: path@ },
            CommandKind::ListDirectory { path } => KindView::ListDirectory { path: path@ },
            CommandKind::RsyncListDirectory { path } => KindView::RsyncListDirectory {
                path: path@,
            },
        }
    }
}

impl CommandKind {
    /// A copy of the kind.
    pub fn duplicate(&self) -> (r: CommandKind)
        ensures
            r@ == self@,
    {
        match self {
            CommandKind::DockerPs => CommandKind::DockerPs,
            CommandKind::ListProjects => CommandKind::ListProjects,
            CommandKind::FindScripts { project, path } => CommandKind::FindScripts {
                project: project.clone(),
                path: path.clone(),
            },
            CommandKind::ReadScript { project, path } => CommandKind::ReadScript {
                project: project.clone(),
                path: path.clone(),
            },
            CommandKind::WriteScript { path } => CommandKind::WriteScript { path: path.clone() },
            CommandKind::ListDirectory { path } => CommandKind::ListDirectory {
                path: path.clone(),
            },
            CommandKind::RsyncListDirectory { path } => CommandKind::RsyncListDirectory {
                path: path.clone(),
            },
        }
    }
}

/// A command that waits to be run on a host.
#[derive(Debug, Clone, PartialEq, Eq)]
pub struct PendingCommand {
    pub host: String,
    pub command: String,
    pub kind: CommandKind,
}

/// A command, as contracts see it.
pub struct CommandView {
    pub host: Seq<char>,
    pub command: Seq<char>,
    pub kind: KindView,
}

impl View for PendingCommand {
    type V = CommandView;

    open spec fn view(&self) -> CommandView {
        CommandView { host: self.host@, command: self.command@, kind: self.kind@ }
    }
}

impl PendingCommand {
    /// A copy of the command.
    pub fn duplicate(&self) -> (r: PendingCommand)
        ensures
            r@ == self@,
    {
        PendingCommand {
            host: self.host.clone(),
            command: self.command.clone(),
            kind: self.kind.duplicate(),
        }
    }
}

/// The view of an optional command.
pub open spec fn command_view(c: Option<PendingCommand>) -> Option<CommandView> {
    match c {
        Some(c) => Some(c@),
        None => None,
    }
}

/// The script that is held responsible for a container of a host.
#[derive(Debug, Clone, PartialEq, Eq)]
pub struct Association {
    pub host: String,
    pub container: String,
    pub script_path: String,
}

/// An association, as contracts see it.
pub struct AssociationView {
    pub host: Seq<char>,
    pub container: Seq<char>,
    pub script_path: Seq<char>,
}

impl View for Association {
    type V = AssociationView;

    open spec fn view(&self) -> AssociationView {
        AssociationView {
            host: self.host@,
            container: self.container@,
            script_path: self.script_path@,
        }
    }
}

/// What is known of one connected host.
#[derive(Debug, Clone, PartialEq, Eq)]
pub struct InventoryState {
    pub containers: Vec<Container>,
    pub projects: Vec<Project>,
    pub scripts: Vec<DeploymentScript>,
    /// Which script belongs to which container. Of two entries for one
    /// container of one host the first counts.
    pub associations: Vec<Association>,
}

/// The inventory, as contracts see it.
pub struct InventoryView {
    pub containers: Seq<ContainerView>,
    pub projects: Seq<ProjectView>,
    pub scripts: Seq<ScriptView>,
    pub associations: Seq<AssociationView>,
}

impl View for InventoryState {
    type V = InventoryView;

    open spec fn view(&self) -> InventoryView {
        InventoryView {
            containers: views(self.containers@),
            projects: views(self.projects@),
            scripts: views(self.scripts@),
            associations: views(self.associations@),
        }
    }
}

/// The script path that the associations give for a container of a host.
pub open spec fn lookup(index: Seq<AssociationView>, host: Seq<char>, container: Seq<char>)
    -> Option<Seq<char>>
    decreases index.len(),
{
    if index.len() == 0 {
        None
    } else {
        match lookup(index.drop_last(), host, container) {
            Some(path) => Some(path),
            None => if index.last().host == host && index.last().container == container {
                Some(index.last().script_path)
            } else {
                None
            },
        }
    }
}

/// The associations without those of a container of a host, in order.
pub open spec fn without_pair(index: Seq<AssociationView>, host: Seq<char>, container: Seq<char>)
    -> Seq<AssociationView>
    decreases index.len(),
{
    if index.len() == 0 {
        Seq::empty()
    } else if index.last().host == host && index.last().container == container {
        without_pair(index.drop_last(), host, container)
    } else {
        without_pair(index.drop_last(), host, container).push(index.last())
    }
}

/// The path of the first script that deploys a container of the given name.
pub open spec fn script_for(scripts: Seq<ScriptView>, container: Seq<char>) -> Option<Seq<char>>
    decreases scripts.len(),
{
    if scripts.len() == 0 {
        None
    } else {
        match script_for(scripts.drop_last(), container) {
            Some(path) => Some(path),
            None => if scripts.last().container_name == container {
                Some(scripts.last().path)
            } else {
                None
            },
        }
    }
}

/// The associations after the first `n` containers were looked at: a container
/// that has none yet gets the script that deploys a container of its name.
pub open spec fn learned(
    index: Seq<AssociationView>,
    scripts: Seq<ScriptView>,
    containers: Seq<ContainerView>,
    n: int,
) -> Seq<AssociationView>
    decreases n,
{
    if n <= 0 {
        index
    } else {
        let prev = learned(index, scripts, containers, n - 1);
        let c = containers[n - 1];
        match (lookup(prev, c.server_name, c.name), script_for(scripts, c.name)) {
            (None, Some(path)) => prev.push(
                AssociationView { host: c.server_name, container: c.name, script_path: path },
            ),
            _ => prev,
        }
    }
}

/// The containers, each linked to the script that the associations give it.
pub open spec fn linked(containers: Seq<ContainerView>, index: Seq<AssociationView>) -> Seq<
    ContainerView,
> {
    Seq::new(
        containers.len(),
        |i: int|
            ContainerView {
                script_path: lookup(index, containers[i].server_name, containers[i].name),
                ..containers[i]
            },
    )
}

/// The inventory with its containers and scripts paired: each container that
/// has no association yet gets the script of its name, and every container is
/// linked to the script that its association names.
pub open spec fn associated(inv: InventoryView) -> InventoryView {
    let index = learned(inv.associations, inv.scripts, inv.containers, inv.containers.len() as int);
    InventoryView { containers: linked(inv.containers, index), associations: index, ..inv }
}

/// The script path that the associations give for a container of a host.
pub fn find_association(index: &Vec<Association>, host: &str, container: &str) -> (r: Option<
    String,
>)
    ensures
        opt_view(r) == lookup(views(index@), host@, container@),
{
    let mut i: usize = 0;
    assert(views(index@).take(0) == Seq::<AssociationView>::empty());
    while i < index.len()
        invariant
            i <= index.len(),
            lookup(views(index@).take(i as int), host@, container@) is None,
        decreases index.len() - i,
    {
        let ghost next = views(index@).take(i + 1);
        assert(next.drop_last() == views(index@).take(i as int));
        assert(next.last() == index@[i as int]@);
        if str_eq(index[i].host.as_str(), host) && str_eq(index[i].container.as_str(), container) {
            proof {
                lemma_lookup_prefix(views(index@), host@, container@, i + 1);
            }
            return Some(index[i].script_path.clone());
        }
        i += 1;
    }
    assert(views(index@).take(index.len() as int) == views(index@));
    None
}

/// What a prefix of the associations gives, all of them give.
pub proof fn lemma_lookup_prefix(
    index: Seq<AssociationView>,
    host: Seq<char>,
    container: Seq<char>,
    n: int,
)
    requires
        0 <= n <= index.len(),
        lookup(index.take(n), host, container) is Some,
    ensures
        lookup(index, host, container) == lookup(index.take(n), host, container),
    decreases index.len() - n,
{
    if n == index.len() {
        assert(index.take(n) == index);
    } else {
        assert(index.take(n + 1).drop_last() == index.take(n));
        lemma_lookup_prefix(index, host, container, n + 1);
    }
}

/// The path of the first script that deploys a container of the given name.
pub fn find_script_path(scripts: &Vec<DeploymentScript>, container: &str) -> (r: Option<String>)
    ensures
        opt_view(r) == script_for(views(scripts@), container@),
{
    let mut i: usize = 0;
    assert(views(scripts@).take(0) == Seq::<ScriptView>::empty());
    while i < scripts.len()
        invariant
            i <= scripts.len(),
            script_for(views(scripts@).take(i as int), container@) is None,
        decreases scripts.len() - i,
    {
        let ghost next = views(scripts@).take(i + 1);
        assert(next.drop_last() == views(scripts@).take(i as int));
        assert(next.last() == scripts@[i as int]@);
        if str_eq(scripts[i].container_name.as_str(), container) {
            proof {
                lemma_script_for_prefix(views(scripts@), container@, i + 1);
            }
            return Some(scripts[i].path.clone());
        }
        i += 1;
    }
    assert(views(scripts@).take(scripts.len() as int) == views(scripts@));
    None
}

/// What a prefix of the scripts gives, all of them give.
pub proof fn lemma_script_for_prefix(scripts: Seq<ScriptView>, container: Seq<char>, n: int)
    requires
        0 <= n <= scripts.len(),
        script_for(scripts.take(n), container) is Some,
    ensures
        script_for(scripts, container) == script_for(scripts.take(n), container),
    decreases scripts.len() - n,
{
    if n == scripts.len() {
        assert(scripts.take(n) == scripts);
    } else {
        assert(scripts.take(n + 1).drop_last() == scripts.take(n));
        lemma_script_for_prefix(scripts, container, n + 1);
    }
}

/// Whether no container of a host has two associations.
pub open spec fn distinct_pairs(index: Seq<AssociationView>) -> bool {
    forall|i: int, j: int|
        0 <= i < j < index.len() ==> !((#[trigger] index[i]).host == (#[trigger] index[j]).host
            && index[i].container == index[j].container)
}

/// The associations give nothing for a container of a host exactly where none
/// of them is for it.
pub proof fn lemma_lookup_none(index: Seq<AssociationView>, host: Seq<char>, container: Seq<char>)
    ensures
        lookup(index, host, container) is None <==> forall|i: int|
            0 <= i < index.len() ==> !((#[trigger] index[i]).host == host && index[i].container
                == container),
    decreases index.len(),
{
    if index.len() > 0 {
        let init = index.drop_last();
        lemma_lookup_none(init, host, container);
        if lookup(index, host, container) is None {
            assert forall|i: int| 0 <= i < index.len() implies !((#[trigger] index[i]).host == host
                && index[i].container == container) by {
                if i < init.len() {
                    assert(index[i] == init[i]);
                }
            }
        } else if lookup(init, host, container) is Some {
            let k = choose|k: int|
                0 <= k < init.len() && (#[trigger] init[k]).host == host && init[k].container
                    == container;
            assert(index[k] == init[k]);
        } else {
            assert(index[index.len() - 1].host == host);
        }
    }
}

/// One more association, for a container of a host that had none, lets no
/// container have two.
pub proof fn lemma_push_distinct(index: Seq<AssociationView>, a: AssociationView)
    requires
        distinct_pairs(index),
        lookup(index, a.host, a.container) is None,
    ensures
        distinct_pairs(index.push(a)),
{
    lemma_lookup_none(index, a.host, a.container);
    let next = index.push(a);
    assert forall|i: int, j: int| 0 <= i < j < next.len() implies !((#[trigger] next[i]).host == (
    #[trigger] next[j]).host && next[i].container == next[j].container) by {
        assert(next[i] == index[i]);
        if j < index.len() {
            assert(next[j] == index[j]);
        }
    }
}

/// What is learned from the containers lets no container have two
/// associations.
pub proof fn lemma_learned_distinct(
    index: Seq<AssociationView>,
    scripts: Seq<ScriptView>,
    containers: Seq<ContainerView>,
    n: int,
)
    requires
        distinct_pairs(index),
    ensures
        distinct_pairs(learned(index, scripts, containers, n)),
    decreases n,
{
    if n > 0 {
        lemma_learned_distinct(index, scripts, containers, n - 1);
        let prev = learned(index, scripts, containers, n - 1);
        let c = containers[n - 1];
        match (lookup(prev, c.server_name, c.name), script_for(scripts, c.name)) {
            (None, Some(path)) => {
                lemma_push_distinct(
                    prev,
                    AssociationView { host: c.server_name, container: c.name, script_path: path },
                );
            },
            _ => {},
        }
    }
}

/// Without the associations of a container of a host, the associations give
/// nothing for it, and no container has two that had not before.
pub proof fn lemma_without_pair(index: Seq<AssociationView>, host: Seq<char>, container: Seq<char>)
    ensures
        lookup(without_pair(index, host, container), host, container) is None,
        distinct_pairs(index) ==> distinct_pairs(without_pair(index, host, container)),
        forall|h: Seq<char>, c: Seq<char>|
            lookup(index, h, c) is None ==> #[trigger] lookup(
                without_pair(index, host, container),
                h,
                c,
            ) is None,
    decreases index.len(),
{
    if index.len() > 0 {
        let init = index.drop_last();
        let last = index.last();
        lemma_without_pair(init, host, container);
        let kept = without_pair(init, host, container);
        let out = without_pair(index, host, container);
        if !(last.host == host && last.container == container) {
            assert(out.drop_last() == kept);
        }
        assert forall|h: Seq<char>, c: Seq<char>| lookup(index, h, c) is None implies #[trigger] lookup(
            out,
            h,
            c,
        ) is None by {
            assert(lookup(init, h, c) is None);
            assert(lookup(kept, h, c) is None);
        }
        if distinct_pairs(index) {
            assert forall|i: int, j: int| 0 <= i < j < init.len() implies !((#[trigger] init[i]).host
                == (#[trigger] init[j]).host && init[i].container == init[j].container) by {
                assert(init[i] == index[i]);
                assert(init[j] == index[j]);
            }
            if !(last.host == host && last.container == container) {
                assert(lookup(init, last.host, last.container) is None) by {
                    lemma_lookup_none(init, last.host, last.container);
                    assert forall|i: int| 0 <= i < init.len() implies !((#[trigger] init[i]).host
                        == last.host && init[i].container == last.container) by {
                        assert(init[i] == index[i]);
                        assert(last == index[index.len() - 1]);
                    }
                }
                assert(lookup(kept, last.host, last.container) is None);
                lemma_push_distinct(kept, last);
            }
        }
    }
}

/// Adding an association takes nothing from what the associations gave
/// before.
pub proof fn lemma_lookup_push(
    index: Seq<AssociationView>,
    a: AssociationView,
    host: Seq<char>,
    container: Seq<char>,
)
    ensures
        lookup(index, host, container) is Some ==> lookup(index.push(a), host, container)
            == lookup(index, host, container),
        lookup(index, host, container) is None ==> lookup(index.push(a), host, container) == (if a.host
            == host && a.container == container {
            Some(a.script_path)
        } else {
            None
        }),
{
    assert(index.push(a).drop_last() == index);
}

/// What the associations give is kept while more are learned.
pub proof fn lemma_learned_keeps(
    index: Seq<AssociationView>,
    scripts: Seq<ScriptView>,
    containers: Seq<ContainerView>,
    n: int,
    host: Seq<char>,
    container: Seq<char>,
)
    requires
        lookup(index, host, container) is Some,
    ensures
        lookup(learned(index, scripts, containers, n), host, container) == lookup(
            index,
            host,
            container,
        ),
    decreases n,
{
    if n > 0 {
        lemma_learned_keeps(index, scripts, containers, n - 1, host, container);
        let prev = learned(index, scripts, containers, n - 1);
        let c = containers[n - 1];
        match (lookup(prev, c.server_name, c.name), script_for(scripts, c.name)) {
            (None, Some(path)) => {
                lemma_lookup_push(
                    prev,
                    AssociationView { host: c.server_name, container: c.name, script_path: path },
                    host,
                    container,
                );
            },
            _ => {},
        }
    }
}

/// Once the associations were learned from the containers, each of the first
/// `n` containers for which there is a script has an association.
pub proof fn lemma_learned_covers(
    index: Seq<AssociationView>,
    scripts: Seq<ScriptView>,
    containers: Seq<ContainerView>,
    n: int,
    i: int,
)
    requires
        0 <= i < n <= containers.len(),
        script_for(scripts, containers[i].name) is Some,
    ensures
        lookup(
            learned(index, scripts, containers, n),
            containers[i].server_name,
            containers[i].name,
        ) is Some,
    decreases n,
{
    let c = containers[i];
    if i == n - 1 {
        let prev = learned(index, scripts, containers, n - 1);
        match (lookup(prev, c.server_name, c.name), script_for(scripts, c.name)) {
            (None, Some(path)) => {
                lemma_lookup_push(
                    prev,
                    AssociationView { host: c.server_name, container: c.name, script_path: path },
                    c.server_name,
                    c.name,
                );
            },
            _ => {},
        }
    } else {
        lemma_learned_covers(index, scripts, containers, n - 1, i);
        let prev = learned(index, scripts, containers, n - 1);
        lemma_learned_keeps(prev, scripts, containers, 0, c.server_name, c.name);
        let d = containers[n - 1];
        match (lookup(prev, d.server_name, d.name), script_for(scripts, d.name)) {
            (None, Some(path)) => {
                lemma_lookup_push(
                    prev,
                    AssociationView { host: d.server_name, container: d.name, script_path: path },
                    c.server_name,
                    c.name,
                );
            },
            _ => {},
        }
    }
}

/// Where each container for which there is a script has an association,
/// nothing more is learned from the containers.
pub proof fn lemma_learned_nothing(
    index: Seq<AssociationView>,
    scripts: Seq<ScriptView>,
    containers: Seq<ContainerView>,
    n: int,
)
    requires
        0 <= n <= containers.len(),
        forall|i: int|
            0 <= i < n && script_for(scripts, (#[trigger] containers[i]).name) is Some ==> lookup(
                index,
                containers[i].server_name,
                containers[i].name,
            ) is Some,
    ensures
        learned(index, scripts, containers, n) == index,
    decreases n,
{
    if n > 0 {
        lemma_learned_nothing(index, scripts, containers, n - 1);
        assert(containers[n - 1] == containers[n - 1]);
    }
}

/// Pairing containers and scripts a second time changes nothing.
pub proof fn lemma_associated_twice(inv: InventoryView)
    ensures
        associated(associated(inv)) == associated(inv),
{
    let once = associated(inv);
    let n = inv.containers.len() as int;
    assert forall|i: int|
        0 <= i < n && script_for(once.scripts, (#[trigger] once.containers[i]).name) is Some implies lookup(
        once.associations,
        once.containers[i].server_name,
        once.containers[i].name,
    ) is Some by {
        lemma_learned_covers(inv.associations, inv.scripts, inv.containers, n, i);
    }
    lemma_learned_nothing(once.associations, once.scripts, once.containers, n);
    assert(linked(once.containers, once.associations) =~= once.containers);
}

/// Reading the same list of containers a second time leaves the inventory as
/// the first reading left it.
pub proof fn lemma_docker_ps_twice(s: OrchestratorView, text: Seq<char>)
    ensures
        absorbed(absorbed(s, KindView::DockerPs, text), KindView::DockerPs, text).inventory
            == absorbed(s, KindView::DockerPs, text).inventory,
{
    let list = container_list(text, s.host);
    let first = InventoryView { containers: list, ..s.inventory };
    let once = associated(first);
    let again = InventoryView { containers: list, ..once };
    let n = list.len() as int;
    assert forall|i: int|
        0 <= i < n && script_for(again.scripts, (#[trigger] again.containers[i]).name) is Some implies lookup(
        again.associations,
        again.containers[i].server_name,
        again.containers[i].name,
    ) is Some by {
        lemma_learned_covers(first.associations, first.scripts, first.containers, n, i);
    }
    lemma_learned_nothing(again.associations, again.scripts, again.containers, n);
    assert(linked(list, once.associations) =~= once.containers);
}

impl InventoryState {
    /// Whether the inventory is well formed: no container of a host has two
    /// associations.
    pub open spec fn wf(&self) -> bool {
        distinct_pairs(self@.associations)
    }

    /// An inventory with nothing in it.
    pub fn new() -> (r: InventoryState)
        ensures
            r@ == (InventoryView {
                containers: Seq::empty(),
                projects: Seq::empty(),
                scripts: Seq::empty(),
                associations: Seq::empty(),
            }),
            r.wf(),
    {
        let r = InventoryState {
            containers: Vec::new(),
            projects: Vec::new(),
            scripts: Vec::new(),
            associations: Vec::new(),
        };
        assert(r@.containers == Seq::<ContainerView>::empty());
        assert(r@.projects == Seq::<ProjectView>::empty());
        assert(r@.scripts == Seq::<ScriptView>::empty());
        assert(r@.associations == Seq::<AssociationView>::empty());
        r
    }

    /// Pairs containers and scripts.
    pub fn associate(&mut self)
        ensures
            final(self)@ == associated(old(self)@),
            old(self).wf() ==> final(self).wf(),
    {
        let ghost start = self@;
        proof {
            if self.wf() {
                lemma_learned_distinct(
                    start.associations,
                    start.scripts,
                    start.containers,
                    start.containers.len() as int,
                );
            }
        }
        let mut i: usize = 0;
        while i < self.containers.len()
            invariant
                i <= self.containers.len(),
                self@.containers == start.containers,
                self@.projects == start.projects,
                self@.scripts == start.scripts,
                self@.associations == learned(
                    start.associations,
                    start.scripts,
                    start.containers,
                    i as int,
                ),
            decreases self.containers.len() - i,
        {
            let ghost before = self@.associations;
            let c = &self.containers[i];
            assert(start.containers[i as int] == c@);
            let known = find_association(&self.associations, c.server_name.as_str(), c.name.as_str());
            if known.is_none() {
                match find_script_path(&self.scripts, c.name.as_str()) {
                    Some(path) => {
                        let a = Association {
                            host: c.server_name.clone(),
                            container: c.name.clone(),
                            script_path: path,
                        };
                        self.associations.push(a);
                        assert(self@.associations == before.push(a@));
                    },
                    None => {},
                }
            }
            i += 1;
        }
        let mut out: Vec<Container> = Vec::new();
        let mut j: usize = 0;
        let ghost target = linked(start.containers, self@.associations);
        while j < self.containers.len()
            invariant
                j <= self.containers.len(),
                self@.containers == start.containers,
                self@.projects == start.projects,
                self@.scripts == start.scripts,
                self@.associations == associated(start).associations,
                target == linked(start.containers, self@.associations),
                views(out@) == target.take(j as int),
            decreases self.containers.len() - j,
        {
            let ghost before = views(out@);
            let c = &self.containers[j];
            assert(start.containers[j as int] == c@);
            let path = find_association(&self.associations, c.server_name.as_str(), c.name.as_str());
            let d = c.with_script(path);
            out.push(d);
            j += 1;
            assert(views(out@) == before.push(d@));
            assert(views(out@) == target.take(j as int));
        }
        assert(target.take(self.containers.len() as int) == target);
        self.containers = out;
    }

    /// Records that the script at `script_path` belongs to the container of
    /// the host: in place of what was recorded for it before, if anything.
    pub fn set_association(&mut self, host: &str, container: &str, script_path: &str)
        ensures
            final(self)@ == (InventoryView {
                associations: without_pair(old(self)@.associations, host@, container@).push(
                    AssociationView {
                        host: host@,
                        container: container@,
                        script_path: script_path@,
                    },
                ),
                ..old(self)@
            }),
            lookup(final(self)@.associations, host@, container@) == Some(script_path@),
            forall|h: Seq<char>, c: Seq<char>|
                !(h == host@ && c == container@) ==> #[trigger] lookup(
                    final(self)@.associations,
                    h,
                    c,
                ) == lookup(old(self)@.associations, h, c),
            old(self).wf() ==> final(self).wf(),
    {
        let ghost before = self@.associations;
        proof {
            lemma_without_pair(before, host@, container@);
            if self.wf() {
                lemma_push_distinct(
                    without_pair(before, host@, container@),
                    AssociationView {
                        host: host@,
                        container: container@,
                        script_path: script_path@,
                    },
                );
            }
        }
        let mut kept: Vec<Association> = Vec::new();
        let mut i: usize = 0;
        assert(before.take(0) == Seq::<AssociationView>::empty());
        while i < self.associations.len()
            invariant
                i <= self.associations.len(),
                *self == *old(self),
                before == views(self.associations@),
                views(kept@) == without_pair(before.take(i as int), host@, container@),
                lookup(views(kept@), host@, container@) is None,
                forall|h: Seq<char>, c: Seq<char>|
                    !(h == host@ && c == container@) ==> #[trigger] lookup(views(kept@), h, c)
                        == lookup(before.take(i as int), h, c),
            decreases self.associations.len() - i,
        {
            let ghost k0 = views(kept@);
            let a = &self.associations[i];
            assert(before.take(i + 1).drop_last() == before.take(i as int));
            assert(before.take(i + 1).last() == a@);
            let skip = str_eq(a.host.as_str(), host) && str_eq(a.container.as_str(), container);
            if !skip {
                let b = Association {
                    host: a.host.clone(),
                    container: a.container.clone(),
                    script_path: a.script_path.clone(),
                };
                kept.push(b);
                assert(views(kept@) == k0.push(a@));
                assert(views(kept@).drop_last() == k0);
            }
            proof {
                assert forall|h: Seq<char>, c: Seq<char>|
                    !(h == host@ && c == container@) implies #[trigger] lookup(
                    views(kept@),
                    h,
                    c,
                ) == lookup(before.take(i + 1), h, c) by {
                    assert(lookup(k0, h, c) == lookup(before.take(i as int), h, c));
                }
            }
            i += 1;
        }
        assert(before.take(self.associations.len() as int) == before);
        let ghost k0 = views(kept@);
        let a = Association {
            host: copy_str(host),
            container: copy_str(container),
            script_path: copy_str(script_path),
        };
        kept.push(a);
        assert(views(kept@) == k0.push(a@));
        assert(views(kept@).drop_last() == k0);
        proof {
            assert forall|h: Seq<char>, c: Seq<char>|
                !(h == host@ && c == container@) implies #[trigger] lookup(views(kept@), h, c)
                == lookup(before, h, c) by {
                assert(lookup(k0, h, c) == lookup(before, h, c));
            }
        }
        self.associations = kept;
    }

    /// Forgets everything, the associations too.
    pub fn clear(&mut self)
        ensures
            final(self)@ == (InventoryView {
                containers: Seq::empty(),
                projects: Seq::empty(),
                scripts: Seq::empty(),
                associations: Seq::empty(),
            }),
            final(self).wf(),
    {
        *self = InventoryState::new();
    }
}

/// The queue of commands for one host, the command in flight, and the
/// inventory.
#[derive(Debug, Clone, PartialEq, Eq)]
pub struct Orchestrator {
    /// The name of the host.
    pub host: String,
    /// The directory of the host under which the projects lie.
    pub clients_path: String,
    pub inventory: InventoryState,
    /// The commands that wait, the next to run first.
    pub queue: Vec<PendingCommand>,
    /// The command that is being run.
    pub in_flight: Option<PendingCommand>,
    /// How many commands were queued since the orchestrator was made.
    pub issued: usize,
}

/// The orchestrator, as contracts see it.
pub struct OrchestratorView {
    pub host: Seq<char>,
    pub clients_path: Seq<char>,
    pub inventory: InventoryView,
    pub queue: Seq<CommandView>,
    pub in_flight: Option<CommandView>,
    pub issued: usize,
}

impl View for Orchestrator {
    type V = OrchestratorView;

    open spec fn view(&self) -> OrchestratorView {
        OrchestratorView {
            host: self.host@,
            clients_path: self.clients_path@,
            inventory: self.inventory@,
            queue: views(self.queue@),
            in_flight: command_view(self.in_flight),
            issued: self.issued,
        }
    }
}

/// One more than `n`, unless `n` is the largest number.
pub open spec fn counted(n: usize) -> usize {
    if n < usize::MAX {
        (n + 1) as usize
    } else {
        n
    }
}

/// The state with a command put at the end of the queue.
pub open spec fn enqueued(s: OrchestratorView, c: CommandView) -> OrchestratorView {
    OrchestratorView { queue: s.queue.push(c), issued: counted(s.issued), ..s }
}

/// The state with the first `n` of the commands put at the end of the queue,
/// in order.
pub open spec fn enqueued_all(s: OrchestratorView, cs: Seq<CommandView>, n: int)
    -> OrchestratorView
    decreases n,
{
    if n <= 0 {
        s
    } else {
        enqueued(enqueued_all(s, cs, n - 1), cs[n - 1])
    }
}

/// The state with the command at the front of the queue made the one in
/// flight, where none is in flight and the queue is not empty.
pub open spec fn promoted(s: OrchestratorView) -> OrchestratorView {
    if s.in_flight is None && s.queue.len() > 0 {
        OrchestratorView { in_flight: Some(s.queue[0]), queue: s.queue.drop_first(), ..s }
    } else {
        s
    }
}

/// The commands that find the scripts of the projects, one for each project,
/// in order.
pub open spec fn find_commands(host: Seq<char>, projects: Seq<ProjectView>) -> Seq<CommandView> {
    Seq::new(
        projects.len(),
        |i: int|
            CommandView {
                host,
                command: find_command(projects[i].path),
                kind: KindView::FindScripts { project: projects[i].name, path: projects[i].path },
            },
    )
}

/// The commands that print the scripts at the paths, one for each path, in
/// order.
pub open spec fn read_commands(host: Seq<char>, project: Seq<char>, paths: Seq<Seq<char>>) -> Seq<
    CommandView,
> {
    Seq::new(
        paths.len(),
        |i: int|
            CommandView {
                host,
                command: read_command(paths[i]),
                kind: KindView::ReadScript { project, path: paths[i] },
            },
    )
}

/// How many projects stand before the first of the given name.
pub open spec fn project_index(projects: Seq<ProjectView>, name: Seq<char>) -> nat
    decreases projects.len(),
{
    if projects.len() > 0 && projects[0].name != name {
        1 + project_index(projects.drop_first(), name)
    } else {
        0
    }
}

/// The projects with the script added to the first project of the given name.
pub open spec fn with_script(projects: Seq<ProjectView>, name: Seq<char>, script: ScriptView)
    -> Seq<ProjectView> {
    let i = project_index(projects, name) as int;
    if i < projects.len() {
        projects.update(
            i,
            ProjectView { scripts: projects[i].scripts.push(script), ..projects[i] },
        )
    } else {
        projects
    }
}

/// The state once the result of a command is read: no command is in flight,
/// the inventory holds what the result tells, and the commands that follow
/// from it are queued.
pub open spec fn absorbed(s: OrchestratorView, kind: KindView, text: Seq<char>)
    -> OrchestratorView {
    let idle = OrchestratorView { in_flight: None, ..s };
    match kind {
        KindView::DockerPs => OrchestratorView {
            inventory: associated(
                InventoryView { containers: container_list(text, s.host), ..s.inventory },
            ),
            ..idle
        },
        KindView::ListProjects => {
            let projects = projects_of(text, s.clients_path);
            enqueued_all(
                OrchestratorView {
                    inventory: InventoryView { projects, scripts: Seq::empty(), ..s.inventory },
                    ..idle
                },
                find_commands(s.host, projects),
                projects.len() as int,
            )
        },
        KindView::FindScripts { project, path } => enqueued_all(
            idle,
            read_commands(s.host, project, listed(text)),
            listed(text).len() as int,
        ),
        KindView::ReadScript { project, path } => match script_of(path, text, project) {
            Some(script) => OrchestratorView {
                inventory: associated(
                    InventoryView {
                        projects: with_script(s.inventory.projects, project, script),
                        scripts: s.inventory.scripts.push(script),
                        ..s.inventory
                    },
                ),
                ..idle
            },
            None => idle,
        },
        KindView::WriteScript { path } => idle,
        KindView::ListDirectory { path } => idle,
        KindView::RsyncListDirectory { path } => idle,
    }
}

/// The state after the result of a command: it is read, and the next command
/// of the queue is in flight.
pub open spec fn after_result(s: OrchestratorView, kind: KindView, text: Seq<char>)
    -> OrchestratorView {
    promoted(absorbed(s, kind, text))
}

/// The state after a command failed: nothing follows from it, and the next
/// command of the queue is in flight.
pub open spec fn after_failure(s: OrchestratorView) -> OrchestratorView {
    promoted(OrchestratorView { in_flight: None, ..s })
}

/// The directory that a result shows, where the command listed one.
pub open spec fn listing_for(kind: KindView, text: Seq<char>) -> Option<Seq<EntryView>> {
    match kind {
        KindView::ListDirectory { path } => Some(listing_of(text)),
        KindView::RsyncListDirectory { path } => Some(listing_of(text)),
        _ => None,
    }
}

/// What a result brought, for the status line.
#[derive(Debug, Clone, PartialEq, Eq)]
pub enum Notice {
    /// So many containers are listed.
    Containers(usize),
    /// So many projects are listed.
    Projects(usize),
    /// So many scripts were found under a project.
    Scripts(usize),
    /// A deployment script was read.
    ScriptRead,
    /// What was read is no deployment script.
    NotAScript,
    /// A script was written.
    ScriptWritten,
    /// A directory was listed.
    Directory,
}

/// What a result brings.
pub open spec fn notice_for(s: OrchestratorView, kind: KindView, text: Seq<char>) -> Notice {
    match kind {
        KindView::DockerPs => Notice::Containers(container_list(text, s.host).len() as usize),
        KindView::ListProjects => Notice::Projects(
            projects_of(text, s.clients_path).len() as usize,
        ),
        KindView::FindScripts { project, path } => Notice::Scripts(listed(text).len() as usize),
        KindView::ReadScript { project, path } => if script_of(path, text, project) is Some {
            Notice::ScriptRead
        } else {
            Notice::NotAScript
        },
        KindView::WriteScript { path } => Notice::ScriptWritten,
        KindView::ListDirectory { path } => Notice::Directory,
        KindView::RsyncListDirectory { path } => Notice::Directory,
    }
}

/// What the caller is handed after a result.
#[derive(Debug, Clone, PartialEq, Eq)]
pub struct Outcome {
    /// The command to run next.
    pub next: Option<PendingCommand>,
    /// The directory that the result shows, for the browser that asked.
    pub listing: Option<Vec<FileEntry>>,
    /// What the result brought.
    pub notice: Notice,
}

/// The view of an optional listing.
pub open spec fn listing_view(l: Option<Vec<FileEntry>>) -> Option<Seq<EntryView>> {
    match l {
        Some(l) => Some(views(l@)),
        None => None,
    }
}

/// How many projects stand before the first of the given name.
pub fn find_project(projects: &Vec<Project>, name: &str) -> (r: usize)
    ensures
        r == project_index(views(projects@), name@),
        r <= projects.len(),
{
    let mut i: usize = 0;
    assert(views(projects@).skip(0) == views(projects@));
    while i < projects.len() && !str_eq(projects[i].name.as_str(), name)
        invariant
            i <= projects.len(),
            project_index(views(projects@), name@) == i + project_index(
                views(projects@).skip(i as int),
                name@,
            ),
        decreases projects.len() - i,
    {
        assert(views(projects@).skip(i as int)[0] == projects@[i as int]@);
        assert(views(projects@).skip(i as int).drop_first() == views(projects@).skip(i + 1));
        i += 1;
    }
    if i < projects.len() {
        assert(views(projects@).skip(i as int)[0] == projects@[i as int]@);
    }
    i
}

impl Orchestrator {
    /// Whether the orchestrator is well formed: its inventory is.
    pub open spec fn wf(&self) -> bool {
        self.inventory.wf()
    }

    /// An orchestrator for the host with an empty inventory, an empty queue and
    /// nothing in flight.
    pub fn new(host: &str, clients_path: &str) -> (r: Orchestrator)
        ensures
            r@ == (OrchestratorView {
                host: host@,
                clients_path: clients_path@,
                inventory: InventoryView {
                    containers: Seq::empty(),
                    projects: Seq::empty(),
                    scripts: Seq::empty(),
                    associations: Seq::empty(),
                },
                queue: Seq::empty(),
                in_flight: None,
                issued: 0,
            }),
            r.wf(),
    {
        let r = Orchestrator {
            host: copy_str(host),
            clients_path: copy_str(clients_path),
            inventory: InventoryState::new(),
            queue: Vec::new(),
            in_flight: None,
            issued: 0,
        };
        assert(r@.queue == Seq::<CommandView>::empty());
        r
    }

    /// Puts a command at the end of the queue.
    pub fn enqueue(&mut self, command: PendingCommand)
        ensures
            final(self)@ == enqueued(old(self)@, command@),
    {
        let ghost before = self@.queue;
        self.queue.push(command);
        if self.issued < usize::MAX {
            self.issued = self.issued + 1;
        }
        assert(self@.queue == before.push(command@));
    }

    /// Makes the command at the front of the queue the one in flight and
    /// returns it, where none is in flight and the queue is not empty.
    pub fn take_next_if_idle(&mut self) -> (r: Option<PendingCommand>)
        ensures
            final(self)@ == promoted(old(self)@),
            command_view(r) == (if old(self)@.in_flight is None && old(self)@.queue.len() > 0 {
                Some(old(self)@.queue[0])
            } else {
                None
            }),
    {
        if self.in_flight.is_none() && self.queue.len() > 0 {
            let ghost before = self@.queue;
            let next = self.queue.remove(0);
            assert(self@.queue == before.drop_first());
            assert(next@ == before[0]);
            let copy = next.duplicate();
            self.in_flight = Some(next);
            Some(copy)
        } else {
            None
        }
    }

    /// Queues the commands that start a discovery: the list of the containers,
    /// running or all, then the list of the projects.
    pub fn start_discovery(&mut self, all: bool)
        ensures
            final(self)@ == enqueued(
                enqueued(
                    old(self)@,
                    CommandView {
                        host: old(self)@.host,
                        command: ps_command(all),
                        kind: KindView::DockerPs,
                    },
                ),
                CommandView {
                    host: old(self)@.host,
                    command: crate::docker::discovery::projects_command(old(self)@.clients_path),
                    kind: KindView::ListProjects,
                },
            ),
    {
        let ps = PendingCommand {
            host: self.host.clone(),
            command: docker_ps_command(all),
            kind: CommandKind::DockerPs,
        };
        self.enqueue(ps);
        let list = PendingCommand {
            host: self.host.clone(),
            command: list_projects_command(self.clients_path.as_str()),
            kind: CommandKind::ListProjects,
        };
        self.enqueue(list);
    }

    /// Queues one command for each project that finds its scripts.
    fn enqueue_find_scripts(&mut self)
        ensures
            final(self)@ == enqueued_all(
                old(self)@,
                find_commands(old(self)@.host, old(self)@.inventory.projects),
                old(self)@.inventory.projects.len() as int,
            ),
            final(self)@.in_flight == old(self)@.in_flight,
            final(self)@.inventory == old(self)@.inventory,
    {
        let ghost cs = find_commands(self@.host, self@.inventory.projects);
        let mut i: usize = 0;
        while i < self.inventory.projects.len()
            invariant
                i <= self.inventory.projects.len(),
                self@.host == old(self)@.host,
                self@.inventory == old(self)@.inventory,
                self@.in_flight == old(self)@.in_flight,
                cs == find_commands(old(self)@.host, old(self)@.inventory.projects),
                self@ == enqueued_all(old(self)@, cs, i as int),
            decreases self.inventory.projects.len() - i,
        {
            let p = &self.inventory.projects[i];
            assert(self@.inventory.projects[i as int] == p@);
            let c = PendingCommand {
                host: self.host.clone(),
                command: find_scripts_command(p.path.as_str()),
                kind: CommandKind::FindScripts { project: p.name.clone(), path: p.path.clone() },
            };
            assert(c@ == cs[i as int]);
            self.enqueue(c);
            i += 1;
        }
    }

    /// Queues one command for each path that prints the script there.
    fn enqueue_read_scripts(&mut self, project: &str, paths: &Vec<String>)
        ensures
            final(self)@ == enqueued_all(
                old(self)@,
                read_commands(old(self)@.host, project@, views(paths@)),
                paths.len() as int,
            ),
            final(self)@.in_flight == old(self)@.in_flight,
            final(self)@.inventory == old(self)@.inventory,
    {
        let ghost cs = read_commands(self@.host, project@, views(paths@));
        let mut i: usize = 0;
        while i < paths.len()
            invariant
                i <= paths.len(),
                self@.host == old(self)@.host,
                self@.in_flight == old(self)@.in_flight,
                self@.inventory == old(self)@.inventory,
                cs == read_commands(old(self)@.host, project@, views(paths@)),
                self@ == enqueued_all(old(self)@, cs, i as int),
            decreases paths.len() - i,
        {
            assert(views(paths@)[i as int] == paths@[i as int]@);
            let c = PendingCommand {
                host: self.host.clone(),
                command: read_script_command(paths[i].as_str()),
                kind: CommandKind::ReadScript {
                    project: copy_str(project),
                    path: paths[i].clone(),
                },
            };
            assert(c@ == cs[i as int]);
            self.enqueue(c);
            i += 1;
        }
    }

    /// Adds a script to the first project of the given name and to the list of
    /// all scripts.
    fn add_script(&mut self, project: &str, script: DeploymentScript)
        ensures
            final(self)@ == (OrchestratorView {
                inventory: InventoryView {
                    projects: with_script(old(self)@.inventory.projects, project@, script@),
                    scripts: old(self)@.inventory.scripts.push(script@),
                    ..old(self)@.inventory
                },
                ..old(self)@
            }),
    {
        let ghost before = self@;
        let i = find_project(&self.inventory.projects, project);
        if i < self.inventory.projects.len() {
            let p = &self.inventory.projects[i];
            assert(before.inventory.projects[i as int] == p@);
            let mut scripts: Vec<DeploymentScript> = Vec::new();
            let mut j: usize = 0;
            while j < p.scripts.len()
                invariant
                    j <= p.scripts.len(),
                    views(scripts@) == views(p.scripts@).take(j as int),
                decreases p.scripts.len() - j,
            {
                let ghost s0 = views(scripts@);
                scripts.push(p.scripts[j].duplicate());
                j += 1;
                assert(views(scripts@) == s0.push(p.scripts@[j - 1]@));
                assert(views(scripts@) == views(p.scripts@).take(j as int));
            }
            assert(views(p.scripts@).take(p.scripts.len() as int) == views(p.scripts@));
            let ghost s0 = views(scripts@);
            scripts.push(script.duplicate());
            assert(views(scripts@) == s0.push(script@));
            let q = Project { name: p.name.clone(), path: p.path.clone(), scripts };
            self.inventory.projects.set(i, q);
            assert(self@.inventory.projects == before.inventory.projects.update(i as int, q@));
        }
        let ghost s1 = self@.inventory.scripts;
        self.inventory.scripts.push(script);
        assert(self@.inventory.scripts == s1.push(script@));
    }

    /// Reads the result of a command into the inventory and queues what
    /// follows from it; nothing is in flight afterwards.
    fn absorb(&mut self, kind: &CommandKind, raw_text: &str) -> (r: Notice)
        ensures
            final(self)@ == absorbed(old(self)@, kind@, raw_text@),
            final(self)@.in_flight is None,
            r == notice_for(old(self)@, kind@, raw_text@),
            old(self).wf() ==> final(self).wf(),
    {
        self.in_flight = None;
        match kind {
            CommandKind::DockerPs => {
                let found = parse_docker_ps(raw_text, self.host.as_str());
                let count = found.len();
                assert(views(found@).len() == count);
                self.inventory.containers = found;
                self.inventory.associate();
                Notice::Containers(count)
            },
            CommandKind::ListProjects => {
                let found = parse_project_listing(raw_text, self.clients_path.as_str());
                let count = found.len();
                assert(views(found@).len() == count);
                self.inventory.projects = found;
                self.inventory.scripts = Vec::new();
                assert(self@.inventory.scripts == Seq::<ScriptView>::empty());
                self.enqueue_find_scripts();
                Notice::Projects(count)
            },
            CommandKind::FindScripts { project, path } => {
                let paths = parse_script_paths(raw_text);
                assert(views(paths@).len() == paths.len());
                self.enqueue_read_scripts(project.as_str(), &paths);
                Notice::Scripts(paths.len())
            },
            CommandKind::ReadScript { project, path } => {
                match create_script_from_content(path.as_str(), raw_text, project.as_str()) {
                    Some(script) => {
                        self.add_script(project.as_str(), script);
                        self.inventory.associate();
                        Notice::ScriptRead
                    },
                    None => Notice::NotAScript,
                }
            },
            CommandKind::WriteScript { path } => Notice::ScriptWritten,
            CommandKind::ListDirectory { path } => Notice::Directory,
            CommandKind::RsyncListDirectory { path } => Notice::Directory,
        }
    }

    /// Takes the result of the command in flight: reads it into the inventory,
    /// queues the commands that follow from it, and puts the next command of
    /// the queue in flight. The caller gets that command, and the directory
    /// where the command listed one.
    pub fn on_result(&mut self, kind: &CommandKind, raw_text: &str) -> (r: Outcome)
        ensures
            final(self)@ == after_result(old(self)@, kind@, raw_text@),
            command_view(r.next) == final(self)@.in_flight,
            listing_view(r.listing) == listing_for(kind@, raw_text@),
            r.notice == notice_for(old(self)@, kind@, raw_text@),
            old(self).wf() ==> final(self).wf(),
    {
        let notice = self.absorb(kind, raw_text);
        let next = self.take_next_if_idle();
        let listing = match kind {
            CommandKind::ListDirectory { path } => Some(
                parse_directory_listing(raw_text, path.as_str()),
            ),
            CommandKind::RsyncListDirectory { path } => Some(
                parse_directory_listing(raw_text, path.as_str()),
            ),
            _ => None,
        };
        Outcome { next, listing, notice }
    }

    /// Takes note that the command in flight failed: nothing follows from it,
    /// it is not tried again, and the next command of the queue is put in
    /// flight and returned.
    pub fn on_failure(&mut self) -> (r: Option<PendingCommand>)
        ensures
            final(self)@ == after_failure(old(self)@),
            command_view(r) == final(self)@.in_flight,
    {
        self.in_flight = None;
        self.take_next_if_idle()
    }

    /// Forgets the host's inventory, its associations and every command.
    pub fn disconnect(&mut self)
        ensures
            final(self)@ == (OrchestratorView {
                inventory: InventoryView {
                    containers: Seq::empty(),
                    projects: Seq::empty(),
                    scripts: Seq::empty(),
                    associations: Seq::empty(),
                },
                queue: Seq::empty(),
                in_flight: None,
                ..old(self)@
            }),
    {
        self.inventory.clear();
        self.queue = Vec::new();
        self.in_flight = None;
        assert(self@.queue == Seq::<CommandView>::empty());
    }
}


/// How many scripts stand before the first at the given path.
pub open spec fn path_index(scripts: Seq<ScriptView>, path: Seq<char>) -> nat
    decreases scripts.len(),
{
    if scripts.len() > 0 && scripts[0].path != path {
        1 + path_index(scripts.drop_first(), path)
    } else {
        0
    }
}

/// The scripts with one put in: in place of the first script at its path, or
/// at the end where there is none at its path.
pub open spec fn with_put(scripts: Seq<ScriptView>, script: ScriptView) -> Seq<ScriptView> {
    let i = path_index(scripts, script.path) as int;
    if i < scripts.len() {
        scripts.update(i, script)
    } else {
        scripts.push(script)
    }
}

/// The projects with a script put into the first project of the name of its
/// owner.
pub open spec fn with_put_in(projects: Seq<ProjectView>, script: ScriptView) -> Seq<ProjectView> {
    let i = project_index(projects, script.client_name) as int;
    if i < projects.len() {
        projects.update(
            i,
            ProjectView { scripts: with_put(projects[i].scripts, script), ..projects[i] },
        )
    } else {
        projects
    }
}

/// The text that is written for a script: a script that has no text yet is
/// written out whole; the text of one that has is brought up to its
/// variables, where `before` are the variables that the text was read with.
pub open spec fn text_to_write(script: ScriptView, before: Seq<EnvVarView>) -> Seq<char> {
    if script.raw_content.len() == 0 {
        script_text(script)
    } else {
        patched(script, before)
    }
}

/// The state after a script was saved: the inventory holds the script with
/// the text that is written, containers and scripts are paired anew, and the
/// command that writes the text is queued.
pub open spec fn with_written(s: OrchestratorView, script: ScriptView, before: Seq<EnvVarView>)
    -> OrchestratorView {
    let text = text_to_write(script, before);
    let saved = ScriptView { raw_content: text, ..script };
    enqueued(
        OrchestratorView {
            inventory: associated(
                InventoryView {
                    projects: with_put_in(s.inventory.projects, saved),
                    scripts: with_put(s.inventory.scripts, saved),
                    ..s.inventory
                },
            ),
            ..s
        },
        CommandView {
            host: s.host,
            command: write_command(script.path, text),
            kind: KindView::WriteScript { path: script.path },
        },
    )
}

/// How many scripts stand before the first at the path.
fn find_path(scripts: &Vec<DeploymentScript>, path: &str) -> (r: usize)
    ensures
        r == path_index(views(scripts@), path@),
        r <= scripts.len(),
{
    let mut i: usize = 0;
    assert(views(scripts@).skip(0) == views(scripts@));
    while i < scripts.len() && !str_eq(scripts[i].path.as_str(), path)
        invariant
            i <= scripts.len(),
            path_index(views(scripts@), path@) == i + path_index(
                views(scripts@).skip(i as int),
                path@,
            ),
        decreases scripts.len() - i,
    {
        assert(views(scripts@).skip(i as int)[0] == scripts@[i as int]@);
        assert(views(scripts@).skip(i as int).drop_first() == views(scripts@).skip(i + 1));
        i += 1;
    }
    if i < scripts.len() {
        assert(views(scripts@).skip(i as int)[0] == scripts@[i as int]@);
    }
    i
}

/// Puts a script into the scripts: in place of the first at its path, or at
/// the end.
fn put_script(scripts: &mut Vec<DeploymentScript>, script: DeploymentScript)
    ensures
        views(final(scripts)@) == with_put(views(old(scripts)@), script@),
{
    let ghost before = views(scripts@);
    let i = find_path(scripts, script.path.as_str());
    if i < scripts.len() {
        scripts.set(i, script);
        assert(views(scripts@) == before.update(i as int, script@));
    } else {
        scripts.push(script);
        assert(views(scripts@) == before.push(script@));
    }
}

/// The text that is written for the script.
pub fn content_to_write(script: &DeploymentScript, original_env_vars: &Vec<EnvVar>) -> (r: String)
    ensures
        r@ == text_to_write(script@, views(original_env_vars@)),
{
    if script.raw_content.as_str().is_empty() {
        generate_script(script)
    } else {
        apply_script_changes(script, original_env_vars)
    }
}

impl Orchestrator {
    /// Saves a script that was edited, where `original_env_vars` are the
    /// variables that its text was read with: the inventory takes the script
    /// with its new text at once, and the command that writes the text to the
    /// host is queued.
    pub fn save_script(&mut self, script: &DeploymentScript, original_env_vars: &Vec<EnvVar>)
        ensures
            final(self)@ == with_written(old(self)@, script@, views(original_env_vars@)),
            old(self).wf() ==> final(self).wf(),
    {
        let ghost start = self@;
        let content = content_to_write(script, original_env_vars);
        let mut saved = script.duplicate();
        saved.raw_content = content.clone();
        let i = find_project(&self.inventory.projects, saved.client_name.as_str());
        if i < self.inventory.projects.len() {
            let p = &self.inventory.projects[i];
            assert(start.inventory.projects[i as int] == p@);
            let mut scripts: Vec<DeploymentScript> = Vec::new();
            let mut j: usize = 0;
            while j < p.scripts.len()
                invariant
                    j <= p.scripts.len(),
                    views(scripts@) == views(p.scripts@).take(j as int),
                decreases p.scripts.len() - j,
            {
                let ghost s0 = views(scripts@);
                scripts.push(p.scripts[j].duplicate());
                j += 1;
                assert(views(scripts@) == s0.push(p.scripts@[j - 1]@));
                assert(views(scripts@) == views(p.scripts@).take(j as int));
            }
            assert(views(p.scripts@).take(p.scripts.len() as int) == views(p.scripts@));
            put_script(&mut scripts, saved.duplicate());
            let q = Project { name: p.name.clone(), path: p.path.clone(), scripts };
            self.inventory.projects.set(i, q);
            assert(self@.inventory.projects == start.inventory.projects.update(i as int, q@));
        }
        put_script(&mut self.inventory.scripts, saved);
        self.inventory.associate();
        let command = PendingCommand {
            host: self.host.clone(),
            command: write_script_command(script.path.as_str(), content.as_str()),
            kind: CommandKind::WriteScript { path: script.path.clone() },
        };
        self.enqueue(command);
    }
}

} // verus!
