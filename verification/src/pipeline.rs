//! A discovery as a whole: the results of its commands read one after the
//! other, and what holds of reading the same results again.

use crate::docker::discovery::{projects_of, script_of};
use crate::docker::parser::container_list;
use crate::models::docker::container::ContainerView;
use crate::models::docker::script::ScriptView;
use crate::orchestrator::{
    absorbed, associated, enqueued_all, learned, lemma_learned_covers, lemma_learned_keeps,
    lemma_learned_nothing, linked, lookup, script_for, with_script, AssociationView, CommandView,
    InventoryView, KindView, OrchestratorView,
};
use vstd::prelude::*;

verus! {

/// The result of a command: what the command was for, and what it printed.
pub type Answer = (KindView, Seq<char>);

/// The state after the first `n` results were read, one after the other.
pub open spec fn run(s: OrchestratorView, rs: Seq<Answer>, n: int) -> OrchestratorView
    decreases n,
{
    if n <= 0 {
        s
    } else {
        absorbed(run(s, rs, n - 1), rs[n - 1].0, rs[n - 1].1)
    }
}

/// What a result makes of the inventory of a host whose projects lie under
/// the clients path.
pub open spec fn inventory_after(
    inv: InventoryView,
    host: Seq<char>,
    clients_path: Seq<char>,
    kind: KindView,
    text: Seq<char>,
) -> InventoryView {
    match kind {
        KindView::DockerPs => associated(
            InventoryView { containers: container_list(text, host), ..inv },
        ),
        KindView::ListProjects => InventoryView {
            projects: projects_of(text, clients_path),
            scripts: Seq::empty(),
            ..inv
        },
        KindView::ReadScript { project, path } => match script_of(path, text, project) {
            Some(script) => associated(
                InventoryView {
                    projects: with_script(inv.projects, project, script),
                    scripts: inv.scripts.push(script),
                    ..inv
                },
            ),
            None => inv,
        },
        _ => inv,
    }
}

/// The inventory after the first `n` results were read.
pub open spec fn inventory_run(
    inv: InventoryView,
    host: Seq<char>,
    clients_path: Seq<char>,
    rs: Seq<Answer>,
    n: int,
) -> InventoryView
    decreases n,
{
    if n <= 0 {
        inv
    } else {
        inventory_after(
            inventory_run(inv, host, clients_path, rs, n - 1),
            host,
            clients_path,
            rs[n - 1].0,
            rs[n - 1].1,
        )
    }
}

/// Whether the results are those of one discovery: first the list of the
/// containers, then the list of the projects, and after these neither again.
pub open spec fn is_discovery(rs: Seq<Answer>) -> bool {
    &&& rs.len() >= 2
    &&& rs[0].0 is DockerPs
    &&& rs[1].0 is ListProjects
    &&& forall|j: int|
        2 <= j < rs.len() ==> !((#[trigger] rs[j]).0 is DockerPs) && !(rs[j].0 is ListProjects)
}

/// Whether every container for which there is a script has an association.
pub open spec fn covered(
    index: Seq<AssociationView>,
    scripts: Seq<ScriptView>,
    containers: Seq<ContainerView>,
) -> bool {
    forall|i: int|
        0 <= i < containers.len() && script_for(scripts, (#[trigger] containers[i]).name) is Some
            ==> lookup(index, containers[i].server_name, containers[i].name) is Some
}

proof fn lemma_enqueued_all_keeps(s: OrchestratorView, cs: Seq<CommandView>, n: int)
    ensures
        enqueued_all(s, cs, n).inventory == s.inventory,
        enqueued_all(s, cs, n).host == s.host,
        enqueued_all(s, cs, n).clients_path == s.clients_path,
    decreases n,
{
    if n > 0 {
        lemma_enqueued_all_keeps(s, cs, n - 1);
    }
}

/// Reading a result keeps the host and the clients path, and makes of the
/// inventory what `inventory_after` says.
pub proof fn lemma_absorbed_inventory(s: OrchestratorView, kind: KindView, text: Seq<char>)
    ensures
        absorbed(s, kind, text).host == s.host,
        absorbed(s, kind, text).clients_path == s.clients_path,
        absorbed(s, kind, text).inventory == inventory_after(
            s.inventory,
            s.host,
            s.clients_path,
            kind,
            text,
        ),
{
    let idle = OrchestratorView { in_flight: None, ..s };
    match kind {
        KindView::ListProjects => {
            let projects = projects_of(text, s.clients_path);
            lemma_enqueued_all_keeps(
                OrchestratorView {
                    inventory: InventoryView { projects, scripts: Seq::empty(), ..s.inventory },
                    ..idle
                },
                crate::orchestrator::find_commands(s.host, projects),
                projects.len() as int,
            );
        },
        KindView::FindScripts { project, path } => {
            lemma_enqueued_all_keeps(
                idle,
                crate::orchestrator::read_commands(
                    s.host,
                    project,
                    crate::docker::discovery::listed(text),
                ),
                crate::docker::discovery::listed(text).len() as int,
            );
        },
        _ => {},
    }
}

/// The inventory of the state after results were read is the inventory after
/// the results were read.
pub proof fn lemma_run_inventory(s: OrchestratorView, rs: Seq<Answer>, n: int)
    ensures
        run(s, rs, n).host == s.host,
        run(s, rs, n).clients_path == s.clients_path,
        run(s, rs, n).inventory == inventory_run(s.inventory, s.host, s.clients_path, rs, n),
    decreases n,
{
    if n > 0 {
        lemma_run_inventory(s, rs, n - 1);
        lemma_absorbed_inventory(run(s, rs, n - 1), rs[n - 1].0, rs[n - 1].1);
    }
}

/// What is learned from containers depends on their hosts and names alone.
proof fn lemma_learned_by_name(
    index: Seq<AssociationView>,
    scripts: Seq<ScriptView>,
    a: Seq<ContainerView>,
    b: Seq<ContainerView>,
    n: int,
)
    requires
        a.len() == b.len(),
        0 <= n <= a.len(),
        forall|i: int|
            0 <= i < a.len() ==> (#[trigger] a[i]).name == b[i].name && a[i].server_name
                == b[i].server_name,
    ensures
        learned(index, scripts, a, n) == learned(index, scripts, b, n),
    decreases n,
{
    if n > 0 {
        lemma_learned_by_name(index, scripts, a, b, n - 1);
        assert(a[n - 1].name == b[n - 1].name);
    }
}

/// Pairing the containers that were linked before gives the containers as
/// listed, linked by what is then known, and every container for which there
/// is a script has an association afterwards.
proof fn lemma_associated_linked(inv: InventoryView, list: Seq<ContainerView>)
    requires
        inv.containers == linked(list, inv.associations),
    ensures
        associated(inv).containers == linked(list, associated(inv).associations),
        associated(inv).associations == learned(
            inv.associations,
            inv.scripts,
            list,
            list.len() as int,
        ),
        covered(associated(inv).associations, inv.scripts, list),
        associated(inv).scripts == inv.scripts,
        associated(inv).projects == inv.projects,
{
    let n = list.len() as int;
    lemma_learned_by_name(inv.associations, inv.scripts, inv.containers, list, n);
    let index = associated(inv).associations;
    assert(linked(inv.containers, index) =~= linked(list, index));
    assert forall|i: int|
        0 <= i < list.len() && script_for(inv.scripts, (#[trigger] list[i]).name) is Some implies lookup(
        index,
        list[i].server_name,
        list[i].name,
    ) is Some by {
        lemma_learned_covers(inv.associations, inv.scripts, list, n, i);
    }
}

/// Where every container for which there is a script has an association,
/// pairing changes nothing but the links, which are those of the
/// associations.
proof fn lemma_associated_covered(inv: InventoryView, list: Seq<ContainerView>)
    requires
        inv.containers == linked(list, inv.associations) || inv.containers == list,
        covered(inv.associations, inv.scripts, list),
    ensures
        associated(inv) == (InventoryView {
            containers: linked(list, inv.associations),
            ..inv
        }),
{
    let n = list.len() as int;
    lemma_learned_by_name(inv.associations, inv.scripts, inv.containers, list, n);
    lemma_learned_nothing(inv.associations, inv.scripts, list, n);
    assert(linked(inv.containers, inv.associations) =~= linked(list, inv.associations));
}

/// The text of the first result.
pub open spec fn listed_containers(rs: Seq<Answer>, host: Seq<char>) -> Seq<ContainerView> {
    container_list(rs[0].1, host)
}

/// During a discovery the containers are those that were listed, linked by
/// the associations, and once the projects are listed every container for
/// which there is a script has an association.
proof fn lemma_first_pass(
    inv: InventoryView,
    host: Seq<char>,
    clients_path: Seq<char>,
    rs: Seq<Answer>,
    j: int,
)
    requires
        is_discovery(rs),
        1 <= j <= rs.len(),
    ensures
        ({
            let at = inventory_run(inv, host, clients_path, rs, j);
            let list = listed_containers(rs, host);
            &&& at.containers == linked(list, at.associations)
            &&& j >= 2 ==> covered(at.associations, at.scripts, list)
        }),
    decreases j,
{
    let list = listed_containers(rs, host);
    let at = inventory_run(inv, host, clients_path, rs, j);
    if j == 1 {
        let start = InventoryView { containers: list, ..inv };
        assert(inventory_run(inv, host, clients_path, rs, 0) == inv);
        assert(at == associated(start));
    } else {
        lemma_first_pass(inv, host, clients_path, rs, j - 1);
        let prev = inventory_run(inv, host, clients_path, rs, j - 1);
        let kind = rs[j - 1].0;
        let text = rs[j - 1].1;
        if j == 2 {
            assert(at.scripts == Seq::<ScriptView>::empty());
        } else {
            assert(!(rs[j - 1].0 is DockerPs) && !(rs[j - 1].0 is ListProjects));
            match kind {
                KindView::ReadScript { project, path } => {
                    match script_of(path, text, project) {
                        Some(script) => {
                            lemma_associated_linked(
                                InventoryView {
                                    projects: with_script(prev.projects, project, script),
                                    scripts: prev.scripts.push(script),
                                    ..prev
                                },
                                list,
                            );
                        },
                        None => {},
                    }
                },
                _ => {},
            }
        }
    }
}

/// What the associations give at one point of a discovery they give at every
/// later point.
proof fn lemma_lookups_stay(
    inv: InventoryView,
    host: Seq<char>,
    clients_path: Seq<char>,
    rs: Seq<Answer>,
    j: int,
    k: int,
    h: Seq<char>,
    c: Seq<char>,
)
    requires
        is_discovery(rs),
        1 <= j <= k <= rs.len(),
        lookup(inventory_run(inv, host, clients_path, rs, j).associations, h, c) is Some,
    ensures
        lookup(inventory_run(inv, host, clients_path, rs, k).associations, h, c) == lookup(
            inventory_run(inv, host, clients_path, rs, j).associations,
            h,
            c,
        ),
    decreases k - j,
{
    if j < k {
        lemma_lookups_stay(inv, host, clients_path, rs, j, k - 1, h, c);
        let prev = inventory_run(inv, host, clients_path, rs, k - 1);
        let kind = rs[k - 1].0;
        let text = rs[k - 1].1;
        match kind {
            KindView::DockerPs => {
                let start = InventoryView { containers: container_list(text, host), ..prev };
                lemma_learned_keeps(
                    start.associations,
                    start.scripts,
                    start.containers,
                    start.containers.len() as int,
                    h,
                    c,
                );
            },
            KindView::ReadScript { project, path } => {
                match script_of(path, text, project) {
                    Some(script) => {
                        let start = InventoryView {
                            projects: with_script(prev.projects, project, script),
                            scripts: prev.scripts.push(script),
                            ..prev
                        };
                        lemma_learned_keeps(
                            start.associations,
                            start.scripts,
                            start.containers,
                            start.containers.len() as int,
                            h,
                            c,
                        );
                    },
                    None => {},
                }
            },
            _ => {},
        }
    }
}

/// Reading the results of a discovery a second time: at every point from the
/// list of the projects on, the projects and the scripts are those of the
/// first reading at that point, and the containers and associations are
/// those in which the first reading ended.
proof fn lemma_second_pass(
    inv: InventoryView,
    host: Seq<char>,
    clients_path: Seq<char>,
    rs: Seq<Answer>,
    j: int,
)
    requires
        is_discovery(rs),
        1 <= j <= rs.len(),
    ensures
        ({
            let n = rs.len() as int;
            let end = inventory_run(inv, host, clients_path, rs, n);
            let first = inventory_run(inv, host, clients_path, rs, j);
            let second = inventory_run(end, host, clients_path, rs, j);
            &&& second.containers == end.containers
            &&& second.associations == end.associations
            &&& j >= 2 ==> second.projects == first.projects && second.scripts == first.scripts
            &&& j == 1 ==> second.projects == end.projects && second.scripts == end.scripts
        }),
    decreases j,
{
    let n = rs.len() as int;
    let list = listed_containers(rs, host);
    let end = inventory_run(inv, host, clients_path, rs, n);
    let first = inventory_run(inv, host, clients_path, rs, j);
    let second = inventory_run(end, host, clients_path, rs, j);
    lemma_first_pass(inv, host, clients_path, rs, n);
    if j == 1 {
        assert(inventory_run(end, host, clients_path, rs, 0) == end);
        let start = InventoryView { containers: list, ..end };
        lemma_associated_covered(start, list);
    } else {
        lemma_second_pass(inv, host, clients_path, rs, j - 1);
        let prev1 = inventory_run(inv, host, clients_path, rs, j - 1);
        let prev2 = inventory_run(end, host, clients_path, rs, j - 1);
        let kind = rs[j - 1].0;
        let text = rs[j - 1].1;
        if j > 2 {
            assert(!(rs[j - 1].0 is DockerPs) && !(rs[j - 1].0 is ListProjects));
            match kind {
                KindView::ReadScript { project, path } => {
                    match script_of(path, text, project) {
                        Some(script) => {
                            let start2 = InventoryView {
                                projects: with_script(prev2.projects, project, script),
                                scripts: prev2.scripts.push(script),
                                ..prev2
                            };
                            lemma_first_pass(inv, host, clients_path, rs, j);
                            assert(first.scripts == start2.scripts) by {
                                let start1 = InventoryView {
                                    projects: with_script(prev1.projects, project, script),
                                    scripts: prev1.scripts.push(script),
                                    ..prev1
                                };
                                assert(first == associated(start1));
                            }
                            assert forall|i: int|
                                0 <= i < list.len() && script_for(
                                    start2.scripts,
                                    (#[trigger] list[i]).name,
                                ) is Some implies lookup(
                                end.associations,
                                list[i].server_name,
                                list[i].name,
                            ) is Some by {
                                assert(lookup(
                                    first.associations,
                                    list[i].server_name,
                                    list[i].name,
                                ) is Some);
                                lemma_lookups_stay(
                                    inv,
                                    host,
                                    clients_path,
                                    rs,
                                    j,
                                    n,
                                    list[i].server_name,
                                    list[i].name,
                                );
                            }
                            lemma_associated_covered(start2, list);
                        },
                        None => {},
                    }
                },
                _ => {},
            }
        }
    }
}

/// Reading the results of a discovery a second time leaves the inventory as
/// the first reading left it, whatever the inventory was before.
pub proof fn lemma_discovery_twice(s: OrchestratorView, rs: Seq<Answer>)
    requires
        is_discovery(rs),
    ensures
        run(run(s, rs, rs.len() as int), rs, rs.len() as int).inventory == run(
            s,
            rs,
            rs.len() as int,
        ).inventory,
{
    let n = rs.len() as int;
    let once = run(s, rs, n);
    lemma_run_inventory(s, rs, n);
    lemma_run_inventory(once, rs, n);
    lemma_second_pass(s.inventory, s.host, s.clients_path, rs, n);
}

} // verus!
