use sshing::docker::{find_scripts_command, list_projects_command, read_script_command};
use sshing::docker::script_parser::{generate_script, parse_script};
use sshing::docker::write_script_command;
use sshing::models::{DeploymentScript, FileEntry};
use sshing::orchestrator::content_to_write;
use sshing::orchestrator::{
    find_association, find_script_path, Association, CommandKind, InventoryState, Notice,
    Orchestrator, PendingCommand,
};

const SCRIPT_A: &str = "NAME='web'\nREPO=\"nginx\"\ndocker create \\\n  --name $NAME \\\n  -e A=\"1\" \\\n  $REPO\ndocker start $NAME";

fn command(kind: CommandKind, text: &str) -> PendingCommand {
    PendingCommand { host: "prod".to_string(), command: text.to_string(), kind }
}

fn find_scripts(project: &str, path: &str) -> PendingCommand {
    command(
        CommandKind::FindScripts { project: project.to_string(), path: path.to_string() },
        &find_scripts_command(path),
    )
}

fn read_script(project: &str, path: &str) -> PendingCommand {
    command(
        CommandKind::ReadScript { project: project.to_string(), path: path.to_string() },
        &read_script_command(path),
    )
}

#[test]
fn new_orchestrator_is_idle_and_empty() {
    let mut o = Orchestrator::new("prod", "~/clients");
    assert_eq!(o.host, "prod");
    assert_eq!(o.clients_path, "~/clients");
    assert!(o.queue.is_empty());
    assert_eq!(o.in_flight, None);
    assert_eq!(o.issued, 0);
    assert_eq!(o.inventory, InventoryState::new());
    assert_eq!(o.take_next_if_idle(), None);
}

#[test]
fn queue_is_first_in_first_out_with_one_in_flight() {
    let mut o = Orchestrator::new("prod", "/srv");
    let a = command(CommandKind::DockerPs, "a");
    let b = command(CommandKind::ListProjects, "b");
    let c = command(CommandKind::WriteScript { path: "/p".to_string() }, "c");
    o.enqueue(a.clone());
    o.enqueue(b.clone());
    o.enqueue(c.clone());
    assert_eq!(o.issued, 3);
    assert_eq!(o.take_next_if_idle(), Some(a.clone()));
    assert_eq!(o.in_flight, Some(a.clone()));
    assert_eq!(o.take_next_if_idle(), None);
    assert_eq!(o.queue, vec![b.clone(), c.clone()]);
    let out = o.on_result(&a.kind, "");
    assert_eq!(out.next, Some(b.clone()));
    assert_eq!(out.listing, None);
    assert_eq!(o.in_flight, Some(b.clone()));
    assert_eq!(o.on_failure(), Some(c.clone()));
    assert_eq!(o.in_flight, Some(c.clone()));
    let out = o.on_result(&c.kind, "ignored");
    assert_eq!(out.next, None);
    assert_eq!(o.in_flight, None);
    assert!(o.queue.is_empty());
    assert_eq!(o.issued, 3);
}

#[test]
fn start_discovery_queues_ps_then_projects() {
    let mut o = Orchestrator::new("prod", "~/clients");
    o.start_discovery(true);
    assert_eq!(
        o.queue,
        vec![
            command(
                CommandKind::DockerPs,
                "docker ps -a --format '{{.ID}}|{{.Names}}|{{.Image}}|{{.Status}}|{{.Ports}}'"
            ),
            command(CommandKind::ListProjects, &list_projects_command("~/clients")),
        ]
    );
    assert_eq!(o.issued, 2);
}

#[test]
fn discovery_of_two_projects_and_one_script() {
    let mut o = Orchestrator::new("prod", "/srv/clients");
    let list = command(CommandKind::ListProjects, &list_projects_command("/srv/clients"));
    o.enqueue(list.clone());
    assert_eq!(o.take_next_if_idle(), Some(list.clone()));

    let find_a = find_scripts("A", "/srv/clients/A");
    let find_b = find_scripts("B", "/srv/clients/B");
    let out = o.on_result(&list.kind, "A\nB\n");
    assert_eq!(out.notice, Notice::Projects(2));
    assert_eq!(o.issued, 3);
    assert_eq!(out.next, Some(find_a.clone()));
    assert_eq!(o.in_flight, Some(find_a.clone()));
    assert_eq!(o.queue, vec![find_b.clone()]);
    assert_eq!(o.inventory.projects.len(), 2);
    assert_eq!(o.inventory.projects[0].name, "A");
    assert_eq!(o.inventory.projects[0].path, "/srv/clients/A");
    assert_eq!(o.inventory.projects[1].name, "B");

    let read_a = read_script("A", "/srv/clients/A/start.sh");
    let out = o.on_result(&find_a.kind, "/srv/clients/A/start.sh\n");
    assert_eq!(out.notice, Notice::Scripts(1));
    assert_eq!(o.issued, 4);
    assert_eq!(out.next, Some(find_b.clone()));
    assert_eq!(o.queue, vec![read_a.clone()]);

    let out = o.on_result(&find_b.kind, "");
    assert_eq!(out.notice, Notice::Scripts(0));
    assert_eq!(o.issued, 4);
    assert_eq!(out.next, Some(read_a.clone()));
    assert!(o.queue.is_empty());

    let out = o.on_result(&read_a.kind, SCRIPT_A);
    assert_eq!(out.notice, Notice::ScriptRead);
    assert_eq!(o.issued, 4);
    assert_eq!(out.next, None);
    assert_eq!(o.in_flight, None);
    assert_eq!(o.inventory.scripts.len(), 1);
    assert_eq!(o.inventory.scripts[0].container_name, "web");
    assert_eq!(o.inventory.scripts[0].client_name, "A");
    assert_eq!(o.inventory.projects[0].scripts, o.inventory.scripts);
    assert!(o.inventory.projects[1].scripts.is_empty());
}

#[test]
fn containers_are_linked_to_scripts_by_name() {
    let mut o = Orchestrator::new("prod", "/srv");
    let ps = "1|web|nginx|Up 1 hour|\n2|db|postgres|Up 1 hour|\n";
    o.on_result(&CommandKind::DockerPs, ps);
    assert_eq!(o.inventory.containers.len(), 2);
    assert_eq!(o.inventory.containers[0].script_path, None);
    o.on_result(&CommandKind::ListProjects, "A");
    let read = CommandKind::ReadScript { project: "A".to_string(), path: "/srv/A/start.sh".to_string() };
    o.on_result(&read, SCRIPT_A);
    assert_eq!(o.inventory.containers[0].script_path, Some("/srv/A/start.sh".to_string()));
    assert_eq!(o.inventory.containers[1].script_path, None);
    assert_eq!(
        o.inventory.associations,
        vec![Association {
            host: "prod".to_string(),
            container: "web".to_string(),
            script_path: "/srv/A/start.sh".to_string()
        }]
    );
}

#[test]
fn what_is_not_a_deployment_script_is_left_out() {
    let mut o = Orchestrator::new("prod", "/srv");
    o.on_result(&CommandKind::ListProjects, "A");
    let read = CommandKind::ReadScript { project: "A".to_string(), path: "/srv/A/run.sh".to_string() };
    assert_eq!(o.on_result(&read, "#!/bin/sh\necho hello\n").notice, Notice::NotAScript);
    assert!(o.inventory.scripts.is_empty());
    assert!(o.inventory.projects[0].scripts.is_empty());
    o.on_result(&read, "docker ps\n");
    assert!(o.inventory.scripts.is_empty());
}

#[test]
fn discovery_twice_gives_the_same_inventory() {
    let mut o = Orchestrator::new("prod", "/srv");
    let ps = "1|web|nginx|Up 1 hour|80/tcp\n2|db|postgres|Exited (1) 1 hour ago|\n";
    let read = CommandKind::ReadScript { project: "A".to_string(), path: "/srv/A/start.sh".to_string() };
    let find = CommandKind::FindScripts { project: "A".to_string(), path: "/srv/A".to_string() };
    let mut run = |o: &mut Orchestrator| {
        o.on_result(&CommandKind::DockerPs, ps);
        o.on_result(&CommandKind::ListProjects, "A\nB");
        o.on_result(&find, "/srv/A/start.sh");
        o.on_result(&read, SCRIPT_A);
        while o.on_failure().is_some() {}
    };
    run(&mut o);
    let first = o.inventory.clone();
    run(&mut o);
    assert_eq!(o.inventory, first);
    o.on_result(&CommandKind::DockerPs, ps);
    assert_eq!(o.inventory, first);
}

#[test]
fn confirmed_association_outlives_a_refresh_until_disconnect() {
    let mut o = Orchestrator::new("prod", "/srv");
    o.inventory.set_association("prod", "db", "/srv/B/db.sh");
    o.inventory.set_association("prod", "db", "/srv/B/other.sh");
    o.inventory.set_association("test", "db", "/x");
    assert_eq!(find_association(&o.inventory.associations, "prod", "db"), Some("/srv/B/other.sh".to_string()));
    assert_eq!(find_association(&o.inventory.associations, "test", "db"), Some("/x".to_string()));
    assert_eq!(find_association(&o.inventory.associations, "prod", "web"), None);
    o.on_result(&CommandKind::DockerPs, "2|db|postgres|Up|\n");
    assert_eq!(o.inventory.containers[0].script_path, Some("/srv/B/other.sh".to_string()));
    o.on_result(&CommandKind::DockerPs, "2|db|postgres|Up|\n");
    assert_eq!(o.inventory.containers[0].script_path, Some("/srv/B/other.sh".to_string()));
    o.enqueue(command(CommandKind::DockerPs, "x"));
    o.disconnect();
    assert_eq!(o.inventory, InventoryState::new());
    assert!(o.queue.is_empty());
    assert_eq!(o.in_flight, None);
    assert_eq!(o.host, "prod");
}

#[test]
fn directory_results_are_handed_back() {
    let mut o = Orchestrator::new("prod", "/srv");
    let out = o.on_result(
        &CommandKind::ListDirectory { path: "/srv".to_string() },
        "drwxr-xr-x 2 u g 4096 Jan 1 12:00 apps\n",
    );
    assert_eq!(
        out.listing,
        Some(vec![FileEntry::parent(), FileEntry::new("apps".to_string(), true)])
    );
    let out = o.on_result(&CommandKind::RsyncListDirectory { path: "/".to_string() }, "");
    assert_eq!(out.listing, Some(vec![FileEntry::parent()]));
    assert_eq!(out.notice, Notice::Directory);
    let out = o.on_result(&CommandKind::WriteScript { path: "/p".to_string() }, "");
    assert_eq!(out.notice, Notice::ScriptWritten);
    assert_eq!(o.on_result(&CommandKind::DockerPs, "a|b|c|Up\nx").notice, Notice::Containers(1));
    o.disconnect();
    assert_eq!(o.inventory, InventoryState::new());
}

#[test]
fn first_script_of_a_name_is_found() {
    let mut o = Orchestrator::new("prod", "/srv");
    o.on_result(&CommandKind::ListProjects, "A");
    for path in ["/srv/A/one.sh", "/srv/A/two.sh"] {
        let read = CommandKind::ReadScript { project: "A".to_string(), path: path.to_string() };
        o.on_result(&read, SCRIPT_A);
    }
    assert_eq!(o.inventory.scripts.len(), 2);
    assert_eq!(o.inventory.projects[0].scripts.len(), 2);
    assert_eq!(find_script_path(&o.inventory.scripts, "web"), Some("/srv/A/one.sh".to_string()));
    assert_eq!(find_script_path(&o.inventory.scripts, "db"), None);
}

#[test]
fn saving_an_edited_script_patches_and_queues_the_write() {
    let mut o = Orchestrator::new("prod", "/srv");
    o.on_result(&CommandKind::DockerPs, "1|web|nginx|Up|\n");
    o.on_result(&CommandKind::ListProjects, "A");
    let read = CommandKind::ReadScript { project: "A".to_string(), path: "/srv/A/start.sh".to_string() };
    o.on_result(&read, SCRIPT_A);
    let original = o.inventory.scripts[0].clone();
    let mut edited = original.clone();
    edited.add_env_var("A".to_string(), "2".to_string());
    edited.add_env_var("B".to_string(), "x y".to_string());
    let expected = SCRIPT_A.replace("  -e A=\"1\" \\\n", "  -e A=\"2\" \\\n  -e B=\"x y\" \\\n");
    assert_eq!(content_to_write(&edited, &original.env_vars), expected);
    o.save_script(&edited, &original.env_vars);
    assert_eq!(o.inventory.scripts.len(), 1);
    assert_eq!(o.inventory.scripts[0].raw_content, expected);
    assert_eq!(o.inventory.scripts[0].env_vars, edited.env_vars);
    assert_eq!(o.inventory.projects[0].scripts, o.inventory.scripts);
    assert_eq!(o.inventory.containers[0].script_path, Some("/srv/A/start.sh".to_string()));
    assert_eq!(
        o.queue,
        vec![command(
            CommandKind::WriteScript { path: "/srv/A/start.sh".to_string() },
            &write_script_command("/srv/A/start.sh", &expected)
        )]
    );
    let back = parse_script(&expected, "/srv/A/start.sh", "A");
    assert_eq!(back.env_vars, edited.env_vars);
}

#[test]
fn saving_a_new_script_writes_it_out_whole() {
    let mut o = Orchestrator::new("prod", "/srv");
    o.on_result(&CommandKind::DockerPs, "1|db|postgres|Up|\n");
    o.on_result(&CommandKind::ListProjects, "A\nB");
    while o.on_failure().is_some() {}
    let mut fresh = DeploymentScript::new("/srv/B/start-db.sh".to_string(), "B".to_string());
    fresh.container_name = "db".to_string();
    fresh.repo = "postgres:16".to_string();
    fresh.add_env_var("POSTGRES_PASSWORD".to_string(), "pw".to_string());
    let text = generate_script(&fresh);
    assert_eq!(content_to_write(&fresh, &vec![]), text);
    o.save_script(&fresh, &vec![]);
    assert_eq!(o.inventory.scripts.len(), 1);
    assert_eq!(o.inventory.scripts[0].raw_content, text);
    assert!(o.inventory.projects[0].scripts.is_empty());
    assert_eq!(o.inventory.projects[1].scripts.len(), 1);
    assert_eq!(o.inventory.containers[0].script_path, Some("/srv/B/start-db.sh".to_string()));
    assert_eq!(o.queue.len(), 1);
    assert_eq!(o.queue[0].command, write_script_command("/srv/B/start-db.sh", &text));
    let next = o.take_next_if_idle().unwrap();
    assert_eq!(o.on_result(&next.kind, "").notice, Notice::ScriptWritten);
    assert_eq!(o.inventory.scripts.len(), 1);
}
