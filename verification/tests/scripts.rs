use sshing::docker::discovery::create_script_from_content;
use sshing::docker::script_parser::{
    accept, add_env_var, apply_script_changes, escape_shell_value, extract_container_name_flag,
    extract_docker_image, extract_env_vars, extract_network, extract_ports,
    extract_restart_policy, extract_variable, extract_volumes, generate_script, parse_script,
    remove_env_var, remove_lines, update_env_var, Accept,
};
use sshing::models::{DeploymentScript, EnvVar, PortMapping, VolumeMount};

const SCRIPT: &str = "#!/usr/bin/env bash\n\nNAME='api'\nREPO=\"registry.example.com/team/api:1.2\"\n\ndocker pull $REPO\ndocker stop $NAME\ndocker rm $NAME\n\ndocker create \\\n  --net=backend \\\n  --name $NAME \\\n  --restart=unless-stopped \\\n  -p 8080:80 \\\n  -p 9090:9090/udp \\\n  -v /srv/data:/data \\\n  -v /etc/conf:/conf:ro \\\n  -e FOO=\"bar\" \\\n  -e DB_PASSWORD='s3cret' \\\n  -e MODE=fast \\\n  $REPO\n\ndocker start $NAME";

fn env(key: &str, value: &str) -> EnvVar {
    EnvVar::new(key.to_string(), value.to_string())
}

fn differing_lines(a: &str, b: &str) -> Vec<usize> {
    let la: Vec<&str> = a.lines().collect();
    let lb: Vec<&str> = b.lines().collect();
    assert_eq!(la.len(), lb.len());
    (0..la.len()).filter(|&i| la[i] != lb[i]).collect()
}

#[test]
fn parse_reads_every_part() {
    let s = parse_script(SCRIPT, "/srv/api/start.sh", "acme");
    assert_eq!(s.path, "/srv/api/start.sh");
    assert_eq!(s.client_name, "acme");
    assert_eq!(s.container_name, "api");
    assert_eq!(s.repo, "registry.example.com/team/api:1.2");
    assert_eq!(
        s.env_vars,
        vec![env("FOO", "bar"), env("DB_PASSWORD", "s3cret"), env("MODE", "fast")]
    );
    assert!(!s.env_vars[0].is_secret);
    assert!(s.env_vars[1].is_secret);
    assert_eq!(
        s.volumes,
        vec![
            VolumeMount {
                host_path: "/srv/data".to_string(),
                container_path: "/data".to_string(),
                read_only: false
            },
            VolumeMount {
                host_path: "/etc/conf".to_string(),
                container_path: "/conf".to_string(),
                read_only: true
            },
        ]
    );
    assert_eq!(
        s.ports,
        vec![
            PortMapping { host_port: 8080, container_port: 80, protocol: "tcp".to_string() },
            PortMapping { host_port: 9090, container_port: 9090, protocol: "udp".to_string() },
        ]
    );
    assert_eq!(s.network, Some("backend".to_string()));
    assert_eq!(s.restart_policy, Some("unless-stopped".to_string()));
    assert_eq!(s.raw_content, SCRIPT);
    assert_eq!(s.last_modified, None);
}

#[test]
fn variable_forms_in_priority_order() {
    assert_eq!(extract_variable("NAME='a b'", "NAME"), Some("a b".to_string()));
    assert_eq!(extract_variable("NAME=\"a b\"", "NAME"), Some("a b".to_string()));
    assert_eq!(extract_variable("NAME=bare rest", "NAME"), Some("bare".to_string()));
    assert_eq!(extract_variable("NAME=bare\nNAME='quoted'", "NAME"), Some("quoted".to_string()));
    assert_eq!(extract_variable("OTHER=1", "NAME"), None);
    assert_eq!(extract_variable("REPO=''", "REPO"), Some(String::new()));
}

#[test]
fn name_flag_is_the_fallback() {
    let text = "docker run --name web nginx";
    assert_eq!(extract_container_name_flag(text), Some("web".to_string()));
    assert_eq!(extract_container_name_flag("docker run --name=\"web\" x"), Some("web".to_string()));
    assert_eq!(extract_container_name_flag("docker run --name $NAME x"), None);
    assert_eq!(extract_container_name_flag("docker run --name=$N --name other"), Some("other".to_string()));
    assert_eq!(parse_script(text, "p", "c").container_name, "web");
    assert_eq!(parse_script("docker run nginx", "p", "c").container_name, "");
}

#[test]
fn image_at_the_end_of_the_docker_line() {
    assert_eq!(extract_docker_image("docker run -d --name web nginx:1.25\n"), Some("nginx:1.25".to_string()));
    assert_eq!(extract_docker_image("docker create --name web repo/img"), Some("repo/img".to_string()));
    assert_eq!(extract_docker_image("docker run --name web $REPO\n"), None);
    assert_eq!(extract_docker_image("echo hello"), None);
    assert_eq!(parse_script("docker run --name web nginx:1.25\n", "p", "c").repo, "nginx:1.25");
}

#[test]
fn accept_filters_names_and_images() {
    assert_eq!(accept(Accept::Any, "$x"), Some("$x".to_string()));
    assert_eq!(accept(Accept::Name, "\"'web'\""), Some("web".to_string()));
    assert_eq!(accept(Accept::Name, "'$NAME'"), None);
    assert_eq!(accept(Accept::Image, "-d"), None);
    assert_eq!(accept(Accept::Image, "$REPO"), None);
    assert_eq!(accept(Accept::Image, "nginx"), Some("nginx".to_string()));
}

#[test]
fn first_flag_of_a_key_wins() {
    let vars = extract_env_vars("-e A=1 -e B=\"two words\" -e A=\"3\" -eC=4 -e D='5'");
    assert_eq!(vars, vec![env("A", "1"), env("B", "two words"), env("C", "4"), env("D", "5")]);
    let s = parse_script("docker run -e A=1 -e B=\"2\" -e A=\"3\" img", "p", "c");
    assert_eq!(s.env_vars, vec![env("A", "1"), env("B", "2")]);
    let vars = extract_env_vars("-e A=\"x\" -e A=y -e B='q r' -e B=\"s\" -e C=\"open");
    assert_eq!(vars, vec![env("A", "x"), env("B", "q r"), env("C", "\"open")]);
    assert!(extract_env_vars("nothing here").is_empty());
}

#[test]
fn volumes_ports_network_restart() {
    assert_eq!(extract_volumes("-v a:b -v c:d:ro -v e").len(), 2);
    assert!(extract_volumes("-v c:d:ro")[0].read_only);
    assert_eq!(
        extract_ports("-p 1:2 -p 70000:1 -p 3:4/udp -p x:y"),
        vec![
            PortMapping { host_port: 1, container_port: 2, protocol: "tcp".to_string() },
            PortMapping { host_port: 3, container_port: 4, protocol: "udp".to_string() },
        ]
    );
    assert_eq!(extract_network("--network=a --net=b"), Some("b".to_string()));
    assert_eq!(extract_network("--network a"), Some("a".to_string()));
    assert_eq!(extract_network("--foo"), None);
    assert_eq!(extract_restart_policy("--restart always"), Some("always".to_string()));
    assert_eq!(extract_restart_policy("--restart=on-failure:3"), Some("on-failure:3".to_string()));
    assert_eq!(extract_restart_policy(""), None);
}

#[test]
fn only_a_docker_script_with_a_name_is_a_deployment_script() {
    assert!(create_script_from_content("/p", SCRIPT, "acme").is_some());
    assert_eq!(create_script_from_content("/p", "NAME='x'\necho hi", "acme"), None);
    assert_eq!(create_script_from_content("/p", "docker ps", "acme"), None);
    let s = create_script_from_content("/p", "docker run --name web nginx", "acme").unwrap();
    assert_eq!(s.container_name, "web");
    assert_eq!(s.client_name, "acme");
}

#[test]
fn generate_writes_the_template() {
    let mut s = DeploymentScript::new("/p".to_string(), "acme".to_string());
    s.container_name = "web".to_string();
    s.repo = "nginx:1".to_string();
    s.network = Some("front".to_string());
    s.ports.push(PortMapping { host_port: 80, container_port: 8080, protocol: "tcp".to_string() });
    s.volumes.push(VolumeMount {
        host_path: "/a".to_string(),
        container_path: "/b".to_string(),
        read_only: true,
    });
    s.env_vars.push(env("K", "v w"));
    let expected = "#!/usr/bin/env bash\n\n# Configuration\nNAME='web'\nREPO=\"nginx:1\"\n\n\
docker pull $REPO\ndocker stop $NAME\ndocker rm $NAME\n\n\
docker create \\\n  --net=front \\\n  --name $NAME \\\n  --restart=unless-stopped \\\n  -p 80:8080 \\\n  -v /a:/b:ro \\\n  -e K=\"v w\" \\\n  $REPO\n\ndocker start $NAME";
    assert_eq!(generate_script(&s), expected);
}

#[test]
fn generate_without_network_and_flags() {
    let mut s = DeploymentScript::new("/p".to_string(), "acme".to_string());
    s.container_name = "web".to_string();
    s.repo = "nginx".to_string();
    let text = generate_script(&s);
    assert!(text.contains("docker create \\\n  --name $NAME \\\n  --restart=unless-stopped \\\n  $REPO\n"));
    let back = parse_script(&text, "/p", "acme");
    assert_eq!(back.container_name, "web");
    assert_eq!(back.repo, "nginx");
}

#[test]
fn quoting_wraps_every_value() {
    assert_eq!(escape_shell_value(""), "\"\"");
    assert_eq!(escape_shell_value("plain"), "\"plain\"");
    assert_eq!(escape_shell_value("two words"), "\"two words\"");
    assert_eq!(escape_shell_value("$HOME"), "\"$HOME\"");
    assert_eq!(escape_shell_value("say \"hi\""), "\"say \\\"hi\\\"\"");
    assert_eq!(escape_shell_value("a\\b"), "\"a\\\\b\"");
    assert_eq!(escape_shell_value("\\\""), "\"\\\\\\\"\"");
    for v in ["", " ", "$", "\"", "x y", "a$b", "q\"q"] {
        let q = escape_shell_value(v);
        assert!(q.len() >= 2 && q.starts_with('"') && q.ends_with('"'));
    }
}

#[test]
fn add_goes_after_the_last_env_line() {
    let out = add_env_var(SCRIPT, "NEW", "a b");
    let expected = SCRIPT.replace(
        "  -e MODE=fast \\\n",
        "  -e MODE=fast \\\n  -e NEW=\"a b\" \\\n",
    );
    assert_eq!(out, expected);
}

#[test]
fn add_continues_the_line_before_when_it_is_last() {
    let text = "docker run \\\n    -e A=1\n\necho done";
    let out = add_env_var(text, "B", "2");
    assert_eq!(out, "docker run \\\n    -e A=1 \\\n    -e B=\"2\"\n\necho done");
}

#[test]
fn add_after_flags_or_before_the_image() {
    let text = "docker create \\\n\t--name x \\\n\t$REPO";
    assert_eq!(
        add_env_var(text, "K", "v"),
        "docker create \\\n\t--name x \\\n\t-e K=\"v\" \\\n\t$REPO"
    );
    let text = "docker create \\\n  $REPO\ndocker start x";
    assert_eq!(
        add_env_var(text, "K", "v"),
        "docker create \\\n  -e K=\"v\" \\\n  $REPO\ndocker start x"
    );
}

#[test]
fn add_falls_back_to_the_start_line_or_leaves_the_text() {
    let text = "echo one\ndocker start web\n";
    assert_eq!(add_env_var(text, "K", ""), "echo one\n  -e K=\"\" \\\ndocker start web\n");
    let text = "echo one\necho two\n";
    assert_eq!(add_env_var(text, "K", "v"), text);
    assert_eq!(add_env_var("", "K", "v"), "");
}

#[test]
fn update_rewrites_only_the_value() {
    let out = update_env_var(SCRIPT, "FOO", "baz");
    assert_eq!(out, SCRIPT.replace("-e FOO=\"bar\"", "-e FOO=\"baz\""));
    assert_eq!(differing_lines(SCRIPT, &out), vec![17]);
    assert!(out.lines().nth(17).unwrap().contains("FOO"));
}

#[test]
fn update_quotes_what_was_bare_or_single_quoted() {
    let out = update_env_var(SCRIPT, "MODE", "slow and steady");
    assert_eq!(out, SCRIPT.replace("-e MODE=fast", "-e MODE=\"slow and steady\""));
    let out = update_env_var(SCRIPT, "DB_PASSWORD", "");
    assert_eq!(out, SCRIPT.replace("-e DB_PASSWORD='s3cret'", "-e DB_PASSWORD=\"\""));
    assert_eq!(update_env_var("-eA=1 -e B=2", "A", "x"), "-eA=\"x\" -e B=2");
}

#[test]
fn update_escapes_backslash_and_dollar() {
    let out = update_env_var("  -e P=\"old\" \\", "P", "a\\b$c");
    assert_eq!(out, "  -e P=\"a\\\\b\\$c\" \\");
}

#[test]
fn update_of_a_missing_key_leaves_the_text() {
    assert_eq!(update_env_var(SCRIPT, "ABSENT", "v"), SCRIPT);
    assert_eq!(update_env_var(SCRIPT, "FO.", "v"), SCRIPT);
    let text = "text with a newline at the end\n";
    assert_eq!(update_env_var(text, "K", "v"), text);
}

#[test]
fn remove_of_a_missing_key_leaves_the_text() {
    let text = "NAME='api'\ndocker run \\\n  -e A=1 \\\n  -e B=2 \\\n  -e C=3 \\\n  img\n";
    assert_eq!(remove_env_var(text, "D"), text);
    assert_eq!(remove_env_var(SCRIPT, "FO"), SCRIPT);
    assert_eq!(remove_env_var("", "A"), "");
}

#[test]
fn remove_takes_the_line_out() {
    let out = remove_env_var(SCRIPT, "DB_PASSWORD");
    assert_eq!(out, SCRIPT.replace("  -e DB_PASSWORD='s3cret' \\\n", ""));
}

#[test]
fn remove_of_the_last_flag_mends_the_line_before() {
    let text = "docker run \\\n  -e A=1 \\\n  -e B=2\n\necho done";
    assert_eq!(remove_env_var(text, "B"), "docker run \\\n  -e A=1\n\necho done");
    let text = "docker run \\\n  -e A=1 \\\n  -e B=2 \\\n  $REPO";
    assert_eq!(remove_env_var(text, "B"), "docker run \\\n  -e A=1 \\\n  $REPO");
    assert_eq!(remove_env_var("-e A=1\nnext", "A"), "next");
}

#[test]
fn remove_lines_follows_the_marks() {
    assert_eq!(remove_lines("a \\\nb\nc", &vec![false, true]), "a\nc");
    assert_eq!(remove_lines("a\nb\nc\n", &vec![]), "a\nb\nc\n");
    assert_eq!(remove_lines("a\nb\nc\n", &vec![false, false, false, true]), "a\nb\nc\n");
    assert_eq!(remove_lines("a\nb\nc\n", &vec![true, true, true]), "");
}

#[test]
fn add_then_remove_restores_the_variables() {
    for (k, v) in [("NEW", "value"), ("X_Y", "a b"), ("EMPTY", ""), ("Q", "say \"hi\"")] {
        let added = add_env_var(SCRIPT, k, v);
        assert_eq!(extract_env_vars(&added).len(), 4);
        let removed = remove_env_var(&added, k);
        assert_eq!(extract_env_vars(&removed), extract_env_vars(SCRIPT));
        assert_eq!(removed, SCRIPT);
    }
}

#[test]
fn apply_changes_touches_only_what_changed() {
    let original = parse_script(SCRIPT, "/p", "acme");
    let mut edited = original.clone();
    edited.remove_env_var("MODE");
    edited.add_env_var("FOO".to_string(), "baz".to_string());
    edited.add_env_var("EXTRA".to_string(), "1 2".to_string());
    let out = apply_script_changes(&edited, &original.env_vars);
    let expected = SCRIPT
        .replace("  -e MODE=fast \\\n", "")
        .replace("-e FOO=\"bar\"", "-e FOO=\"baz\"")
        .replace(
            "  -e DB_PASSWORD='s3cret' \\\n",
            "  -e DB_PASSWORD=\"s3cret\" \\\n  -e EXTRA=\"1 2\" \\\n",
        );
    assert_eq!(out, expected);
    let back = parse_script(&out, "/p", "acme");
    assert_eq!(back.env_vars, vec![env("FOO", "baz"), env("DB_PASSWORD", "s3cret"), env("EXTRA", "1 2")]);
}

#[test]
fn apply_without_changes_rewrites_values_in_double_quotes() {
    let original = parse_script(SCRIPT, "/p", "acme");
    let out = apply_script_changes(&original, &original.env_vars);
    let expected = SCRIPT
        .replace("-e DB_PASSWORD='s3cret'", "-e DB_PASSWORD=\"s3cret\"")
        .replace("-e MODE=fast", "-e MODE=\"fast\"");
    assert_eq!(out, expected);
}

#[test]
fn remove_keeps_a_backslash_that_is_still_needed() {
    let text = [r#"docker run \"#, r#"  -e A="1" \"#, r#"  -e B="2" \"#, "  nginx"].join("\n");
    assert_eq!(
        remove_env_var(&text, "B"),
        [r#"docker run \"#, r#"  -e A="1" \"#, "  nginx"].join("\n")
    );
    assert_eq!(
        remove_env_var(&text, "A"),
        [r#"docker run \"#, r#"  -e B="2" \"#, "  nginx"].join("\n")
    );
    let text = "docker run \\\n  -e A=1 \\\n  -e B=2 \\\n\necho done";
    assert_eq!(remove_env_var(text, "B"), "docker run \\\n  -e A=1\n\necho done");
    let text = "docker run \\\n  -e A=1 \\\n  -e B=2\n  nginx";
    assert_eq!(remove_env_var(text, "B"), "docker run \\\n  -e A=1\n  nginx");
    assert_eq!(remove_lines("a \\\nb \\\nc", &vec![false, true]), "a \\\nc");
    assert_eq!(remove_lines("a \\\nb \\\n \nc", &vec![false, true]), "a\n \nc");
    assert_eq!(remove_lines("a \\\nb \\", &vec![false, true]), "a\n");
}

#[test]
fn editing_keeps_line_endings_and_the_final_newline() {
    let unix = format!("{}\n", SCRIPT);
    assert_eq!(
        add_env_var(&unix, "NEW", "v"),
        unix.replace("  -e MODE=fast \\\n", "  -e MODE=fast \\\n  -e NEW=\"v\" \\\n")
    );
    assert_eq!(
        remove_env_var(&unix, "DB_PASSWORD"),
        unix.replace("  -e DB_PASSWORD='s3cret' \\\n", "")
    );
    assert_eq!(remove_env_var(&add_env_var(&unix, "NEW", "v"), "NEW"), unix);
    let dos = unix.replace("\n", "\r\n");
    assert_eq!(
        add_env_var(&dos, "NEW", "v"),
        dos.replace("  -e MODE=fast \\\r\n", "  -e MODE=fast \\\r\n  -e NEW=\"v\" \\\r\n")
    );
    assert_eq!(
        remove_env_var(&dos, "FOO"),
        dos.replace("  -e FOO=\"bar\" \\\r\n", "")
    );
    assert_eq!(remove_env_var(&add_env_var(&dos, "NEW", "v"), "NEW"), dos);
    assert_eq!(update_env_var(&dos, "FOO", "baz"), dos.replace("FOO=\"bar\"", "FOO=\"baz\""));
    let mixed = "docker run \\\r\n  -e A=1\n\n# end\r\n";
    assert_eq!(
        add_env_var(mixed, "B", "2"),
        "docker run \\\r\n  -e A=1 \\\n  -e B=\"2\"\n\n# end\r\n"
    );
    let last = "docker run \\\n  -e A=1";
    assert_eq!(add_env_var(last, "B", "2"), "docker run \\\n  -e A=1 \\\n  -e B=\"2\"");
    assert_eq!(remove_env_var("a\n-e A=1\r\nb\r\n", "A"), "a\nb\r\n");
    assert_eq!(add_env_var("docker start x", "K", "v"), "  -e K=\"v\" \\\ndocker start x");
    let original = parse_script(&dos, "/p", "acme");
    let mut edited = original.clone();
    edited.remove_env_var("MODE");
    edited.add_env_var("EXTRA".to_string(), "1".to_string());
    let out = apply_script_changes(&edited, &original.env_vars);
    assert!(out.ends_with("docker start $NAME\r\n"));
    assert_eq!(out.matches("\r\n").count(), dos.matches("\r\n").count());
    assert_eq!(out.matches('\n').count(), out.matches("\r\n").count());
}
