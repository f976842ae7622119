//! Branch names and branch-scoped volumes.

use git_warp::branch::{detect_branch, sanitize_branch_name};
use git_warp::docker_proxy::{
    compose_command, first_launch, is_bind_mount_path, next_launch, probe_command,
    rewrite_compose, rewrite_long_volume, rewrite_short_volume, rewrite_volumes, rewritten_file_name, Argument,
    Attempt, ComposeError, ComposeTool, LaunchStep,
};
use git_warp::yaml::{Table, Yaml};

fn text(s: &str) -> Yaml {
    Yaml::Text(s.to_string())
}

fn table(entries: Vec<(&str, Yaml)>) -> Table {
    Table {
        entries: entries.into_iter().map(|(k, v)| (text(k), v)).collect(),
    }
}

fn items<'a>(v: &'a Yaml) -> &'a Vec<Yaml> {
    match v {
        Yaml::List(items) => items,
        _ => panic!("no list"),
    }
}

fn entries<'a>(v: &'a Yaml) -> &'a Table {
    match v {
        Yaml::Table(t) => t,
        _ => panic!("no table"),
    }
}

// ── Branch name sanitization ─────────────────────────────────────────────────────────────

#[test]
fn sanitize_simple_branch() {
    assert_eq!(sanitize_branch_name("main"), "main");
}

#[test]
fn sanitize_slashes() {
    assert_eq!(sanitize_branch_name("feature/login"), "feature-login");
}

#[test]
fn sanitize_nested_slashes() {
    assert_eq!(
        sanitize_branch_name("feature/auth/oauth2"),
        "feature-auth-oauth2"
    );
}

#[test]
fn sanitize_special_chars() {
    assert_eq!(sanitize_branch_name("fix/#123"), "fix-123");
}

#[test]
fn sanitize_consecutive_specials() {
    assert_eq!(sanitize_branch_name("a///b"), "a-b");
}

#[test]
fn sanitize_removes_other_characters() {
    assert_eq!(sanitize_branch_name("a#b"), "ab");
    assert_eq!(sanitize_branch_name("caf\u{e9}"), "caf");
    assert_eq!(sanitize_branch_name("a b"), "a-b");
    assert_eq!(sanitize_branch_name("v1.2_rc-3"), "v1.2_rc-3");
    assert_eq!(sanitize_branch_name(""), "");
    assert_eq!(sanitize_branch_name("///"), "");
    assert_eq!(sanitize_branch_name("-/a/-"), "a");
}

#[test]
fn sanitize_is_idempotent() {
    for name in ["feature/login", "a -- b", "--warp--", "#", "x//y z/"] {
        let once = sanitize_branch_name(name);
        assert_eq!(sanitize_branch_name(&once), once);
        assert!(!once.contains("--"));
        assert!(!once.starts_with('-') && !once.ends_with('-'));
    }
}

#[test]
fn branch_of_head_file() {
    assert_eq!(detect_branch("ref: refs/heads/feature/login\n"), "feature/login");
    assert_eq!(
        detect_branch("a1b2c3d4e5f6a1b2c3d4e5f6a1b2c3d4e5f6a1b2\n"),
        "detached"
    );
    assert_eq!(detect_branch("ref: refs/tags/v1"), "detached");
    assert_eq!(detect_branch("  ref: refs/heads/main  "), "main");
}

// ── Short-form volume rewriting ──────────────────────────────────────────────────────────

#[test]
fn rewrite_bind_mount_relative() {
    let result = rewrite_short_volume("./pgdata:/var/lib/postgresql/data", "main");
    assert_eq!(
        result.unwrap(),
        "./pgdata--warp--main:/var/lib/postgresql/data"
    );
}

#[test]
fn rewrite_bind_mount_with_mode() {
    let result = rewrite_short_volume("./data:/app/data:rw", "develop");
    assert_eq!(result.unwrap(), "./data--warp--develop:/app/data:rw");
}

#[test]
fn rewrite_named_volume() {
    let result = rewrite_short_volume("db_data:/var/lib/postgresql/data", "feature-login");
    assert_eq!(
        result.unwrap(),
        "db_data--warp--feature-login:/var/lib/postgresql/data"
    );
}

#[test]
fn rewrite_absolute_bind_mount() {
    let result = rewrite_short_volume("/tmp/logs:/var/log", "main");
    assert_eq!(result.unwrap(), "/tmp/logs--warp--main:/var/log");
}

#[test]
fn skip_anonymous_volume() {
    let result = rewrite_short_volume("/var/lib/data", "main");
    assert!(result.is_none());
}

#[test]
fn skip_already_rewritten() {
    let result = rewrite_short_volume("./pgdata--warp--main:/var/lib/postgresql/data", "main");
    assert!(result.is_none());
}

#[test]
fn short_volume_edges() {
    assert_eq!(rewrite_short_volume(":/x", "b").unwrap(), "--warp--b:/x");
    assert_eq!(rewrite_short_volume("a:", "b").unwrap(), "a--warp--b:");
    assert_eq!(
        rewrite_short_volume("a:/x:ro:z", "b").unwrap(),
        "a--warp--b:/x:ro:z"
    );
    assert!(rewrite_short_volume("", "b").is_none());
    // Only the host part is looked at for the delimiter.
    assert_eq!(
        rewrite_short_volume("a:/x--warp--y", "b").unwrap(),
        "a--warp--b:/x--warp--y"
    );
}

#[test]
fn short_volume_is_scoped_once() {
    for volume in ["./pgdata:/data", "db:/x:ro", ":/x"] {
        let once = rewrite_short_volume(volume, "main").unwrap();
        assert!(rewrite_short_volume(&once, "main").is_none());
        assert!(rewrite_short_volume(&once, "other").is_none());
    }
}

#[test]
fn branches_are_isolated() {
    let a = rewrite_short_volume("db:/data", "main").unwrap();
    let b = rewrite_short_volume("db:/data", "feature-login").unwrap();
    assert_eq!(a, "db--warp--main:/data");
    assert_eq!(b, "db--warp--feature-login:/data");
    assert_ne!(a.split(':').next(), b.split(':').next());
}

// ── Long-form volume rewriting ───────────────────────────────────────────────────────────

#[test]
fn rewrite_long_form_bind() {
    let mut mapping = table(vec![
        ("type", text("bind")),
        ("source", text("./pgdata")),
        ("target", text("/var/lib/postgresql/data")),
    ]);

    let rewritten = rewrite_long_volume(&mut mapping, "main");
    assert!(rewritten);
    let doc = Yaml::Table(mapping);
    assert_eq!(doc.get("source").unwrap(), &text("./pgdata--warp--main"));
    assert_eq!(doc.get("type").unwrap(), &text("bind"));
    assert_eq!(doc.get("target").unwrap(), &text("/var/lib/postgresql/data"));
}

#[test]
fn skip_long_form_already_rewritten() {
    let mut mapping = table(vec![("source", text("./pgdata--warp--main"))]);

    let rewritten = rewrite_long_volume(&mut mapping, "main");
    assert!(!rewritten);
}

#[test]
fn skip_long_form_without_source() {
    let mut mapping = table(vec![("type", text("tmpfs")), ("target", text("/tmp"))]);
    assert!(!rewrite_long_volume(&mut mapping, "main"));
    let mut mapping = table(vec![("source", Yaml::Null)]);
    assert!(!rewrite_long_volume(&mut mapping, "main"));
    assert_eq!(mapping, table(vec![("source", Yaml::Null)]));
}

// ── Full YAML rewriting ──────────────────────────────────────────────────────────────────

#[test]
fn rewrite_full_compose_yaml() {
    let yaml = r#"
version: "3.8"
services:
  db:
    image: postgres:15
    volumes:
      - ./pgdata:/var/lib/postgresql/data
      - db_data:/backup
  redis:
    image: redis:7
    volumes:
      - redis_data:/data
volumes:
  db_data:
  redis_data:
    driver: local
"#;

    let mut doc = Yaml::parse(yaml).unwrap();
    let stats = rewrite_volumes(&mut doc, "feature-login").unwrap();

    // Service volumes
    let services = doc.get("services").unwrap();
    let db_vols = items(services.get("db").unwrap().get("volumes").unwrap());
    assert_eq!(
        db_vols[0].as_str().unwrap(),
        "./pgdata--warp--feature-login:/var/lib/postgresql/data"
    );
    assert_eq!(
        db_vols[1].as_str().unwrap(),
        "db_data--warp--feature-login:/backup"
    );

    let redis_vols = items(services.get("redis").unwrap().get("volumes").unwrap());
    assert_eq!(
        redis_vols[0].as_str().unwrap(),
        "redis_data--warp--feature-login:/data"
    );

    // Top-level volumes
    let top_vols = doc.get("volumes").unwrap();
    assert!(top_vols.get("db_data--warp--feature-login").is_some());
    assert!(top_vols.get("redis_data--warp--feature-login").is_some());
    assert!(top_vols.get("db_data").is_none());

    // Statistics
    assert_eq!(stats.bind_mounts, 1);
    assert_eq!(stats.named_volumes, 2);
    assert_eq!(stats.top_level_volumes, 2);

    // Everything else
    assert_eq!(doc.get("version").unwrap(), &text("3.8"));
    assert_eq!(
        services.get("db").unwrap().get("image").unwrap(),
        &text("postgres:15")
    );
}

#[test]
fn rewrite_counts_long_form_as_bind_mount() {
    let yaml = "services:\n  a:\n    volumes:\n      - type: volume\n        source: db\n        target: /x\n      - /anonymous\n      - 5\n";
    let mut doc = Yaml::parse(yaml).unwrap();
    let stats = rewrite_volumes(&mut doc, "main").unwrap();
    assert_eq!(stats.bind_mounts, 1);
    assert_eq!(stats.named_volumes, 0);
    assert_eq!(stats.top_level_volumes, 0);
    let vols = items(doc.get("services").unwrap().get("a").unwrap().get("volumes").unwrap());
    assert_eq!(vols[0].get("source").unwrap(), &text("db--warp--main"));
    assert_eq!(vols[1], text("/anonymous"));
}

#[test]
fn rewrite_keeps_keys_that_are_no_strings() {
    let yaml = "volumes:\n  1: a\n  db: b\n";
    let mut doc = Yaml::parse(yaml).unwrap();
    let stats = rewrite_volumes(&mut doc, "main").unwrap();
    assert_eq!(stats.top_level_volumes, 1);
    let volumes = entries(doc.get("volumes").unwrap());
    assert_eq!(volumes.entries.len(), 2);
    assert!(matches!(volumes.entries[0].0, Yaml::Num(_)));
    assert_eq!(volumes.entries[1].0, text("db--warp--main"));
}

#[test]
fn rewrite_leaves_other_documents_alone() {
    for yaml in ["just text", "- a\n- b\n", "services: none\nvolumes: none\n", "a: 1\n"] {
        let mut doc = Yaml::parse(yaml).unwrap();
        let before = Yaml::parse(yaml).unwrap();
        let stats = rewrite_volumes(&mut doc, "main").unwrap();
        assert_eq!(doc, before);
        assert_eq!(stats.bind_mounts + stats.named_volumes + stats.top_level_volumes, 0);
    }
}

#[test]
fn rewrite_of_rewritten_services_changes_nothing() {
    let yaml = "services:\n  a:\n    volumes:\n      - db:/x\n      - ./d:/y:ro\n";
    let mut doc = Yaml::parse(yaml).unwrap();
    rewrite_volumes(&mut doc, "main").unwrap();
    let once = doc.emit().unwrap();
    let mut again = Yaml::parse(&once).unwrap();
    let stats = rewrite_volumes(&mut again, "other").unwrap();
    assert_eq!(stats.bind_mounts + stats.named_volumes, 0);
    assert_eq!(again.emit().unwrap(), once);
}

#[test]
fn scoped_definitions_stay_with_their_references() {
    let yaml = "services:\n  db:\n    volumes:\n      - db_data--warp--main:/x\nvolumes:\n  db_data--warp--main: null\n";
    let mut doc = Yaml::parse(yaml).unwrap();
    let before = Yaml::parse(yaml).unwrap();
    let stats = rewrite_volumes(&mut doc, "main").unwrap();
    assert_eq!(doc, before);
    assert_eq!(stats.top_level_volumes, 0);
    assert_eq!(stats.named_volumes, 0);
}

#[test]
fn definitions_that_come_to_one_name_are_merged() {
    let yaml = "volumes:\n  db: first\n  other: x\n  db--warp--main: second\n";
    let mut doc = Yaml::parse(yaml).unwrap();
    let stats = rewrite_volumes(&mut doc, "main").unwrap();
    assert_eq!(
        doc.get("volumes").unwrap(),
        &Yaml::Table(table(vec![
            ("db--warp--main", text("second")),
            ("other--warp--main", text("x")),
        ]))
    );
    assert_eq!(stats.top_level_volumes, 2);
}

#[test]
fn rewriting_a_document_twice_is_rewriting_it_once() {
    let yaml = "services:\n  a:\n    volumes: [db:/x, './d:/y']\nvolumes:\n  db: null\n  1: n\n  !t z: m\n  !t k--warp--q: o\n";
    let mut doc = Yaml::parse(yaml).unwrap();
    let stats = rewrite_volumes(&mut doc, "main").unwrap();
    assert_eq!(stats.top_level_volumes, 2);
    let once = doc.emit().unwrap();
    let mut again = Yaml::parse(&once).unwrap();
    let stats = rewrite_volumes(&mut again, "other").unwrap();
    assert_eq!(stats.bind_mounts + stats.named_volumes + stats.top_level_volumes, 0);
    assert_eq!(again.emit().unwrap(), once);
}

#[test]
fn tagged_sections_are_rewritten() {
    let yaml = "services: !t\n  a: !u\n    volumes: !v\n      - db:/x\nvolumes: !w\n  db: null\n";
    let mut doc = Yaml::parse(yaml).unwrap();
    let stats = rewrite_volumes(&mut doc, "main").unwrap();
    assert_eq!(stats.named_volumes, 1);
    assert_eq!(stats.top_level_volumes, 1);
    // The tag of the definitions is dropped, the others stay.
    assert!(matches!(doc.get("volumes").unwrap(), Yaml::Table(_)));
    assert!(matches!(doc.get("services").unwrap(), Yaml::Tagged(_)));
}

#[test]
fn compose_file_is_rewritten_for_a_branch() {
    let yaml = "services:\n  db:\n    volumes:\n      - ./pgdata:/var/lib/data\n      - db_data:/backup\nvolumes:\n  db_data:\n";
    let c = rewrite_compose(yaml, "feature/login", "/repo/docker-compose.yml").unwrap();
    assert_eq!(
        c.text,
        "services:\n  db:\n    volumes:\n    - ./pgdata--warp--feature-login:/var/lib/data\n    - db_data--warp--feature-login:/backup\nvolumes:\n  db_data--warp--feature-login: null\n"
    );
    assert_eq!(c.file_name, "docker-compose--feature-login--b987ae4d.yml");
    assert_eq!(c.stats.bind_mounts, 1);
    assert_eq!(c.stats.named_volumes, 1);
    assert_eq!(c.stats.top_level_volumes, 1);
}

#[test]
fn compose_file_that_is_no_yaml_is_refused() {
    let r = rewrite_compose("a: [", "main", "/repo/docker-compose.yml");
    assert!(matches!(r, Err(ComposeError::Parse(_))));
    let r = rewrite_compose("a: 1\na: 2\n", "main", "/repo/docker-compose.yml");
    assert!(matches!(r, Err(ComposeError::Parse(_))));
}

#[test]
fn compose_file_that_cannot_be_written_is_refused() {
    // A tag within a tag can be read, but not written.
    let mut doc = Yaml::parse("!a x").unwrap();
    doc = match doc {
        Yaml::Tagged(t) => Yaml::Tagged(Box::new(git_warp::yaml::TaggedYaml {
            tag: serde_yaml::value::Tag::new("b"),
            value: Yaml::Tagged(t),
        })),
        other => other,
    };
    assert!(doc.emit().is_err());
}

#[test]
fn compose_file_names_do_not_collide() {
    assert_eq!(
        rewritten_file_name("main", "/repo/docker-compose.yml"),
        "docker-compose--main--b987ae4d.yml"
    );
    assert_eq!(
        rewritten_file_name("main", "/repo/docker-compose.prod.yml"),
        "docker-compose--main--8a7016a5.yml"
    );
    assert_ne!(
        rewritten_file_name("a", "/repo/docker-compose.yml"),
        rewritten_file_name("b", "/repo/docker-compose.yml")
    );
}

// ── Bind mount detection ─────────────────────────────────────────────────────────────────

#[test]
fn detect_relative_bind_mount() {
    assert!(is_bind_mount_path("./data"));
    assert!(is_bind_mount_path("../data"));
}

#[test]
fn detect_absolute_bind_mount() {
    assert!(is_bind_mount_path("/var/lib/data"));
}

#[test]
fn detect_home_bind_mount() {
    assert!(is_bind_mount_path("~/data"));
}

#[test]
fn detect_named_volume() {
    assert!(!is_bind_mount_path("db_data"));
    assert!(!is_bind_mount_path("my-volume"));
}

#[test]
fn detect_names_that_only_look_like_paths() {
    assert!(!is_bind_mount_path(".hidden"));
    assert!(!is_bind_mount_path("~user"));
    assert!(!is_bind_mount_path(""));
    assert!(is_bind_mount_path("/"));
}

#[test]
fn whole_documents_are_isolated() {
    let yaml = "services:\n  a:\n    volumes:\n      - type: bind\n        source: ./d\n      - db:/x\nvolumes:\n  db: null\n  plain: null\n";
    let mut names = Vec::new();
    for branch in ["main", "feature-login"] {
        let mut doc = Yaml::parse(yaml).unwrap();
        rewrite_volumes(&mut doc, branch).unwrap();
        let vols = items(doc.get("services").unwrap().get("a").unwrap().get("volumes").unwrap());
        names.push(vols[0].get("source").unwrap().as_str().unwrap().to_string());
        names.push(vols[1].as_str().unwrap().split(':').next().unwrap().to_string());
        for (key, _) in &entries(doc.get("volumes").unwrap()).entries {
            names.push(key.as_str().unwrap().to_string());
        }
    }
    // The reference `db` and the definition `db` are one name; all others are apart.
    assert_eq!(names[1], names[2]);
    assert_eq!(names[5], names[6]);
    for (i, a) in names.iter().enumerate() {
        assert!(a.contains("--warp--"));
        for b in &names[i + 1..] {
            assert!(a != b || a.starts_with("db"));
        }
    }
    assert!(names[..4].iter().all(|a| !names[4..].contains(a)));
}

// ── Running docker compose ───────────────────────────────────────────────────────────────

/// Where a launch ends on a machine with these tools. `None` stands for a tool that is not
/// found.
fn launch(plugin: Option<Option<i32>>, standalone: Option<Option<i32>>, probe: Attempt) -> LaunchStep {
    let mut step = first_launch();
    loop {
        let outcome = match step {
            LaunchStep::Probe => probe,
            LaunchStep::Run(ComposeTool::Plugin) => {
                plugin.map(Attempt::Exited).unwrap_or(Attempt::NotExecuted)
            }
            LaunchStep::Run(ComposeTool::Standalone) => {
                standalone.map(Attempt::Exited).unwrap_or(Attempt::NotExecuted)
            }
            LaunchStep::Exit(_) | LaunchStep::Failed => return step,
        };
        step = next_launch(step, outcome);
    }
}

#[test]
fn plugin_comes_first() {
    assert_eq!(first_launch(), LaunchStep::Probe);
    let c = probe_command();
    assert_eq!(c.program, "docker");
    assert_eq!(
        c.arguments,
        vec![
            Argument::Literal("compose".to_string()),
            Argument::Literal("version".to_string()),
        ]
    );
    let there = Attempt::Exited(Some(0));
    assert_eq!(
        next_launch(LaunchStep::Probe, there),
        LaunchStep::Run(ComposeTool::Plugin)
    );
    // Whatever the plugin exits with is the end, and the other tool is not asked.
    for code in [0, 1, 3, 125] {
        assert_eq!(launch(Some(Some(code)), Some(Some(99)), there), LaunchStep::Exit(code));
    }
    assert_eq!(launch(Some(None), Some(Some(99)), there), LaunchStep::Exit(1));

    let args = vec!["up".to_string(), "-d".to_string()];
    let c = compose_command(ComposeTool::Plugin, &args);
    assert_eq!(c.program, "docker");
    assert_eq!(
        c.arguments,
        vec![
            Argument::Literal("compose".to_string()),
            Argument::Literal("-f".to_string()),
            Argument::ComposeFile,
            Argument::Literal("up".to_string()),
            Argument::Literal("-d".to_string()),
        ]
    );
}

#[test]
fn standalone_is_the_fallback() {
    // No docker, docker without the plugin, and docker that was killed.
    for probe in [
        Attempt::NotExecuted,
        Attempt::Exited(Some(1)),
        Attempt::Exited(Some(125)),
        Attempt::Exited(None),
    ] {
        assert_eq!(
            next_launch(LaunchStep::Probe, probe),
            LaunchStep::Run(ComposeTool::Standalone)
        );
        assert_eq!(launch(None, Some(Some(4)), probe), LaunchStep::Exit(4));
        assert_eq!(launch(None, None, probe), LaunchStep::Failed);
    }
    assert_eq!(
        next_launch(LaunchStep::Run(ComposeTool::Plugin), Attempt::NotExecuted),
        LaunchStep::Run(ComposeTool::Standalone)
    );
    assert_eq!(
        next_launch(LaunchStep::Run(ComposeTool::Standalone), Attempt::NotExecuted),
        LaunchStep::Failed
    );
    let c = compose_command(ComposeTool::Standalone, &Vec::new());
    assert_eq!(c.program, "docker-compose");
    assert_eq!(
        c.arguments,
        vec![Argument::Literal("-f".to_string()), Argument::ComposeFile]
    );
}

#[test]
fn exit_code_is_passed_on() {
    for tool in [ComposeTool::Plugin, ComposeTool::Standalone] {
        let run = LaunchStep::Run(tool);
        assert_eq!(next_launch(run, Attempt::Exited(Some(3))), LaunchStep::Exit(3));
        assert_eq!(next_launch(run, Attempt::Exited(None)), LaunchStep::Exit(1));
    }
    assert_eq!(
        next_launch(LaunchStep::Exit(3), Attempt::NotExecuted),
        LaunchStep::Exit(3)
    );
    assert_eq!(
        next_launch(LaunchStep::Failed, Attempt::Exited(Some(0))),
        LaunchStep::Failed
    );
}
