use agentseek_desktop::deploy::{
    apply_chosen_ports, apply_instance_environment, apply_service_ports, assign_service_ports,
    ensure_tracing_choice, extra_environment, frontend_entries, huggingface_reachable,
    port_settling, resolve_lifecycle_ports, runtime_environment_summary, saved_entries,
    PortSettling,
};
use agentseek_desktop::env::{parse_env, EnvVariable};
use agentseek_desktop::ports::PortChange;
use agentseek_desktop::projects::{
    check_export, check_import, check_overwrite, describe_port_changes, described_project_name,
    is_left_alone, list_env_files, prepare_environment, recheck_environment, rename_project,
    save_environment, synchronize_instance_configs, synchronize_instance_port_configs,
    synchronize_instance_project_name, written_paths, ExportFacts, FileWrite, ProjectFiles,
    ReadManifest,
};

fn value<'a>(entries: &'a [EnvVariable], key: &str) -> &'a str {
    entries
        .iter()
        .find(|entry| entry.key == key)
        .map(|entry| entry.value.as_str())
        .expect("variable")
}

fn manifest(content: &str, services: &[(&str, &str)]) -> ReadManifest {
    ReadManifest {
        content: content.to_string(),
        services: services
            .iter()
            .map(|(name, url)| (name.to_string(), url.to_string()))
            .collect(),
    }
}

#[test]
fn reassigned_ports_are_synchronized_to_instance_runtime_configs() {
    let lifecycle = "version = 1\n\
[env.CTX_SERVER_PORT]\ndefault = \"8089\"\n\
[services.app]\nurl = \"http://127.0.0.1:5173\"\n\
[services.gateway]\nurl = \"http://127.0.0.1:8088/agent\"\n\
[services.copilotkit]\nurl = \"http://127.0.0.1:4000/api/copilotkit\"\n\
[services.ctx]\nurl = \"http://127.0.0.1:8089/ctx\"\n\
[checks.frontend]\ntype = \"http\"\ntarget = \"http://127.0.0.1:5173\"\n\
[checks.gateway]\ntype = \"http\"\ntarget = \"http://127.0.0.1:8088/agent/health\"\n\
[checks.copilotkit]\ntype = \"http\"\ntarget = \"http://127.0.0.1:4000/health\"\n\
[checks.ctx]\ntype = \"http\"\ntarget = \"http://127.0.0.1:8089/ctx/health\"\n";
    let frontend_example = "COPILOTKIT_PORT=4000\n\
BUB_AG_UI_AGENT_URL=http://127.0.0.1:8088/agent\n\
VITE_COPILOTKIT_RUNTIME_PROXY=http://127.0.0.1:4000\n\
VITE_BUB_AG_UI_URL=http://127.0.0.1:8088\n\
FRONTEND_PORT=5173\n";
    let files = ProjectFiles {
        lifecycle: Some(lifecycle.to_string()),
        frontend_example: Some(frontend_example.to_string()),
        frontend_env: None,
        compose: None,
    };
    let entries = parse_env(
        "BUB_AG_UI_PORT=57975\n\
FRONTEND_PORT=57980\n\
COPILOTKIT_PORT=57985\n\
CTX_SERVER_PORT=57990\n\
BUB_AG_UI_AGENT_URL=http://127.0.0.1:57975/agent\n",
    );

    let written = synchronize_instance_port_configs("/root", &files, &entries, '/');

    assert_eq!(written.len(), 2);
    assert_eq!(written[0].path, "/root/.agentseek/lifecycle.toml");
    let updated_lifecycle = &written[0].content;
    assert!(updated_lifecycle.contains("http://127.0.0.1:57980"));
    assert!(updated_lifecycle.contains("http://127.0.0.1:57975/agent"));
    assert!(updated_lifecycle.contains("http://127.0.0.1:57985/api/copilotkit"));
    assert!(updated_lifecycle.contains("default = \"57990\""));
    assert!(updated_lifecycle.contains("http://127.0.0.1:57990/ctx"));
    assert!(updated_lifecycle.contains("http://127.0.0.1:57975/agent/health"));
    assert!(updated_lifecycle.contains("http://127.0.0.1:57985/health"));
    assert!(updated_lifecycle.contains("http://127.0.0.1:57990/ctx/health"));
    assert!(!updated_lifecycle.contains("127.0.0.1:5173"));
    assert!(!updated_lifecycle.contains("127.0.0.1:8088"));
    assert!(!updated_lifecycle.contains("127.0.0.1:4000"));
    assert!(!updated_lifecycle.contains("127.0.0.1:8089"));

    assert_eq!(written[1].path, "/root/frontend/.env");
    let frontend = &written[1].content;
    assert!(frontend.contains("FRONTEND_PORT=57980"));
    assert!(frontend.contains("COPILOTKIT_PORT=57985"));
    assert!(frontend.contains("BUB_AG_UI_AGENT_URL=http://127.0.0.1:57975/agent"));
    assert!(frontend.contains("VITE_COPILOTKIT_RUNTIME_PROXY=http://127.0.0.1:57985"));
    assert!(frontend.contains("VITE_BUB_AG_UI_URL=http://127.0.0.1:57975"));
}

#[test]
fn files_in_step_are_not_written() {
    let files = ProjectFiles {
        lifecycle: Some("name = \"demo\"\n".to_string()),
        frontend_example: None,
        frontend_env: None,
        compose: Some("services:\n".to_string()),
    };
    assert!(synchronize_instance_configs("/w", "demo", &files, &Vec::new(), '/').is_empty());
    let renamed = synchronize_instance_configs("/w", "other", &files, &Vec::new(), '/');
    assert_eq!(renamed.len(), 1);
    assert_eq!(renamed[0].content, "name = \"other\"\n");
    assert_eq!(synchronize_instance_project_name("name = \"a\"\n", "a"), None);
    assert_eq!(
        synchronize_instance_project_name("name = \"a\"\n", "b").as_deref(),
        Some("name = \"b\"\n")
    );
    assert_eq!(written_paths(&renamed), "  /w/.agentseek/lifecycle.toml");
}

#[test]
fn a_renamed_manifest_is_written_once_with_its_ports() {
    let files = ProjectFiles {
        lifecycle: Some("name = \"a\"\n[services.app]\nurl = \"http://127.0.0.1:1\"\n".to_string()),
        frontend_example: None,
        frontend_env: None,
        compose: Some(
            "services:\n  app:\n    ports:\n      - \"1:1\"\n".to_string(),
        ),
    };
    let writes = synchronize_instance_configs("/w", "b", &files, &parse_env("APP_PORT=2\n"), '/');
    assert_eq!(writes.len(), 2);
    assert_eq!(
        writes[0].content,
        "name = \"b\"\n[services.app]\nurl = \"http://127.0.0.1:2\"\n"
    );
    assert_eq!(writes[1].path, "/w/docker-compose.yml");
}

#[test]
fn port_changes_are_described() {
    let changes = vec![PortChange { key: "A_PORT".to_string(), old_port: 1, new_port: 2 }];
    let writes = vec![FileWrite { path: "/w/x".to_string(), content: String::new() }];
    assert_eq!(
        describe_port_changes("Moved", &changes, "/w/.env", &writes),
        "Moved\nPort changes:\nA_PORT: 1 -> 2\nSynced files:\n  /w/.env\n  /w/x"
    );
}

#[test]
fn resolve_lifecycle_ports_respects_user_configured_port() {
    let user_port: u16 = 41_000;
    let entries = parse_env(&format!("LANGGRAPH_PORT={user_port}\n"));
    let services = vec![("langgraph".to_string(), "http://127.0.0.1:2024".to_string())];
    let found = resolve_lifecycle_ports(
        "version = 1\n[services.langgraph]\nurl = \"http://127.0.0.1:2024\"\n",
        &services,
        &entries,
        &Vec::new(),
        &vec![user_port],
        &Vec::new(),
    )
    .expect("resolve lifecycle ports");
    let resolved = found
        .ports
        .iter()
        .find(|(k, _)| k == "LANGGRAPH_PORT")
        .map(|(_, p)| *p);
    assert_eq!(
        resolved,
        Some(user_port),
        "user-configured available port must be respected"
    );
    assert!(
        found.changes.iter().all(|c| c.key != "LANGGRAPH_PORT"),
        "no change expected when user port is available"
    );
    assert!(found.content.contains("http://127.0.0.1:41000"));
}

#[test]
fn resolve_lifecycle_ports_falls_back_to_default_when_env_absent() {
    let default_port: u16 = 41_001;
    let url = format!("http://127.0.0.1:{default_port}");
    let services = vec![("langgraph".to_string(), url.clone())];
    let found = resolve_lifecycle_ports(
        &format!("version = 1\n[services.langgraph]\nurl = \"{url}\"\n"),
        &services,
        &parse_env(""),
        &Vec::new(),
        &vec![default_port],
        &Vec::new(),
    )
    .expect("resolve lifecycle ports");
    let resolved = found
        .ports
        .iter()
        .find(|(k, _)| k == "LANGGRAPH_PORT")
        .map(|(_, p)| *p);
    assert_eq!(
        resolved,
        Some(default_port),
        "should fall back to lifecycle default when env has no port"
    );
}

#[test]
fn reserved_ports_are_replaced() {
    let services = vec![("app".to_string(), "http://127.0.0.1:5173".to_string())];
    let found = resolve_lifecycle_ports(
        "url = \"http://127.0.0.1:5173\"\n",
        &services,
        &Vec::new(),
        &vec![5173],
        &vec![5173],
        &vec![5173, 41_002],
    )
    .expect("resolve");
    assert_eq!(found.ports, vec![("APP_PORT".to_string(), 41_002)]);
    assert_eq!(found.changes.len(), 1);
    assert_eq!(found.content, "url = \"http://127.0.0.1:41002\"\n");
    assert!(resolve_lifecycle_ports("", &services, &Vec::new(), &vec![5173], &vec![5173], &vec![])
        .is_err());
}

#[test]
fn new_instances_share_the_ports_of_their_template() {
    let services = vec![
        ("app".to_string(), "http://127.0.0.1:5173".to_string()),
        ("ui".to_string(), "http://127.0.0.1:5173/ui".to_string()),
        ("api".to_string(), "http://127.0.0.1:8000".to_string()),
        ("db".to_string(), "http://127.0.0.1:9000".to_string()),
    ];
    let mut ports = vec![("FRONTEND_PORT".to_string(), 41_000), ("DB_PORT".to_string(), 9000)];
    let mut changes = vec![PortChange {
        key: "FRONTEND_PORT".to_string(),
        old_port: 5173,
        new_port: 41_000,
    }];
    let updated = assign_service_ports(
        "a http://127.0.0.1:5173 b http://127.0.0.1:8000",
        &services,
        &mut ports,
        &mut changes,
        &Vec::new(),
        &Vec::new(),
        &vec![41_000, 41_001],
    )
    .expect("assign");
    assert_eq!(updated, "a http://127.0.0.1:41000 b http://127.0.0.1:41001");
    assert_eq!(ports[2], ("API_PORT".to_string(), 41_001));
    assert_eq!(changes.len(), 2);
    assert_eq!((changes[1].old_port, changes[1].new_port), (8000, 41_001));
}

#[test]
fn chosen_ports_reach_the_variables() {
    let mut entries = parse_env(
        "A_PORT=1\nBUB_AG_UI_PORT=8088\nBUB_AG_UI_AGENT_URL=http://127.0.0.1:8088/agent\nX=7000\n",
    );
    apply_chosen_ports(
        &mut entries,
        &vec![
            ("A_PORT".to_string(), 2),
            ("GATEWAY_PORT".to_string(), 58781),
            ("SAME_PORT".to_string(), 7000),
            ("NEW_PORT".to_string(), 6000),
        ],
        &vec![PortChange { key: "GATEWAY_PORT".to_string(), old_port: 8088, new_port: 58781 }],
    );
    assert_eq!(value(&entries, "A_PORT"), "2");
    assert_eq!(value(&entries, "BUB_AG_UI_PORT"), "58781");
    assert_eq!(value(&entries, "BUB_AG_UI_AGENT_URL"), "http://127.0.0.1:58781/agent");
    assert!(entries.iter().all(|e| e.key != "GATEWAY_PORT" && e.key != "SAME_PORT"));
    assert_eq!(value(&entries, "NEW_PORT"), "6000");
    assert_eq!(entries[4].source, "describe");
}

#[test]
fn new_environments_are_prepared() {
    let example = parse_env("MODEL=x\n");
    let vault = parse_env("MODEL=y\n");
    let read = manifest(
        "url = \"http://127.0.0.1:5173\"\n",
        &[("app", "http://127.0.0.1:5173")],
    );
    let prepared = prepare_environment(
        &example,
        &Some(read),
        vec![("API_PORT".to_string(), 8000)],
        Vec::new(),
        &vault,
        &Vec::new(),
        &Vec::new(),
        &vec![41_000],
    )
    .expect("prepare");
    assert_eq!(value(&prepared.entries, "MODEL"), "y");
    assert_eq!(value(&prepared.entries, "API_PORT"), "8000");
    assert_eq!(value(&prepared.entries, "LANGSMITH_TRACING"), "false");
    assert_eq!(
        prepared.manifest.as_deref(),
        Some("url = \"http://127.0.0.1:41000\"\n")
    );
    assert_eq!(prepared.changes.len(), 1);
    let bare = prepare_environment(
        &example,
        &None,
        Vec::new(),
        Vec::new(),
        &Vec::new(),
        &Vec::new(),
        &Vec::new(),
        &Vec::new(),
    )
    .expect("prepare");
    assert_eq!(bare.manifest, None);
    assert_eq!(bare.entries.len(), 2);
}

#[test]
fn environments_are_saved_by_the_state_of_the_instance() {
    assert_eq!(port_settling(true, true), PortSettling::Keep);
    assert_eq!(port_settling(false, true), PortSettling::FromManifest);
    assert_eq!(port_settling(false, false), PortSettling::AmongVariables);
    let entries = || parse_env("APP_PORT=5173\nAPP_URL=http://127.0.0.1:5173/x\nLANGSMITH_TRACING=true\n");
    let spare = vec![41_000];
    let none: Vec<u16> = Vec::new();
    let kept = save_environment(entries(), true, &None, &none, &none, &spare).expect("kept");
    assert_eq!(value(&kept.entries, "APP_PORT"), "5173");
    assert!(kept.changes.is_empty());
    let moved = save_environment(entries(), false, &None, &none, &none, &spare).expect("moved");
    assert_eq!(value(&moved.entries, "APP_PORT"), "41000");
    assert_eq!(value(&moved.entries, "APP_URL"), "http://127.0.0.1:41000/x");
    let read = manifest("url = \"http://127.0.0.1:2024\"\n", &[("graph", "http://127.0.0.1:2024")]);
    let settled =
        save_environment(entries(), false, &Some(read), &none, &none, &spare).expect("settled");
    assert_eq!(value(&settled.entries, "GRAPH_PORT"), "41000");
    assert_eq!(
        settled.entries[3].comment,
        "graph service port (auto-resolved)"
    );
    assert_eq!(
        settled.manifest.as_deref(),
        Some("url = \"http://127.0.0.1:41000\"\n")
    );
    assert_eq!(value(&settled.entries, "LANGSMITH_TRACING"), "true");
    assert!(save_environment(entries(), false, &None, &none, &none, &none).is_err());
    assert!(saved_entries(&settled.entries).iter().all(|e| !e.modified));
}

#[test]
fn service_ports_reach_ports_and_urls() {
    let mut entries = parse_env("LANGGRAPH_URL=http://127.0.0.1:1\n");
    apply_service_ports(&mut entries, &vec![("LANGGRAPH_PORT".to_string(), 2024)]);
    assert_eq!(value(&entries, "LANGGRAPH_PORT"), "2024");
    assert_eq!(value(&entries, "LANGGRAPH_URL"), "http://127.0.0.1:2024");
    let mut traced = parse_env("langsmith_tracing=1\n");
    ensure_tracing_choice(&mut traced);
    assert_eq!(traced.len(), 1);
}

#[test]
fn ports_are_settled_again_before_a_deployment() {
    let services = vec![("app".to_string(), "http://127.0.0.1:6000".to_string())];
    let checked = recheck_environment(
        parse_env("X_PORT=5173\n"),
        &services,
        &vec![5173],
        &Vec::new(),
    )
    .expect("recheck");
    assert!(!checked.write);
    let moved = recheck_environment(
        parse_env("X_PORT=5173\nAPP_URL=http://127.0.0.1:1\n"),
        &services,
        &Vec::new(),
        &vec![41_000],
    )
    .expect("recheck");
    assert!(moved.write);
    assert_eq!(moved.changes.len(), 1);
    assert_eq!(value(&moved.entries, "APP_URL"), "http://127.0.0.1:6000");
    assert!(recheck_environment(parse_env("X_PORT=1\n"), &services, &vec![], &vec![]).is_err());
}

#[test]
fn frontends_keep_what_was_saved() {
    let entries = frontend_entries(
        &parse_env("# from example\nA=1\nB=2\n"),
        &parse_env("# kept\na=3\nC=4\n"),
        &Vec::new(),
    );
    assert_eq!(entries.len(), 3);
    assert_eq!((entries[0].key.as_str(), entries[0].value.as_str()), ("A", "3"));
    assert_eq!(entries[0].comment, "kept");
    assert_eq!(entries[1].value, "2");
    assert_eq!((entries[2].key.as_str(), entries[2].value.as_str()), ("C", "4"));
}

#[test]
fn processes_get_their_variables() {
    assert_eq!(
        apply_instance_environment(&parse_env("A='x y'\nB=1\n")).expect("variables"),
        vec![("A".to_string(), "x y".to_string()), ("B".to_string(), "1".to_string())]
    );
    assert_eq!(
        apply_instance_environment(&parse_env("A=x\0y\n")).expect_err("zero"),
        "Instance .env contains invalid variable: A"
    );
    assert_eq!(
        extra_environment(&parse_env("BACKEND_PORT=2024\n"), false),
        vec![
            ("VITE_LANGGRAPH_API_URL".to_string(), "http://127.0.0.1:2024".to_string()),
            ("HF_ENDPOINT".to_string(), "https://hf-mirror.com".to_string()),
        ]
    );
    assert!(extra_environment(
        &parse_env("LANGGRAPH_PORT=1\nVITE_LANGGRAPH_API_URL=x\nHF_ENDPOINT=y\n"),
        false
    )
    .is_empty());
    assert!(huggingface_reachable(&vec![false, true]));
    assert!(!huggingface_reachable(&vec![false]));
    assert!(runtime_environment_summary(&parse_env("APP_PORT=1\n")).contains("APP_PORT"));
}

#[test]
fn project_names_are_described_and_replaced() {
    assert_eq!(
        described_project_name("x: 1\n  project_name:  My Agent \nproject_name: other\n").as_deref(),
        Some("My Agent")
    );
    assert_eq!(described_project_name("name: x\n"), None);
    assert_eq!(rename_project("a My Agent b", "My Agent", "demo").as_deref(), Some("a demo b"));
    assert_eq!(rename_project("a", "My Agent", "demo"), None);
    assert_eq!(rename_project("ab", "", "-").as_deref(), Some("-a-b-"));
    assert!(is_left_alone("/w/.git"));
    assert!(!is_left_alone("/w/src"));
}

#[test]
fn env_file_scan_prefers_example_and_ignores_nested_files() {
    let names: Vec<String> = [".env", ".env.example", ".env.development", ".env1", "README.md"]
        .iter()
        .map(|name| name.to_string())
        .collect();

    let files = list_env_files("/w", &names, '/');

    assert_eq!(files.len(), 4);
    assert!(files[0].ends_with("/.env.example"));
    assert!(files.iter().any(|file| file.ends_with("/.env")));
    assert!(files.iter().any(|file| file.ends_with("/.env.development")));
    assert!(files.iter().any(|file| file.ends_with("/.env1")));
    assert!(files.iter().all(|file| !file.contains("frontend")));
    assert_eq!(files[1], "/w/.env");
    assert_eq!(files[2], "/w/.env.development");
}

#[test]
fn imports_and_exports_are_checked() {
    assert!(check_import(true, Some(".env".to_string())).is_ok());
    for (is_file, name) in [(false, Some(".env")), (true, Some("env")), (true, None)] {
        assert_eq!(
            check_import(is_file, name.map(str::to_string)).expect_err("import"),
            "Please select a valid .env file path"
        );
    }
    let facts = || ExportFacts {
        source_is_file: true,
        source_name: Some(".env".to_string()),
        output_is_absolute: true,
        output_name: Some("out".to_string()),
        output_directory_exists: true,
    };
    assert!(check_export(&facts()).is_ok());
    assert_eq!(
        check_export(&ExportFacts { source_name: None, ..facts() }).expect_err("source"),
        "Please select a valid source .env file"
    );
    assert_eq!(
        check_export(&ExportFacts { output_name: Some(" ".to_string()), ..facts() })
            .expect_err("output"),
        "Target file must be an absolute path with filename"
    );
    assert_eq!(
        check_export(&ExportFacts { output_directory_exists: false, ..facts() })
            .expect_err("directory"),
        "Target file directory does not exist"
    );
    assert!(check_overwrite("/x", true, true).is_ok());
    assert!(check_overwrite("/x", false, false).is_ok());
    assert_eq!(
        check_overwrite("/x", true, false).expect_err("exists"),
        "ENV_FILE_EXISTS:/x"
    );
}

#[test]
fn services_of_a_new_instance_add_ports_that_are_apart() {
    let services = vec![
        ("api".to_string(), "http://127.0.0.1:8000".to_string()),
        ("web".to_string(), "http://127.0.0.1:8001".to_string()),
    ];
    let mut ports = vec![("A_PORT".to_string(), 5000)];
    let mut changes = Vec::new();
    assign_service_ports(
        "",
        &services,
        &mut ports,
        &mut changes,
        &vec![42_000],
        &vec![8001],
        &vec![42_000, 5000, 8001, 42_001],
    )
    .expect("assign");
    assert_eq!(
        ports,
        vec![
            ("A_PORT".to_string(), 5000),
            ("API_PORT".to_string(), 8001),
        ]
    );
    assert_eq!((changes[0].old_port, changes[0].new_port), (8000, 8001));
}
