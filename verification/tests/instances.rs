use agentseek_desktop::env::parse_env;
use agentseek_desktop::instances::{
    apply_info_line, apply_info_urls, check_new_instance, enrich_service_endpoints, env_file_path,
    find_env_example, instance_by_id, instance_target_path, new_instance, read_info_urls,
    readable_env_file, remove_instance, remove_runtime_logs, sort_instances, update_instance,
    validate_target, EntryFacts, LifecycleManifest, TargetFacts,
};
use agentseek_desktop::model::{InstanceRecord, LogEntry};
use agentseek_desktop::paths::{path_below, path_separator};
use std::path::{Path, MAIN_SEPARATOR};

fn record(id: &str, name: &str, created_at: u64) -> InstanceRecord {
    let mut instance = new_instance(id, name, "bub/default", "/work", "/work/.env.example", "", 1);
    instance.created_at = created_at;
    instance
}

#[test]
fn instance_working_directory_is_parent_plus_instance_name() {
    let parent = "/tmp/agentseek-instances";

    assert_eq!(
        instance_target_path(parent, "rag-development", '/').expect("build target path"),
        "/tmp/agentseek-instances/rag-development"
    );
    assert!(instance_target_path(parent, "nested/name", '/').is_err());
    assert!(instance_target_path(parent, "..", '/').is_err());
}

#[test]
fn names_that_leave_their_directory_are_refused() {
    assert_eq!(
        instance_target_path("/p", "  ", '/').expect_err("blank"),
        "Instance name cannot be empty"
    );
    for name in [".", "..", "a/b", "a\\b", "a\0b"] {
        assert_eq!(
            instance_target_path("/p", name, '/').expect_err("separator"),
            "Instance name cannot contain path separators"
        );
    }
    assert_eq!(instance_target_path("/p", " a ", '/').expect("trimmed"), "/p/a");
}

#[test]
fn targets_are_new_or_empty_directories() {
    let missing = TargetFacts { exists: false, is_dir: false, occupied: Ok(false) };
    assert!(validate_target(&missing).is_ok());
    let file = TargetFacts { exists: true, is_dir: false, occupied: Ok(false) };
    assert_eq!(
        validate_target(&file).expect_err("file"),
        "Target path is not a directory"
    );
    let full = TargetFacts { exists: true, is_dir: true, occupied: Ok(true) };
    assert_eq!(
        validate_target(&full).expect_err("full"),
        "Target directory must be empty"
    );
    let unreadable = TargetFacts { exists: true, is_dir: true, occupied: Err("denied".to_string()) };
    assert_eq!(validate_target(&unreadable).expect_err("unreadable"), "denied");
    let empty = TargetFacts { exists: true, is_dir: true, occupied: Ok(false) };
    assert!(validate_target(&empty).is_ok());
}

#[test]
fn examples_are_found_at_the_root_or_one_below() {
    let entries = vec![
        EntryFacts { path: "/w/a".to_string(), is_dir: false, has_example: true },
        EntryFacts { path: "/w/b".to_string(), is_dir: true, has_example: true },
    ];
    assert_eq!(
        find_env_example("/w", true, &entries, '/').as_deref(),
        Some("/w/.env.example")
    );
    assert_eq!(
        find_env_example("/w", false, &entries, '/').as_deref(),
        Some("/w/b/.env.example")
    );
    assert_eq!(find_env_example("/w", false, &Vec::new(), '/'), None);
}

#[test]
fn new_instances_need_a_free_name_and_a_place() {
    let instances = vec![record("1", "demo", 1)];
    assert!(check_new_instance("other", "/tmp", &instances).is_ok());
    assert_eq!(
        check_new_instance(" ", "/tmp", &instances).expect_err("blank"),
        "Instance name cannot be empty"
    );
    assert_eq!(
        check_new_instance(" demo ", "/tmp", &instances).expect_err("taken"),
        "Instance name already exists"
    );
    assert_eq!(
        check_new_instance("other", " ", &instances).expect_err("nowhere"),
        "Instance working directory cannot be empty"
    );
}

#[test]
fn new_instances_wait_for_their_variables() {
    let instance = new_instance("i", " demo ", "t", "/w", "/w/.env.example", "note", 7);
    assert_eq!(instance.name, "demo");
    assert_eq!(instance.status, "configuring");
    assert_eq!(instance.project_name.as_deref(), Some("demo"));
    assert_eq!((instance.created_at, instance.updated_at), (7, 7));
    assert_eq!(env_file_path(&instance, '/'), "/w/.env");
    assert_eq!(readable_env_file(&instance).expect("example"), "/w/.env.example");
    let mut bare = instance.clone();
    bare.env_example_path = None;
    assert_eq!(
        readable_env_file(&bare).expect_err("nothing"),
        "Instance has no readable environment variable file"
    );
    bare.env_path = Some("/e".to_string());
    assert_eq!(env_file_path(&bare, '/'), "/e");
    assert_eq!(readable_env_file(&bare).expect("own"), "/e");
}

#[test]
fn records_are_found_changed_and_removed() {
    let mut list = vec![record("1", "a", 1), record("2", "b", 2)];
    assert_eq!(instance_by_id(&list, "2").expect("found").name, "b");
    assert_eq!(
        instance_by_id(&list, "3").expect_err("missing"),
        "Instance not found"
    );
    let mut changed = record("2", "c", 2);
    update_instance(&mut list, &changed).expect("updated");
    assert_eq!(list[1].name, "c");
    changed.id = "3".to_string();
    assert_eq!(
        update_instance(&mut list, &changed).expect_err("missing"),
        "Instance not found"
    );
    remove_instance(&mut list, "1");
    assert_eq!(list.len(), 1);
    assert_eq!(list[0].id, "2");
}

#[test]
fn the_newest_instances_come_first() {
    let list = vec![record("1", "a", 5), record("2", "b", 9), record("3", "c", 5)];
    let ids: Vec<String> = sort_instances(&list).iter().map(|i| i.id.clone()).collect();
    assert_eq!(ids, ["2", "1", "3"]);
}

#[test]
fn runtime_logs_of_one_instance_are_removed() {
    let entry = |id: &str, owner: Option<&str>, category: &str| LogEntry {
        id: id.to_string(),
        instance_id: owner.map(str::to_string),
        instance_name: String::new(),
        category: category.to_string(),
        level: "info".to_string(),
        message: String::new(),
        command: None,
        created_at: 1,
        sequence: 1,
    };
    let mut logs = vec![
        entry("a", Some("1"), "runtime"),
        entry("b", Some("1"), "install"),
        entry("c", Some("2"), "runtime"),
        entry("d", None, "runtime"),
    ];
    remove_runtime_logs(&mut logs, "1");
    let left: Vec<String> = logs.iter().map(|l| l.id.clone()).collect();
    assert_eq!(left, ["b", "c", "d"]);
}

#[test]
fn lifecycle_v1_enriches_instance_details() {
    let manifest = LifecycleManifest {
        version: 1,
        name: "My Bub Agent".to_string(),
        services: vec![
            ("app".to_string(), "http://127.0.0.1:5173".to_string()),
            ("gateway".to_string(), "http://127.0.0.1:8088/agent".to_string()),
            ("copilotkit".to_string(), "http://127.0.0.1:4000/api/copilotkit".to_string()),
        ],
    };
    let env = parse_env(
        "BUB_MODEL=openai:gpt-4o-mini\nBUB_API_KEY=secret-value\nBUB_AG_UI_PORT=55550\nFRONTEND_PORT=55551\nCOPILOTKIT_PORT=57278\n",
    );
    let mut instance = record("bub-default", "bub_default", 1);
    instance.project_name = None;

    enrich_service_endpoints(&mut instance, &manifest, &env);

    assert_eq!(instance.project_name.as_deref(), Some("My Bub Agent"));
    assert_eq!(instance.lifecycle_version, Some(1));
    assert_eq!(instance.service_endpoints.len(), 3);
    assert!(instance
        .service_endpoints
        .iter()
        .any(|endpoint| endpoint.primary && endpoint.kind == "web"));
    assert!(instance
        .service_endpoints
        .iter()
        .any(|endpoint| endpoint.kind == "protocol"));
    assert_eq!(instance.ui_url.as_deref(), Some("http://127.0.0.1:55551"));
    assert_eq!(
        instance.agent_url.as_deref(),
        Some("http://127.0.0.1:55550/agent")
    );
    assert!(instance
        .service_endpoints
        .iter()
        .any(|endpoint| endpoint.url == "http://127.0.0.1:57278/api/copilotkit"));
    assert_eq!(instance.service_endpoints[0].name, "Agent / Gateway");
    assert_eq!(instance.service_endpoints[1].name, "Frontend");

    instance.project_name = Some("lag-development".to_string());
    enrich_service_endpoints(&mut instance, &manifest, &env);
    assert_eq!(instance.project_name.as_deref(), Some("lag-development"));
}

#[test]
fn services_without_urls_are_left_out() {
    let manifest = LifecycleManifest {
        version: 0,
        name: " ".to_string(),
        services: vec![
            ("other".to_string(), " ".to_string()),
            ("studio".to_string(), "http://127.0.0.1:3000".to_string()),
        ],
    };
    let mut instance = record("1", "a", 1);
    instance.project_name = None;
    instance.agent_url = Some("http://kept".to_string());
    enrich_service_endpoints(&mut instance, &manifest, &Vec::new());
    assert_eq!(instance.project_name, None);
    assert_eq!(instance.lifecycle_version, None);
    assert_eq!(instance.service_endpoints.len(), 1);
    assert_eq!(instance.studio_url.as_deref(), Some("http://127.0.0.1:3000"));
    assert_eq!(instance.agent_url.as_deref(), Some("http://kept"));
}

#[test]
fn urls_are_taken_from_the_information() {
    let mut instance = record("1", "a", 1);
    apply_info_urls(
        &mut instance,
        "nothing here\nAPI HTTP://127.0.0.1:1 \nAgent UI: http://127.0.0.1:2\nStudio: https://smith\nother http://127.0.0.1:3\nGateway http://127.0.0.1:4",
    );
    assert_eq!(instance.ui_url.as_deref(), Some("http://127.0.0.1:2"));
    assert_eq!(instance.studio_url.as_deref(), Some("https://smith"));
    assert_eq!(instance.agent_url.as_deref(), Some("http://127.0.0.1:4"));
}

#[test]
fn lines_are_read_from_whole_characters_on() {
    let mut instance = record("1", "a", 1);
    // The letters are longer in lower case, so `http` stands further on there.
    let line = format!("{}http\u{20ac}", "\u{23a}".repeat(5));
    assert!(!read_info_urls(&mut instance, &line));
    assert_eq!(instance.agent_url, None);
    assert!(read_info_urls(&mut instance, "\u{20ac} http://x"));
    assert_eq!(instance.agent_url.as_deref(), Some("http://x"));
    apply_info_line(&mut instance, "Frontend http://y", "frontend http://y");
    assert_eq!(instance.ui_url.as_deref(), Some("http://y"));
}

#[test]
fn paths_are_joined_as_on_the_machine() {
    assert_eq!(path_separator(false), '/');
    assert_eq!(path_separator(true), '\\');
    assert_eq!(path_below('/', "/a", "b/c"), "/a/b/c");
    assert_eq!(path_below('/', "/", "b"), "/b");
    assert_eq!(path_below('/', "", "b"), "b");
    assert_eq!(path_below('/', "/a\\", "C:b"), "/a\\/C:b");
    assert_eq!(path_below('\\', "C:\\a", "nvm/versions/node"), "C:\\a\\nvm/versions/node");
    assert_eq!(path_below('\\', "C:\\", "b"), "C:\\b");
    assert_eq!(path_below('\\', "C:/a/", "b"), "C:/a/b");
    assert_eq!(path_below('\\', "C:", "b"), "C:b");
    assert_eq!(path_below('\\', "", "b"), "b");
    assert_eq!(path_below('\\', "C:\\a", "d:b"), "d:b");
    for (base, name) in [("/a", "b"), ("/a/", "b"), ("", "b"), ("/", "b/c"), ("a b", ".env")] {
        let joined = Path::new(base).join(name);
        assert_eq!(path_below(MAIN_SEPARATOR, base, name), joined.to_string_lossy());
    }
    assert_eq!(instance_target_path("C:\\w", "a", '\\').as_deref(), Ok("C:\\w\\a"));
}
