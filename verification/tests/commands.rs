use agentseek_desktop::commands::{
    accepts_port_flag, command_tokens, extract_lifecycle_service_ports, insert_command_port,
    remove_command_port, set_command_port, sync_process_command_ports,
};
use agentseek_desktop::env::parse_env;
use agentseek_desktop::lifecycle::synchronize_lifecycle_content;

#[test]
fn process_command_port_inserted_from_lifecycle_url_when_no_env_port() {
    // cli-remote: .env has no LANGGRAPH_PORT; port extracted from lifecycle.toml [services.langgraph] URL
    let lifecycle = "version = 1\n\
[services.langgraph]\nurl = \"http://127.0.0.1:54584\"\n\
[processes.langgraph]\ncommand = [\"uv\", \"run\", \"langgraph\", \"dev\"]\n";
    let entries = parse_env("LANGGRAPH_URL=http://127.0.0.1:54584\n");
    let updated = sync_process_command_ports(lifecycle, &entries);
    assert!(updated.contains("--port\""), "should insert --port, got:\n{updated}");
    assert!(updated.contains("\"54584\""), "should contain port from URL, got:\n{updated}");
}

#[test]
fn process_command_without_port_gets_inserted() {
    // cli-remote: lifecycle.toml has [processes.langgraph] but command has no --port
    let lifecycle = "version = 1\n\
[services.langgraph]\nurl = \"http://127.0.0.1:2024\"\n\
[processes.langgraph]\ncommand = [\"uv\", \"run\", \"langgraph\", \"dev\"]\n";
    let entries = parse_env("LANGGRAPH_PORT=54584\nLANGGRAPH_URL=http://127.0.0.1:54584\n");
    let updated = sync_process_command_ports(lifecycle, &entries);
    assert!(updated.contains("--port\""), "should insert --port, got:\n{updated}");
    assert!(updated.contains("\"54584\""), "should contain new port, got:\n{updated}");
}

#[test]
fn process_command_without_port_inserted_preserved_by_synchronize_lifecycle() {
    // Simulate full path of synchronize_instance_port_configs:
    // synchronize_lifecycle_content + sync_process_command_ports
    let lifecycle = "version = 1\r\n\
[services.langgraph]\r\nurl = \"http://127.0.0.1:2024\"\r\n\
[processes.langgraph]\r\ncommand = [\"uv\", \"run\", \"langgraph\", \"dev\"]\r\n";
    let entries = parse_env("LANGGRAPH_PORT=54584\n");
    let updated = synchronize_lifecycle_content(lifecycle, &entries);
    let updated = sync_process_command_ports(&updated, &entries);
    assert!(updated != lifecycle, "should differ from original");
    assert!(updated.contains("--port\""), "should insert --port, got:\n{updated}");
    assert!(updated.contains("\"54584\""), "should contain new port, got:\n{updated}");
}

#[test]
fn command_tokens_parses_array_and_string_forms() {
    let arr = command_tokens("command = [\"npm\", \"run\", \"dev\"]");
    assert_eq!(
        arr,
        vec![
            "npm".to_string(),
            "run".to_string(),
            "dev".to_string()
        ]
    );
    let s = command_tokens("command = \"npm run dev\"");
    assert_eq!(
        s,
        vec![
            "npm".to_string(),
            "run".to_string(),
            "dev".to_string()
        ]
    );
    let empty = command_tokens("command = []");
    assert!(empty.is_empty());
}

#[test]
fn remove_command_port_strips_port_from_array_and_string_forms() {
    let arr = "command = [\"npm\", \"install\", \"--port\", \"61986\"]";
    assert_eq!(
        remove_command_port(arr).as_deref(),
        Some("command = [\"npm\", \"install\"]")
    );
    let s = "command = \"npm install --port 61986\"";
    assert_eq!(
        remove_command_port(s).as_deref(),
        Some("command = \"npm install\"")
    );
    // Returns None when no --port
    assert!(remove_command_port("command = [\"npm\", \"install\"]").is_none());
}

#[test]
fn sync_process_command_ports_skips_install_commands() {
    // npm install should not inject --port even if corresponding *_PORT exists
    let lifecycle = "version = 1\n\
[services.app]\nurl = \"http://127.0.0.1:61986\"\n\
[processes.app]\ncommand = [\"npm\", \"install\"]\n";
    let entries = parse_env("FRONTEND_PORT=61986\n");
    let updated = sync_process_command_ports(lifecycle, &entries);
    assert!(
        !updated.contains("--port"),
        "install command must not get --port, got:\n{updated}"
    );
    assert!(
        updated.contains("\"npm\", \"install\"]"),
        "install command should stay clean, got:\n{updated}"
    );
}

#[test]
fn sync_process_command_ports_cleans_injected_port_from_install_commands() {
    // Install commands erroneously injected with --port by old logic should be cleaned up
    let lifecycle = "version = 1\n\
[processes.app]\ncommand = [\"npm\", \"install\", \"--port\", \"61986\"]\n";
    let entries = parse_env("FRONTEND_PORT=61986\n");
    let updated = sync_process_command_ports(lifecycle, &entries);
    assert!(
        !updated.contains("--port"),
        "stale --port must be removed, got:\n{updated}"
    );
    assert!(
        updated.contains("\"npm\", \"install\"]"),
        "install command should be restored, got:\n{updated}"
    );
}

#[test]
fn sync_process_command_ports_skips_npm_run_dev() {
    // npm run dev does not accept --port (npm intercepts --port and reports Unknown cli config),
    // Under whitelist approach, --port is not injected.
    let lifecycle = "version = 1\n\
[services.app]\nurl = \"http://127.0.0.1:61986\"\n\
[processes.app]\ncommand = [\"npm\", \"run\", \"dev\"]\n";
    let entries = parse_env("FRONTEND_PORT=61986\n");
    let updated = sync_process_command_ports(lifecycle, &entries);
    assert!(
        !updated.contains("--port"),
        "npm run dev must not get --port, got:\n{updated}"
    );
}

#[test]
fn sync_process_command_ports_cleans_port_from_npm_run_dev() {
    // npm run dev erroneously injected with --port by old logic should be cleaned up
    let lifecycle = "version = 1\n\
[processes.app]\ncommand = [\"npm\", \"run\", \"dev\", \"--port\", \"61986\"]\n";
    let entries = parse_env("FRONTEND_PORT=61986\n");
    let updated = sync_process_command_ports(lifecycle, &entries);
    assert!(
        !updated.contains("--port"),
        "stale --port on npm run dev must be removed, got:\n{updated}"
    );
    assert!(
        updated.contains("\"npm\", \"run\", \"dev\"]"),
        "npm run dev should be restored, got:\n{updated}"
    );
}

#[test]
fn sync_process_command_ports_skips_docker_compose() {
    // docker compose up does not accept --port (reports unknown flag: --port)
    let lifecycle = "version = 1\n\
[services.seekdb]\nurl = \"http://127.0.0.1:2881\"\n\
[processes.seekdb]\ncommand = [\"docker\", \"compose\", \"up\", \"seekdb\"]\n";
    let entries = parse_env("SEEKDB_PORT=2881\n");
    let updated = sync_process_command_ports(lifecycle, &entries);
    assert!(
        !updated.contains("--port"),
        "docker compose must not get --port, got:\n{updated}"
    );
}

#[test]
fn sync_process_command_ports_skips_shell_wrapped_commands() {
    // sh -lc wrapped commands: --port would be passed to sh instead of inner command; should not inject
    let lifecycle = "version = 1\n\
[services.backend]\nurl = \"http://127.0.0.1:63928\"\n\
[processes.backend]\ncommand = [\"sh\", \"-lc\", \"uv run langgraph dev --no-browser\"]\n";
    let entries = parse_env("BACKEND_PORT=63928\n");
    let updated = sync_process_command_ports(lifecycle, &entries);
    assert!(
        !updated.contains("--port"),
        "sh -lc wrapped command must not get --port, got:\n{updated}"
    );
}

#[test]
fn sync_process_command_ports_no_leak_into_tasks() {
    // [tasks.*] command should not be injected with process --port (Bug 1)
    let lifecycle = "version = 1\n\
[services.langgraph]\nurl = \"http://127.0.0.1:61889\"\n\
[services.frontend]\nurl = \"http://127.0.0.1:61884\"\n\
[processes.langgraph]\ncommand = [\"uv\", \"run\", \"langgraph\", \"dev\", \"--port\", \"2024\", \"--no-browser\"]\n\
[processes.frontend]\ncommand = [\"npm\", \"run\", \"dev\"]\n\
[tasks.backend]\ncommand = [\"uv\", \"sync\"]\n\
[tasks.frontend]\ncommand = [\"npm\", \"install\", \"--prefix\", \"frontend\"]\n";
    let entries = parse_env("LANGGRAPH_PORT=61889\nFRONTEND_PORT=61884\n");
    let updated = sync_process_command_ports(lifecycle, &entries);
    // langgraph command should have port replaced to 61889
    assert!(
        updated.contains("\"61889\""),
        "langgraph should carry resolved port, got:\n{updated}"
    );
    // tasks should NOT have --port leaked from processes
    assert!(
        !updated.contains("sync\", \"--port\""),
        "uv sync in tasks must not get --port, got:\n{updated}"
    );
    assert!(
        !updated.contains("frontend\", \"--port\""),
        "npm install in tasks must not get --port, got:\n{updated}"
    );
}

#[test]
fn accepts_port_flag_whitelist() {
    // langgraph / vite / uvicorn accept --port
    assert!(accepts_port_flag(&[
        "uv".to_string(),
        "run".to_string(),
        "langgraph".to_string(),
        "dev".to_string()
    ]));
    assert!(accepts_port_flag(&["langgraph".to_string(), "dev".to_string()]));
    assert!(accepts_port_flag(&["vite".to_string()]));
    assert!(accepts_port_flag(&[
        "uvicorn".to_string(),
        "main:app".to_string()
    ]));
    // Others do not accept
    assert!(!accepts_port_flag(&[
        "npm".to_string(),
        "run".to_string(),
        "dev".to_string()
    ]));
    assert!(!accepts_port_flag(&[
        "docker".to_string(),
        "compose".to_string(),
        "up".to_string()
    ]));
    assert!(!accepts_port_flag(&["uv".to_string(), "sync".to_string()]));
    assert!(!accepts_port_flag(&[
        "sh".to_string(),
        "-lc".to_string(),
        "uv run langgraph dev".to_string()
    ]));
    assert!(!accepts_port_flag(&["npm".to_string(), "install".to_string()]));
}

#[test]
fn sync_process_command_ports_still_injects_port_for_non_npm_commands() {
    // Ensure non-npm commands (langgraph dev) still get --port injected normally
    let lifecycle = "version = 1\n\
[services.langgraph]\nurl = \"http://127.0.0.1:2024\"\n\
[processes.langgraph]\ncommand = [\"uv\", \"run\", \"langgraph\", \"dev\"]\n";
    let entries = parse_env("LANGGRAPH_PORT=54584\n");
    let updated = sync_process_command_ports(lifecycle, &entries);
    assert!(
        updated.contains("--port"),
        "langgraph command should get --port, got:\n{updated}"
    );
    assert!(
        updated.contains("\"54584\""),
        "langgraph command should carry the port, got:\n{updated}"
    );
}

#[test]
fn ports_are_inserted_before_the_end_of_a_command() {
    assert_eq!(
        insert_command_port("command = [\"vite\"]", 5000).as_deref(),
        Some("command = [\"vite\", \"--port\", \"5000\"]")
    );
    assert_eq!(
        insert_command_port("command = \"vite\"", 5000).as_deref(),
        Some("command = \"vite --port 5000\"")
    );
    assert_eq!(insert_command_port("command", 5000), None);
}

#[test]
fn ports_are_replaced_where_they_stand() {
    assert_eq!(
        set_command_port("command = [\"vite\", \"--port\", \"80\"]", 5000).as_deref(),
        Some("command = [\"vite\", \"--port\", \"5000\"]")
    );
    assert_eq!(
        set_command_port("command = \"vite --port 80\"", 5000).as_deref(),
        Some("command = \"vite --port 5000\"")
    );
}

#[test]
fn services_give_their_ports_by_name() {
    let ports = extract_lifecycle_service_ports(
        "[services.app]\nurl = \"http://127.0.0.1:5173\"\n[processes.app]\nurl = \"http://127.0.0.1:1\"\n",
    );
    assert_eq!(ports, vec![("APP".to_string(), 5173)]);
}

#[test]
fn a_manifest_without_processes_stays() {
    let content = "[tasks.x]\ncommand = [\"vite\", \"--port\", \"1\"]\n";
    assert_eq!(
        sync_process_command_ports(content, &parse_env("X_PORT=2\n")),
        content
    );
}

#[test]
fn ports_stay_in_their_process() {
    let lifecycle = "[processes.langgraph]\ncommand = [\"langgraph\", \"dev\"]\n[tasks.dev]\ncommand = [\"langgraph\", \"dev\"]\n";
    let expected = "[processes.langgraph]\ncommand = [\"langgraph\", \"dev\", \"--port\", \"5000\"]\n[tasks.dev]\ncommand = [\"langgraph\", \"dev\"]\n";
    let updated = sync_process_command_ports(lifecycle, &parse_env("LANGGRAPH_PORT=5000\n"));
    assert_eq!(updated, expected);
}

#[test]
fn line_endings_of_commands_stay() {
    let lifecycle = "[processes.a]\r\ncommand = \"vite\"\r\n[processes.b]\r\ncommand = \"vite\"";
    let updated = sync_process_command_ports(lifecycle, &parse_env("A_PORT=1\nB_PORT=2\n"));
    assert_eq!(
        updated,
        "[processes.a]\r\ncommand = \"vite --port 1\"\r\n[processes.b]\r\ncommand = \"vite --port 2\""
    );
}

#[test]
fn removal_undoes_insertion() {
    for line in ["command = [\"langgraph\", \"dev\"]", "command = \"vite dev\""] {
        let with_port = insert_command_port(line, 5000).expect("inserted");
        assert_eq!(set_command_port(&with_port, 5000), None);
        assert_eq!(remove_command_port(&with_port).as_deref(), Some(line));
    }
    let with_port = insert_command_port("command = [\"vite\"] # a", 1).expect("inserted");
    assert_eq!(remove_command_port(&with_port).as_deref(), Some("command = [\"vite\"]"));
}
