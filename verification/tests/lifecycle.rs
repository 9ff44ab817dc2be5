use agentseek_desktop::env::parse_env;
use agentseek_desktop::lifecycle::{
    lifecycle_section_env_key, lifecycle_section_service, manifest_with_quoted_name,
    has_long_quote_run, name_line_with, replace_lifecycle_name_line, replace_lifecycle_url_line,
    replace_toml_string_line, synchronize_lifecycle_content,
    synchronize_lifecycle_project_name_content,
};
use agentseek_desktop::services::{service_display_name, service_env_port, service_kind};

#[test]
fn lifecycle_project_name_is_synchronized_without_changing_section_names() {
    let lifecycle = "version = 1\n\
template = \"deepagents/content-builder\"\n\
name = \"Content Builder DeepAgent\" # generated default\n\
[services.frontend]\n\
name = \"Frontend\"\n\
url = \"http://127.0.0.1:5174\"\n";

    let updated = synchronize_lifecycle_project_name_content(lifecycle, "demo2 \\\"draft\\\"");
    let parsed = updated.parse::<toml::Value>().expect("parse lifecycle");

    assert_eq!(
        parsed.get("name").and_then(toml::Value::as_str),
        Some("demo2 \\\"draft\\\"")
    );
    assert!(updated.contains("# generated default"));
    assert!(updated.contains("name = \"Frontend\""));
    assert!(updated.contains("http://127.0.0.1:5174"));
}

#[test]
fn lifecycle_services_expose_all_declared_urls() {
    let manifest: toml::Value = toml::from_str(
        "[services.app]\nurl = \"http://127.0.0.1:5173\"\n[services.gateway]\nurl = \"http://127.0.0.1:8088/agent\"\n[services.copilotkit]\nurl = \"http://127.0.0.1:4000/api/copilotkit\"\n",
    )
    .expect("parse lifecycle services");

    let services = manifest
        .get("services")
        .and_then(toml::Value::as_table)
        .expect("services");
    assert_eq!(services.len(), 3);
    assert_eq!(service_display_name("app"), "Frontend");
    assert_eq!(service_display_name("gateway"), "Agent / Gateway");
    assert_eq!(service_display_name("copilotkit"), "CopilotKit Runtime");
}

#[test]
fn sections_name_services_and_variables() {
    assert_eq!(
        lifecycle_section_service("[services.app]").as_deref(),
        Some("app")
    );
    assert_eq!(
        lifecycle_section_service("[ checks.\"gateway\" ]").as_deref(),
        Some("gateway")
    );
    assert_eq!(lifecycle_section_service("[env.PORT]"), None);
    assert_eq!(lifecycle_section_service("services.app"), None);
    assert_eq!(
        lifecycle_section_env_key("[env.CTX_SERVER_PORT]").as_deref(),
        Some("CTX_SERVER_PORT")
    );
    assert_eq!(lifecycle_section_env_key("[services.app]"), None);
}

#[test]
fn string_values_are_replaced_between_their_quotes() {
    let keys = vec!["default".to_string()];
    assert_eq!(
        replace_toml_string_line("default = '8089' # note\n", &keys, "57990"),
        "default = '57990' # note\n"
    );
    assert_eq!(
        replace_toml_string_line("required = true\n", &keys, "57990"),
        "required = true\n"
    );
}

#[test]
fn url_lines_take_a_port_unless_they_refer_to_a_variable() {
    assert_eq!(
        replace_lifecycle_url_line("url = \"http://127.0.0.1:2024/x\"\n", 54584),
        "url = \"http://127.0.0.1:54584/x\"\n"
    );
    assert_eq!(
        replace_lifecycle_url_line("target = \"http://[::1]\"\n", 1),
        "target = \"http://[::1]:1\"\n"
    );
    let referring = "url = \"http://127.0.0.1:${PORT}\"\n";
    assert_eq!(replace_lifecycle_url_line(referring, 54584), referring);
    assert_eq!(replace_lifecycle_url_line("name = \"x\"\n", 1), "name = \"x\"\n");
}

#[test]
fn the_name_keeps_its_surroundings() {
    assert_eq!(
        name_line_with("name =  \"a # b\"   # note\r\n", "\"c\""),
        "name =  \"c\"   # note\r\n"
    );
    assert_eq!(name_line_with("title = \"a\"\n", "\"c\""), "title = \"a\"\n");
    assert_eq!(
        replace_lifecycle_name_line("name = 'old'\n", "a \"b\""),
        "name = 'a \"b\"'\n"
    );
}

#[test]
fn only_the_first_root_name_is_set() {
    let content = "name = \"a\"\nname = \"b\"\n[services.x]\nname = \"c\"\n";
    assert_eq!(
        manifest_with_quoted_name(content, "\"z\""),
        "name = \"z\"\nname = \"b\"\n[services.x]\nname = \"c\"\n"
    );
    let unnamed = "[services.x]\nname = \"c\"\n";
    assert_eq!(manifest_with_quoted_name(unnamed, "\"z\""), unnamed);
}

#[test]
fn a_manifest_follows_its_variables() {
    let content = "version = 1\n[env.CTX_SERVER_PORT]\ndefault = \"8089\"\n[env.MYSQL_PORT]\ndefault = \"3306\"\n[services.ctx]\nurl = \"http://127.0.0.1:8089/ctx\"\n";
    let entries = parse_env("CTX_SERVER_PORT=57990\nMYSQL_PORT=4000\n");
    assert_eq!(
        synchronize_lifecycle_content(content, &entries),
        "version = 1\n[env.CTX_SERVER_PORT]\ndefault = \"57990\"\n[env.MYSQL_PORT]\ndefault = \"3306\"\n[services.ctx]\nurl = \"http://127.0.0.1:57990/ctx\"\n"
    );
}

#[test]
fn services_have_kinds_and_ports() {
    assert_eq!(service_kind("Frontend"), ("web", true));
    assert_eq!(service_kind("studio"), ("web", false));
    assert_eq!(service_kind("agent"), ("protocol", false));
    assert_eq!(service_kind("langgraph"), ("api", false));
    let entries = parse_env("GATEWAY_PORT=0\nBACKEND_PORT=7000\nFOO_PORT=8000\n");
    assert_eq!(service_env_port("gateway", &entries), Some(7000));
    assert_eq!(service_env_port("foo", &entries), Some(8000));
    assert_eq!(service_env_port("app", &entries), None);
}

#[test]
fn long_runs_of_quotes_are_told() {
    assert!(!has_long_quote_run(""));
    assert!(!has_long_quote_run(&"'".repeat(255)));
    assert!(has_long_quote_run(&"'".repeat(256)));
    assert!(has_long_quote_run(&format!("a{}b", "\"".repeat(300))));
    assert!(!has_long_quote_run(&"'\"".repeat(300)));
    assert!(!has_long_quote_run(&"a".repeat(300)));
    let name = "'".repeat(255);
    let updated = synchronize_lifecycle_project_name_content("name = \"a\"\n", &name);
    assert_eq!(updated, format!("name = \"{name}\"\n"));
}
