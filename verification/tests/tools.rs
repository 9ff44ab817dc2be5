use agentseek_desktop::install::{
    check_installation, installation_progress, installation_step, plan_installation,
    posix_runtime_install_script, powershell_quote, progress_of, runtime_install_task_dir,
    shell_quote, windows_runtime_install_script, windows_uv_installer, InstallStep,
};
use agentseek_desktop::patches::{
    open_cors, patch_agent_async_if_needed, patch_convert_models_if_needed,
    patch_dockerfile_apt_mirror_if_needed, patch_dockerfile_mirrors_if_needed,
    patch_langgraph_cors_if_needed,
};
use agentseek_desktop::tools::{
    check_schema_version, curl_program, current_cli_status, dependency_commands, display_name,
    exit_status_text, is_plain_name, latest_agentseek_version, linux_platform,
    login_shell_candidates, named_latest_version, parse_templates,
    required_runtime_dependencies, resolved_program, run_cli, run_dependency_command,
    template_words, validate_runtime_requirements, word_with_start, CliStatus, DependencyVersion,
    RuntimeRequirements, RuntimeSources, RuntimeVersions, ToolFindings,
};
use agentseek_desktop::versions::{
    agentseek_command_version, agentseek_update_available, check_package_version, command_version,
    meets_requirement, newest_with_major, numeric_version, parse_agentseek_package_version,
    parse_agentseek_version, parse_uv_tool_version, uv_tool_version, version_at_least,
};

fn version(minimum: &str, managed: &str) -> DependencyVersion {
    DependencyVersion { minimum: minimum.to_string(), managed: managed.to_string() }
}

fn requirements() -> RuntimeRequirements {
    RuntimeRequirements {
        schema_version: 1,
        versions: RuntimeVersions {
            uv: version("0.7.0", ""),
            node: version("24.0.0", "24.1.0"),
            npm: version("10.0.0", "11.0.0"),
            git: version("2.30.0", ""),
            agentseek: version("0.0.4", ""),
            nvm: version("", "0.40.3"),
        },
        sources: RuntimeSources {
            uv_installer: "https://astral.sh/uv/install.sh".to_string(),
            uv_installer_windows: Some("https://astral.sh/uv/install.ps1".to_string()),
            nvm_installer_template:
                "https://raw.githubusercontent.com/nvm-sh/nvm/v{version}/install.sh".to_string(),
            node_distribution: "https://nodejs.org/dist".to_string(),
            agentseek_package_metadata: "https://pypi.org/pypi/agentseek/json".to_string(),
        },
    }
}

#[test]
fn bundled_runtime_requirements_are_valid() {
    validate_runtime_requirements(&requirements()).expect("validate requirements");
}

#[test]
fn agentseek_updates_do_not_change_minimum_version_compatibility() {
    assert!(version_at_least("AGENTSEEK v0.0.4", &[0, 0, 4]));
    assert!(agentseek_update_available(
        "AGENTSEEK v0.0.4",
        Some("0.0.5"),
        true
    ));
    assert!(!agentseek_update_available(
        "AGENTSEEK v0.0.5",
        Some("0.0.5"),
        true
    ));
    assert!(!agentseek_update_available(
        "AGENTSEEK v0.0.6",
        Some("0.0.5"),
        true
    ));
    assert!(!agentseek_update_available("AGENTSEEK v0.0.4", None, true));
    assert!(!agentseek_update_available(
        "AGENTSEEK v0.0.4",
        Some("0.0.5"),
        false
    ));
}

#[test]
fn available_agentseek_update_is_included_in_the_install_plan() {
    let status = CliStatus {
        uv_compatible: true,
        node_compatible: true,
        npm_compatible: true,
        cli_compatible: true,
        cli_update_available: true,
        ..CliStatus::default()
    };

    assert_eq!(required_runtime_dependencies(&status), ["agentseek"]);
}

#[test]
fn dependency_versions_are_compared_across_command_formats() {
    assert!(version_at_least("uv 0.7.11", &[0, 7, 0]));
    assert!(version_at_least("v20.19.0", &[20, 19, 0]));
    assert!(version_at_least("git version 2.30.0", &[2, 30, 0]));
    assert!(!version_at_least("9.9.0", &[10, 0, 0]));
    assert!(!version_at_least("not installed", &[1, 0, 0]));
}

#[test]
fn agentseek_version_is_read_from_uv_tool_list() {
    let output = "agentseek v0.0.4\n- agentseek\n";
    assert_eq!(
        parse_uv_tool_version(output, "agentseek").as_deref(),
        Some("agentseek 0.0.4")
    );
}

#[test]
fn agentseek_version_is_read_after_banner() {
    let output = "    _                    _\n   / \\   __ _  ___ _ __\nAGENTSEEK v0.0.4\n";
    assert_eq!(
        parse_agentseek_version(output).as_deref(),
        Some("AGENTSEEK v0.0.4")
    );
}

#[test]
fn agentseek_latest_version_is_read_from_package_metadata() {
    assert_eq!(
        parse_agentseek_package_version(br#"{"info":{"version":"0.0.5"}}"#)
            .expect("parse package version"),
        "0.0.5"
    );
}

#[test]
fn template_output_is_parsed_into_rows() {
    let output = "\n  langchain (2 templates)\n  ─────\n    langchain/default\n      Default agent.\n    langchain/agentic-rag\n      Agentic RAG.\n";
    let templates = parse_templates(output);

    assert_eq!(templates.len(), 2);
    assert_eq!(templates[0].id, "langchain/default");
    assert_eq!(templates[1].description, "Agentic RAG.");
}

#[test]
fn managed_node_install_uses_private_nvm_and_bundled_npm() {
    let commands = dependency_commands(
        &requirements(),
        "macos",
        Some("/tmp/agentseek-runtime"),
        true,
        false,
    );
    let command = commands.node;

    assert!(command.contains("NVM_DIR=\"/tmp/agentseek-runtime/nvm\""));
    assert!(command.contains("nvm install 24"));
    assert!(command.contains("node --version && npm --version"));
    assert!(!command.contains("install -g npm"));
}

#[test]
fn runtime_install_scripts_use_platform_installers_without_mutating_system_uv() {
    let status = CliStatus {
        uv_available: true,
        uv_path: "/usr/local/bin/uv".to_string(),
        node_compatible: true,
        npm_compatible: true,
        cli_compatible: true,
        ..CliStatus::default()
    };
    let task_dir = "/tmp/agentseek-install-task";
    let runtime_root = "/tmp/agentseek-runtime";

    let posix = posix_runtime_install_script(&requirements(), &status, task_dir, runtime_root, '/');
    assert!(posix.contains("https://astral.sh/uv/install.sh"));
    assert!(posix.contains("$HOME/.local/bin/uv"));
    assert!(posix.contains("--output \"$installer_file.tmp\""));
    assert!(posix.contains("bash -n \"$installer_file.tmp\""));
    assert!(!posix.contains("| sh"));
    assert!(!posix.contains("uv self update"));
    assert!(!posix.contains("export METHOD=script"));
    assert!(!posix.contains(
        "Installation completed. AgentSeek Desktop will recheck automatically. Press Enter"
    ));
    assert!(!posix
        .chars()
        .any(|character| ('\u{4e00}'..='\u{9fff}').contains(&character)));

    let windows =
        windows_runtime_install_script(&requirements(), &status, task_dir, runtime_root, false, '/');
    assert!(windows.contains("https://astral.sh/uv/install.ps1"));
    assert!(windows.contains("Invoke-DownloadWithRetry"));
    assert!(!windows.contains("https://astral.sh/uv/install.sh"));
    assert!(!windows.contains("Read-Host"));
    assert!(!windows.contains("-NoExit"));
    assert!(!windows
        .chars()
        .any(|character| ('\u{4e00}'..='\u{9fff}').contains(&character)));
}

#[test]
fn requirements_are_checked_field_by_field() {
    assert!(validate_runtime_requirements(&requirements()).is_ok());
    assert!(check_schema_version(&requirements()).is_ok());
    let mut other = requirements();
    other.schema_version = 2;
    assert!(check_schema_version(&other).is_err());
    other.versions.node.managed = "latest".to_string();
    assert_eq!(
        validate_runtime_requirements(&other).expect_err("version"),
        "Runtime requirements manifest field versions.node.managed is not a valid version number"
    );
    let mut plain = requirements();
    plain.sources.node_distribution = "http://nodejs.org".to_string();
    assert_eq!(
        validate_runtime_requirements(&plain).expect_err("address"),
        "Runtime requirements manifest field sources.nodeDistribution must use HTTPS URL"
    );
    let mut template = requirements();
    template.sources.nvm_installer_template = "https://x".to_string();
    assert_eq!(
        validate_runtime_requirements(&template).expect_err("template"),
        "Runtime requirements manifest sources.nvmInstallerTemplate must contain {version}"
    );
}

#[test]
fn quoted_values_stand_for_themselves() {
    assert_eq!(shell_quote("it's"), "'it'\"'\"'s'");
    assert_eq!(powershell_quote("it's"), "'it''s'");
    let mut other = requirements();
    assert_eq!(windows_uv_installer(&other), "https://astral.sh/uv/install.ps1");
    other.sources.uv_installer_windows = None;
    assert_eq!(windows_uv_installer(&other), "https://astral.sh/uv/install.ps1");
}

#[test]
fn installations_are_planned_and_checked() {
    let ready = || CliStatus {
        uv_compatible: true,
        node_compatible: true,
        npm_compatible: true,
        cli_compatible: true,
        prerequisites_ready: true,
        cli_version: "AGENTSEEK v0.0.5".to_string(),
        ..CliStatus::default()
    };
    assert_eq!(
        plan_installation(&ready(), false).expect_err("ready"),
        "Current runtime environment already meets requirements"
    );
    assert_eq!(
        plan_installation(&ready(), true).expect_err("no update"),
        "AgentSeek CLI is already up to date"
    );
    let update = CliStatus {
        cli_update_available: true,
        cli_latest_version: "0.0.6".to_string(),
        ..ready()
    };
    let goal = plan_installation(&update, true).expect("update");
    assert_eq!(goal.dependencies, ["agentseek"]);
    assert_eq!(goal.upgrade_target.as_deref(), Some("0.0.6"));
    assert!(check_installation(&ready(), None).is_ok());
    assert!(check_installation(&ready(), Some("0.0.5")).is_ok());
    assert_eq!(
        check_installation(&ready(), Some(" 0.0.6 ")).expect_err("old"),
        "AgentSeek CLI upgrade did not reach target version 0.0.6; currently detected AGENTSEEK v0.0.5"
    );
    assert!(check_installation(&CliStatus::default(), None).is_err());
    assert_eq!(
        runtime_install_task_dir("/data", "12", '/').expect("task"),
        "/data/runtime-install/12"
    );
    assert_eq!(
        runtime_install_task_dir("/data", "../x", '/').expect_err("task"),
        "Invalid install task ID"
    );
    assert_eq!(
        installation_progress(Some(" {\"status\":\"failed\",\"stage\":\"node\"}\n")),
        ("failed".to_string(), "node".to_string())
    );
    assert_eq!(
        installation_progress(None),
        ("pending".to_string(), "pending".to_string())
    );
    assert_eq!(installation_step("success"), InstallStep::CheckTools);
    assert_eq!(installation_step("failed"), InstallStep::ReportFailure);
    assert_eq!(installation_step("running"), InstallStep::Wait);
}

#[test]
fn tools_are_judged_by_their_versions() {
    let found = ToolFindings {
        platform: "macos".to_string(),
        runtime_root: None,
        node_managed: false,
        uv_path: Some("/bin/uv".to_string()),
        uv_version: Some("uv 0.7.11".to_string()),
        cli_versions: vec![None, Some("AGENTSEEK v0.0.4".to_string())],
        cli_available: true,
        node_version: Some("v24.0.0".to_string()),
        npm_version: Some("9.9.0".to_string()),
        git_version: None,
        cli_latest_version: Some("0.0.5".to_string()),
    };
    let status = current_cli_status(&requirements(), &found);
    assert!(status.uv_compatible && status.node_compatible && status.cli_compatible);
    assert!(!status.npm_compatible && !status.git_compatible);
    assert!(!status.prerequisites_ready);
    assert!(status.cli_update_available && status.cli_latest_version_checked);
    assert_eq!(status.cli_version, "AGENTSEEK v0.0.4");
    assert_eq!(required_runtime_dependencies(&status), ["node/npm", "agentseek"]);
}

#[test]
fn outputs_of_tools_are_read() {
    assert_eq!(numeric_version("git version 2.30.1 (x)"), vec![2, 30, 1]);
    assert!(meets_requirement("v24.1", "24.0.9"));
    assert_eq!(command_version(true, "\n v1 \n", "").as_deref(), Some("v1"));
    assert_eq!(command_version(false, "v1", ""), None);
    assert_eq!(
        agentseek_command_version(true, "banner\nAGENTSEEK v0.0.4\n", "").as_deref(),
        Some("AGENTSEEK v0.0.4")
    );
    assert_eq!(
        uv_tool_version(true, "agentseek v0.0.4\n", "", "agentseek").as_deref(),
        Some("agentseek 0.0.4")
    );
    let names: Vec<String> = ["v24.1.0", "v24.10.0", "v9.0.0"].iter().map(|n| n.to_string()).collect();
    assert_eq!(newest_with_major(&names, "24.0.0").as_deref(), Some("v24.10.0"));
    assert!(parse_agentseek_package_version(b"{").is_err());
    assert!(parse_agentseek_package_version(b"{\"info\":{}}").is_err());
    assert_eq!(
        check_package_version(None, Some("0.0.5".to_string())).expect("version"),
        "0.0.5"
    );
    assert!(check_package_version(None, Some("soon".to_string())).is_err());
    assert!(check_package_version(Some("bad".to_string()), None).is_err());
}

#[test]
fn programs_and_platforms_are_named() {
    assert_eq!(curl_program(true), "/usr/bin/curl");
    assert_eq!(curl_program(false), "curl");
    assert!(is_plain_name("uv"));
    assert!(!is_plain_name("uv; rm"));
    assert_eq!(
        login_shell_candidates("banner\n/bin/uv\n\n"),
        ["/bin/uv", "banner"]
    );
    assert_eq!(resolved_program("uv", true, None, false).as_deref(), Some("uv"));
    assert_eq!(
        resolved_program("uv", false, Some("/bin/uv".to_string()), true).as_deref(),
        Some("/bin/uv")
    );
    assert_eq!(resolved_program("uv", false, Some("/bin/uv".to_string()), false), None);
    assert_eq!(linux_platform(Some("NAME=x\nID=\"Ubuntu\"\n")), "debian");
    assert_eq!(linux_platform(Some("ID=rocky\n")), "rhel");
    assert_eq!(linux_platform(None), "linux");
    assert_eq!(display_name("langchain/agentic-rag"), "Agentic Rag");
}

#[test]
fn commands_report_their_outcome() {
    let ended = run_cli("agentseek", &vec!["x".to_string()], Some(3), "a ", " b\n");
    assert_eq!((ended.code, ended.output.as_str(), ended.command.as_str()), (3, "a  b", "agentseek x"));
    assert_eq!(
        run_dependency_command("npm i", true, Some(0), " ok\n", "").expect("ok"),
        "ok"
    );
    assert_eq!(
        run_dependency_command("npm i", false, Some(1), "", "no\n").expect_err("no"),
        "no"
    );
    assert_eq!(
        run_dependency_command("npm i", false, Some(1), "", " ").expect_err("silent"),
        format!("Command execution failed: npm i (exit status: {})", exit_status_text(Some(1)))
    );
}

#[test]
fn files_of_templates_are_patched_once() {
    let models = "run([sys.executable, \"-m\", \"optimum.exporters.openvino\", x])";
    let patched = patch_convert_models_if_needed(models).expect("patched");
    assert_eq!(patched, "run([\"optimum-cli\", \"export\", \"openvino\", x])");
    assert_eq!(patch_convert_models_if_needed(&patched), None);
    assert_eq!(patch_agent_async_if_needed("print()"), None);
    let agent = "import x\nfrom langchain_oceanbase.vectorstores import OceanbaseVectorStore\n";
    let shimmed = patch_agent_async_if_needed(agent).expect("shimmed");
    assert!(shimmed.contains("_patched_agenerate"));
    assert!(shimmed.ends_with(
        "\nfrom langchain_oceanbase.vectorstores import OceanbaseVectorStore\n"
    ));
    assert_eq!(patch_agent_async_if_needed(&shimmed), None);
    assert_eq!(patch_dockerfile_apt_mirror_if_needed("FROM x\n"), None);
    assert_eq!(patch_dockerfile_mirrors_if_needed("FROM x\n"), None);
}

#[test]
fn any_origin_is_let_in() {
    assert_eq!(patch_langgraph_cors_if_needed("{\"dependencies\":[\".\"]}"), None);
    assert_eq!(patch_langgraph_cors_if_needed("{"), None);
    let edited = patch_langgraph_cors_if_needed(
        "{\"http\":{\"cors\":{\"allow_origins\":[\"http://localhost:1\"],\"max_age\":5}}}",
    )
    .expect("edited");
    assert!(edited.ends_with("}\n"));
    let document: serde_json::Value = serde_json::from_str(&edited).expect("document");
    let rules = document.pointer("/http/cors").expect("rules");
    assert!(rules.get("allow_origins").is_none());
    assert_eq!(
        rules.get("allow_origin_regex").and_then(serde_json::Value::as_str),
        Some("^https?://.*$")
    );
    assert_eq!(rules.get("max_age").and_then(serde_json::Value::as_u64), Some(5));
    assert_eq!(rules.pointer("/allow_methods/0").and_then(serde_json::Value::as_str), Some("*"));
    assert_eq!(rules.pointer("/allow_headers/0").and_then(serde_json::Value::as_str), Some("*"));
    assert_eq!(patch_langgraph_cors_if_needed("{\"http\":{\"cors\":[]}}"), None);
}

#[test]
fn names_are_put_together_from_words() {
    assert_eq!(template_words("a/b-c_d"), ["b", "c", "d"]);
    assert_eq!(word_with_start("stra\u{df}e", "S"), "Stra\u{df}e");
    assert_eq!(display_name("x/\u{df}a-b"), "SSa B");
    assert_eq!(
        progress_of(None, Some("node".to_string())),
        ("pending".to_string(), "node".to_string())
    );
}

#[test]
fn the_latest_version_is_named_or_fetched() {
    assert_eq!(named_latest_version(Some("1.2.3".to_string())), Some("1.2.3".to_string()));
    assert_eq!(named_latest_version(Some("soon".to_string())), None);
    assert_eq!(named_latest_version(None), None);
    let metadata = br#"{"info":{"version":" 0.0.9 "}}"#;
    assert_eq!(latest_agentseek_version(true, Some(0), metadata, ""), Ok("0.0.9".to_string()));
    assert_eq!(
        latest_agentseek_version(false, Some(22), metadata, "  "),
        Err("Failed to query AgentSeek latest version (curl exit status: 22)".to_string())
    );
    assert_eq!(
        latest_agentseek_version(false, None, metadata, "no route\n"),
        Err(
            "Failed to query AgentSeek latest version (curl exit status: terminated by system)：no route"
                .to_string()
        )
    );
}

#[test]
fn open_rules_take_the_place_of_named_origins() {
    let read = |text: &str| -> serde_json::Map<String, serde_json::Value> {
        serde_json::from_str(text).expect("an object")
    };
    let mut rules = read(
        "{\"allow_credentials\":true,\"allow_methods\":[\"GET\"],\"allow_origins\":[\"http://localhost:5175\"],\"max_age\":5}",
    );
    open_cors(&mut rules);
    assert_eq!(
        rules,
        read(
            "{\"allow_credentials\":true,\"max_age\":5,\"allow_origin_regex\":\"^https?://.*$\",\"allow_methods\":[\"*\"],\"allow_headers\":[\"*\"]}"
        )
    );
    let open = rules.clone();
    open_cors(&mut rules);
    assert_eq!(rules, open);
    let mut none = serde_json::Map::new();
    open_cors(&mut none);
    assert_eq!(none.len(), 3);
    assert_eq!(none["allow_origin_regex"].to_string(), "\"^https?://.*$\"");
    assert_eq!(none["allow_methods"].to_string(), "[\"*\"]");
    assert_eq!(none["allow_headers"].to_string(), "[\"*\"]");
    let patched = patch_langgraph_cors_if_needed(
        "{\"graphs\":{},\"http\":{\"cors\":{\"allow_origins\":[\"a\"],\"max_age\":5}}}",
    )
    .expect("patched");
    assert_eq!(
        patched,
        "{\n  \"graphs\": {},\n  \"http\": {\n    \"cors\": {\n      \"allow_headers\": [\n        \"*\"\n      ],\n      \"allow_methods\": [\n        \"*\"\n      ],\n      \"allow_origin_regex\": \"^https?://.*$\",\n      \"max_age\": 5\n    }\n  }\n}\n"
    );
    assert_eq!(patch_langgraph_cors_if_needed(&patched), Some(patched));
}

#[test]
fn numbers_in_the_rules_are_read_once() {
    for digits in ["0.30000000000000004", "123456789.12345678901234567", "36893488147419103233"] {
        let content =
            format!("{{\"http\":{{\"cors\":{{\"max_age\":{digits}}}}},\"other\":{digits}}}");
        let patched = patch_langgraph_cors_if_needed(&content).expect("patched");
        let after: serde_json::Value = serde_json::from_str(&content).expect("a document");
        let value = after["other"].to_string();
        assert!(patched.contains(&format!("\"max_age\": {value}\n")));
        assert!(patched.contains(&format!("\"other\": {value}\n")));
    }
}

