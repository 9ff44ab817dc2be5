use agentseek_desktop::model::ServiceEndpoint;
use agentseek_desktop::processes::{
    check_docker, check_stopped, child_process_ids, docker_compose_check, docker_compose_file,
    find_file_recursive, listener_process_ids, listening_ports, process_executable, process_ids,
    remove_instance_work_dir, run_and_log, run_instance_cli, start_walk, stop_report,
    stopping_order, take_children, DockerStatus, PendingEntry, SearchStep, StoppedProcess,
    WorkDirFacts,
};
use agentseek_desktop::programs::{
    agentseek_candidate, agentseek_program, cli_parts, managed_node_bin, runtime_path,
    uv_candidates, uv_tool_bin_dir, SearchFacts,
};

fn texts(list: &[&str]) -> Vec<String> {
    list.iter().map(|t| t.to_string()).collect()
}

#[test]
fn numbers_of_processes_are_read_line_by_line() {
    assert_eq!(process_ids(" 12 \nx\n+7\n4294967296\n"), vec![12, 7]);
    assert_eq!(child_process_ids(true, "1\n2\n"), vec![1, 2]);
    assert!(child_process_ids(false, "1\n2\n").is_empty());
    assert_eq!(
        listener_process_ids(&texts(&["1\n2", "2\n3\n"])),
        vec![1, 2, 2, 3]
    );
}

#[test]
fn descendants_are_found_in_order() {
    let mut walk = start_walk(1);
    while !walk.pending.is_empty() {
        let children = match walk.pending[0] {
            1 => vec![2, 3],
            2 => vec![4],
            _ => Vec::new(),
        };
        take_children(&mut walk, &children);
    }
    assert_eq!(walk.found, vec![1, 2, 4, 3]);
    take_children(&mut walk, &vec![9]);
    assert_eq!(walk.found.len(), 4);
}

#[test]
fn processes_are_stopped_once_each() {
    assert_eq!(stopping_order(&vec![5, 1, 5, 3, 1]), vec![1, 3, 5]);
    assert!(stopping_order(&Vec::new()).is_empty());
    assert!(check_stopped(&Vec::new()).is_ok());
    assert_eq!(
        check_stopped(&vec![3, 5]).expect_err("running"),
        "Failed to stop the following processes: [3, 5]"
    );
    assert_eq!(
        stop_report("/w", &Vec::new()),
        "Instance associated processes stopped\nWorking directory: /w\nProcess count: 0\nDetails:\n  No running associated processes found"
    );
    let stopped = vec![
        StoppedProcess { pid: 3, executable: "node".to_string() },
        StoppedProcess { pid: 5, executable: "uv".to_string() },
    ];
    assert_eq!(
        stop_report("/w", &stopped),
        "Instance associated processes stopped\nWorking directory: /w\nProcess count: 2\nDetails:\n  PID 3  node\n  PID 5  uv"
    );
    assert_eq!(process_executable(true, " node \n"), "node");
    assert_eq!(process_executable(true, " \n"), "unknown process");
    assert_eq!(process_executable(false, "node"), "unknown process");
}

#[test]
fn ports_of_endpoints_are_listed_once() {
    let endpoint = |url: &str| ServiceEndpoint {
        name: String::new(),
        url: url.to_string(),
        kind: String::new(),
        primary: false,
    };
    let ports = listening_ports(&vec![
        endpoint("http://127.0.0.1:1/a"),
        endpoint("http://127.0.0.1:2"),
        endpoint("http://127.0.0.1:1/b"),
        endpoint("none"),
    ]);
    assert_eq!(ports.len(), 2);
    assert!(ports.contains(&1) && ports.contains(&2));
}

#[test]
fn commands_end_with_their_output() {
    let ended = run_instance_cli("agentseek", &texts(&["doctor", "--live"]), None, " a\n", "b ");
    assert_eq!((ended.code, ended.output.as_str()), (1, "a\nb"));
    assert_eq!(ended.command, "agentseek doctor --live");
    let done = run_and_log("agentseek info", Some(0), &texts(&["a"]), &texts(&["b"]), 3);
    assert_eq!(done.level, "success");
    assert_eq!(done.message, "Command completed: agentseek info (3 seconds)");
    assert_eq!(done.result.expect("done").output, "a\nb");
    let failed = run_and_log("agentseek info", Some(2), &texts(&["a"]), &Vec::new(), 3);
    assert_eq!(failed.level, "error");
    assert_eq!(failed.message, "Command failed: agentseek info (3 seconds)");
    assert_eq!(failed.result.expect_err("failed"), "a");
    let silent = run_and_log("agentseek info", None, &Vec::new(), &Vec::new(), 3);
    assert_eq!(
        silent.result.expect_err("silent"),
        "Command execution failed: agentseek info"
    );
}

#[test]
fn deleting_an_instance_removes_its_working_directory() {
    let facts = || WorkDirFacts {
        exists: true,
        is_link: false,
        is_dir: true,
        canonical: "/home/u/w".to_string(),
        has_parent: true,
        home: Some("/home/u".to_string()),
        current: Some("/app".to_string()),
    };
    assert_eq!(remove_instance_work_dir(&facts()), Ok(true));
    assert_eq!(
        remove_instance_work_dir(&WorkDirFacts { exists: false, is_dir: false, ..facts() }),
        Ok(false)
    );
    assert_eq!(
        remove_instance_work_dir(&WorkDirFacts { is_link: true, ..facts() }).expect_err("link"),
        "Refusing to delete symlink instance working directory"
    );
    assert_eq!(
        remove_instance_work_dir(&WorkDirFacts { is_dir: false, ..facts() }).expect_err("file"),
        "Instance working directory is not a directory"
    );
    assert_eq!(
        remove_instance_work_dir(&WorkDirFacts { has_parent: false, ..facts() })
            .expect_err("root"),
        "Refusing to delete filesystem root"
    );
    assert_eq!(
        remove_instance_work_dir(&WorkDirFacts { canonical: "/home/u".to_string(), ..facts() })
            .expect_err("home"),
        "Refusing to delete user home directory"
    );
    assert_eq!(
        remove_instance_work_dir(&WorkDirFacts { canonical: "/app".to_string(), ..facts() })
            .expect_err("current"),
        "Refusing to delete AgentSeek Desktop current working directory"
    );
}

#[test]
fn docker_is_needed_by_projects_with_a_compose_file() {
    assert_eq!(
        check_docker(false, true, true),
        DockerStatus { cli_available: false, compose_v2_available: false, daemon_running: false }
    );
    let status = check_docker(true, true, false);
    assert_eq!(
        docker_compose_file(&texts(&["compose.yaml", "docker-compose.yaml"])).as_deref(),
        Some("docker-compose.yaml")
    );
    assert_eq!(docker_compose_file(&texts(&["README.md"])), None);
    assert_eq!(docker_compose_check(None, status), None);
    assert_eq!(
        docker_compose_check(Some("compose.yml".to_string()), check_docker(true, true, true)),
        None
    );
    assert_eq!(
        docker_compose_check(Some("compose.yml".to_string()), check_docker(false, true, true))
            .as_deref(),
        Some("Project contains compose.yml, butDocker CLI not installed\u{3001}Docker Compose V2 not installed\u{3001}Docker not started. Please install and start Docker before continuing.")
    );
}

#[test]
fn files_are_looked_for_depth_first() {
    let entry = |path: &str, name: &str, is_dir: bool, depth: usize| PendingEntry {
        path: path.to_string(),
        name: Some(name.to_string()),
        is_file: !is_dir,
        is_dir,
        depth,
    };
    let entries = vec![
        entry("/w/a", "a", false, 1),
        entry("/w/b", "b", true, 0),
        entry("/w/c", "c", true, 1),
        entry("/w/x", "x", false, 1),
    ];
    match find_file_recursive(&entries, "x") {
        (SearchStep::Read(path, depth), next) => {
            assert_eq!((path.as_str(), depth, next), ("/w/c", 0, 3));
        }
        other => panic!("unexpected {other:?}"),
    }
    match find_file_recursive(&entries, "a") {
        (SearchStep::Found(path), next) => assert_eq!((path.as_str(), next), ("/w/a", 1)),
        other => panic!("unexpected {other:?}"),
    }
    assert!(matches!(
        find_file_recursive(&Vec::new(), "x"),
        (SearchStep::NotFound, 0)
    ));
}

#[test]
fn programs_are_looked_for_in_order() {
    let facts = SearchFacts {
        separator: '/',
        runtime_root: Some("/rt".to_string()),
        node_versions: texts(&["v20.1.0", "v24.0.0", "v9.9.9"]),
        node_bin: Some("/node/bin".to_string()),
        home: Some("/home/u".to_string()),
        existing: texts(&["/x"]),
    };
    let path = runtime_path(&facts);
    assert_eq!(path[0], "/rt/nvm/versions/node/v24.0.0/bin");
    assert_eq!(path[1], "/rt/nvm/versions/node/v20.1.0/bin");
    assert_eq!(path[2], "/rt/nvm/versions/node/v9.9.9/bin");
    assert_eq!(path[3], "/node/bin");
    assert_eq!(path[4], "/home/u/.local/bin");
    assert_eq!(path[7], "/home/u/.pyenv/bin");
    assert_eq!(path[8], "/opt/homebrew/bin");
    assert_eq!(path[path.len() - 1], "/x");
    assert_eq!(path.len(), 14);
}

#[test]
fn newest_versions_lead() {
    let facts = SearchFacts {
        separator: '\\',
        runtime_root: Some("C:\\rt".to_string()),
        node_versions: texts(&["v9.9.9", "v24.0.0", "v24.1.0", "24.0.0", "x", "v24"]),
        node_bin: None,
        home: None,
        existing: Vec::new(),
    };
    let path = runtime_path(&facts);
    let names = ["v24.1.0", "24.0.0", "v24.0.0", "v24", "v9.9.9", "x"];
    for (i, name) in names.iter().enumerate() {
        assert_eq!(path[i], format!("C:\\rt\\nvm/versions/node\\{name}\\bin"));
    }
}

#[test]
fn the_managed_node_is_the_wanted_or_the_newest() {
    let names = texts(&["v24.1.0", "v24.9.0", "v20.0.0"]);
    assert_eq!(
        managed_node_bin("/rt", "24.2.0", None, true, &names),
        "/rt/nvm/versions/node/v24.2.0/bin"
    );
    assert_eq!(
        managed_node_bin("/rt", "24.2.0", None, false, &names),
        "/rt/nvm/versions/node/v24.9.0/bin"
    );
    assert_eq!(
        managed_node_bin("/rt", "22.0.0", None, false, &names),
        "/rt/nvm/versions/node/v22.0.0/bin"
    );
    assert_eq!(
        managed_node_bin("/rt", "24.2.0", Some(false), false, &names),
        "/rt\\node-v24.2.0-win-x64"
    );
}

#[test]
fn tools_are_found_where_uv_puts_them() {
    assert_eq!(uv_candidates(None, '/')[0], "/opt/homebrew/bin/uv");
    assert_eq!(uv_candidates(Some("/h".to_string()), '/')[0], "/h/.local/bin/uv");
    assert_eq!(uv_candidates(Some("/h".to_string()), '/').len(), 6);
    assert_eq!(uv_tool_bin_dir(Some(" /b\n".to_string())), "/b");
    assert_eq!(uv_tool_bin_dir(None), "");
    assert_eq!(agentseek_candidate(true, "/b\n", false).as_deref(), Some("/b/agentseek"));
    assert_eq!(agentseek_candidate(true, "/b\n", true).as_deref(), Some("/b\\agentseek.exe"));
    assert_eq!(agentseek_candidate(true, " \n", false), None);
    assert_eq!(agentseek_candidate(false, "/b", false), None);
    let text = |t: &str| Some(t.to_string());
    assert_eq!(agentseek_program(text("a"), text("b"), text("c")), "a");
    assert_eq!(agentseek_program(None, text("b"), text("c")), "b");
    assert_eq!(agentseek_program(None, None, text("c")), "c");
    assert_eq!(agentseek_program(None, None, None), "agentseek");
    let none: Vec<String> = Vec::new();
    assert_eq!(cli_parts(text("a"), text("r"), text("b"), text("c")), ("a".to_string(), none.clone()));
    assert_eq!(
        cli_parts(None, text("/repo"), text("b"), text("c")),
        (
            "uv".to_string(),
            vec![
                "run".to_string(),
                "--project".to_string(),
                "/repo".to_string(),
                "agentseek".to_string(),
            ]
        )
    );
    assert_eq!(cli_parts(None, None, text("b"), text("c")), ("b".to_string(), none.clone()));
    assert_eq!(cli_parts(None, None, None, text("c")), ("c".to_string(), none));
    assert_eq!(
        cli_parts(None, None, None, None),
        ("uvx".to_string(), vec!["agentseek".to_string()])
    );
}
