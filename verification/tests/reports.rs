use agentseek_desktop::install::{
    failure_reason, install_log_tail, terminal_commands, INSTALL_CHECKS, SHOWN_LOG_BYTES,
};
use agentseek_desktop::projects::FileWrite;
use agentseek_desktop::reports::{
    changed_retention, exported_variables, imported_variables, listed_templates, saved_variables,
    start_environment, synchronized_files,
};
use agentseek_desktop::storage::{seekdb_client_command, seekdb_environment_command};

fn texts(list: &[&str]) -> Vec<String> {
    list.iter().map(|text| text.to_string()).collect()
}

#[test]
fn reports_name_paths_and_counts() {
    assert_eq!(saved_variables("/w/.env", 3, 1), "Generated /w/.env (3 keys, synced 1 to vault)");
    assert_eq!(imported_variables(12, "/w/.env"), "Imported 12 variables from /w/.env");
    assert_eq!(
        exported_variables("/o", 4, 2, 1, "/s"),
        "Exported /o\nTotal variables: 4\nBackfilled from vault: 2\nStill missing: 1\nSource: /s"
    );
    assert_eq!(
        changed_retention(30, 0),
        "Runtime log retention set to 30 days; cleaned up 0 log entries"
    );
    assert_eq!(
        listed_templates("/bin/agentseek", None, "/tools", 11, "bub/default"),
        "agentseek CLI: /bin/agentseek\nagentseek version: \nuv tool dir: /tools\n--list-templates returned 11 templates\nbub/default"
    );
}

#[test]
fn reports_are_left_out_where_nothing_was_done() {
    assert_eq!(start_environment(""), None);
    assert_eq!(
        start_environment("A_PORT=1"),
        Some("Instance .env injected into startup process; addresses below override lifecycle default ports\nA_PORT=1".to_string())
    );
    assert_eq!(synchronized_files(true, &Vec::new()), None);
    let writes = vec![
        FileWrite { path: "/w/a".to_string(), content: String::new() },
        FileWrite { path: "/w/b".to_string(), content: String::new() },
    ];
    assert_eq!(
        synchronized_files(true, &writes),
        Some("Runtime configs updated based on instance .env before restart\n  /w/a\n  /w/b".to_string())
    );
    assert_eq!(
        synchronized_files(false, &writes),
        Some("Runtime configs updated based on instance .env\n  /w/a\n  /w/b".to_string())
    );
}

#[test]
fn seekdb_runtime_is_made_once() {
    assert_eq!(seekdb_environment_command(true, "/d"), None);
    assert_eq!(
        seekdb_environment_command(false, "/d"),
        Some(texts(&["venv", "/d", "--python", "3.12"]))
    );
    assert_eq!(seekdb_client_command(true, "/d/bin/python"), None);
    assert_eq!(
        seekdb_client_command(false, "/d/bin/python"),
        Some(texts(&["pip", "install", "--python", "/d/bin/python", "pyseekdb==1.4.0"]))
    );
}

#[test]
fn installation_shows_the_end_of_its_log() {
    assert_eq!(INSTALL_CHECKS, 3_600);
    assert_eq!(install_log_tail(10), 0);
    assert_eq!(install_log_tail(SHOWN_LOG_BYTES + 5), 5);
    assert_eq!(failure_reason("boom"), "boom");
    assert_eq!(
        failure_reason(""),
        "Terminal install script execution failed; please check terminal output"
    );
    let terminals = terminal_commands("/s");
    assert_eq!(terminals.len(), 3);
    assert_eq!(terminals[1], ("gnome-terminal".to_string(), texts(&["--", "bash", "/s"])));
    assert_eq!(terminals[2].0, "konsole");
}
