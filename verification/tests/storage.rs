use agentseek_desktop::env::EnvVariable;
use agentseek_desktop::json::{
    judge_response, read_response, response_number, response_text, response_truth,
};
use agentseek_desktop::model::{AppStore, LogEntry};
use agentseek_desktop::storage::{
    adopt_password, assign_startup_path, backups_to_remove, check_config, check_retention_days,
    complete_config, describe_storage, effective_storage, ensure_storage_configurable,
    ensure_storage_ready, is_same_target, normalize_storage_database, persisted_config,
    sanitized_store, setup_is_required, sqlite_database_path, sqlite_storage_directory,
    startup_config, startup_engine, startup_error, startup_logs, startup_sequence,
    startup_sqlite_path, startup_write, storage_is_ready, storage_not_initialized,
    storage_status_value, verify_storage_snapshot, ConfigFile, EngineChoice, PathFacts,
    StartupWrite, StorageConfig, StoreCounts, VerifyStep,
};

#[test]
fn default_storage_is_embedded_seekdb() {
    let config = StorageConfig::default();
    assert_eq!(config.mode, "seekdb_embedded");
    assert_eq!(config.database, "agentseek_desktop");
    assert!(!config.setup_completed);
}

#[test]
fn embedded_storage_database_name_is_fixed() {
    for mode in ["sqlite_embedded", "seekdb_embedded"] {
        let mut config = StorageConfig {
            mode: mode.to_string(),
            database: "custom_database".to_string(),
            ..StorageConfig::default()
        };
        normalize_storage_database(&mut config);
        assert_eq!(config.database, "agentseek_desktop");
    }

    let mut server = StorageConfig {
        mode: "seekdb_server".to_string(),
        database: "custom_database".to_string(),
        ..StorageConfig::default()
    };
    normalize_storage_database(&mut server);
    assert_eq!(server.database, "custom_database");

    server.database.clear();
    normalize_storage_database(&mut server);
    assert_eq!(server.database, "agentseek_desktop");
}

#[test]
fn sqlite_database_path_uses_the_selected_directory() {
    let app_data = "/tmp/agentseek-desktop";
    let default_config = StorageConfig::default();
    assert_eq!(
        sqlite_database_path(app_data, &default_config, '/'),
        "/tmp/agentseek-desktop/agentseek-desktop.sqlite3"
    );

    let custom_config = StorageConfig {
        path: "/tmp/custom-agentseek-data".to_string(),
        ..StorageConfig::default()
    };
    assert_eq!(
        sqlite_database_path(app_data, &custom_config, '/'),
        "/tmp/custom-agentseek-data/agentseek-desktop.sqlite3"
    );
}

fn sqlite(path: &str) -> StorageConfig {
    StorageConfig {
        mode: "sqlite_embedded".to_string(),
        path: path.to_string(),
        ..StorageConfig::default()
    }
}

fn server(host: &str) -> StorageConfig {
    StorageConfig {
        mode: "seekdb_server".to_string(),
        host: host.to_string(),
        ..StorageConfig::default()
    }
}

fn log_entry(sequence: u64) -> LogEntry {
    LogEntry {
        id: sequence.to_string(),
        instance_id: None,
        instance_name: String::new(),
        category: "config".to_string(),
        level: "info".to_string(),
        message: String::new(),
        command: None,
        created_at: 0,
        sequence,
    }
}

#[test]
fn storage_config_and_backups_exclude_secrets() {
    let config = StorageConfig {
        password: "database-secret".to_string(),
        ..StorageConfig::default()
    };
    assert_eq!(persisted_config(&config).password, "");
    assert_eq!(persisted_config(&config).mode, config.mode);

    let store = AppStore {
        instances: Vec::new(),
        vault: vec![EnvVariable {
            key: "API_KEY".to_string(),
            value: "vault-secret".to_string(),
            comment: String::new(),
            source: "vault".to_string(),
            modified: true,
        }],
        logs: Vec::new(),
    };
    let persisted = sanitized_store(&store);
    assert_eq!(persisted.vault[0].value, "");
    assert_eq!(persisted.vault[0].key, "API_KEY");
}

#[test]
fn fresh_start_does_not_create_a_sqlite_database() {
    let (config, error) = startup_config(ConfigFile::Missing);
    assert!(error.is_none());
    assert!(matches!(
        startup_engine(false, "/data", &config, '/'),
        EngineChoice::Pending
    ));
    assert!(setup_is_required(false, &config));
    assert!(!storage_is_ready(false, true, true, true, &config));
    assert!(ensure_storage_ready(false, None).is_err());
    assert!(ensure_storage_configurable(true, false, None).is_ok());
}

#[test]
fn unusable_configurations_are_replaced() {
    let (config, error) = startup_config(ConfigFile::Malformed("bad".to_string()));
    assert_eq!(config.mode, "seekdb_embedded");
    assert!(error.expect("malformed").contains("bad"));
    let (config, error) = startup_config(ConfigFile::Unreadable("denied".to_string()));
    assert_eq!(config.mode, "seekdb_embedded");
    assert!(error.expect("unreadable").contains("denied"));
    let (config, error) = startup_config(ConfigFile::Parsed(sqlite("/x")));
    assert_eq!((config.path.as_str(), error), ("/x", None));
}

#[test]
fn startup_paths_are_those_of_the_mode() {
    let facts = PathFacts {
        is_default_seekdb: false,
        default_seekdb_holds_sqlite: false,
        is_legacy_seekdb: false,
        legacy_seekdb_exists: false,
    };
    let mut config = sqlite("");
    assign_startup_path(&mut config, "/data", &facts, '/');
    assert_eq!(config.path, "/data");
    let mut config = StorageConfig::default();
    assign_startup_path(&mut config, "/data", &facts, '/');
    assert_eq!(config.path, "/data/seekdb");
    let mut kept = sqlite("/own");
    assign_startup_path(&mut kept, "/data", &facts, '/');
    assert_eq!(kept.path, "/own");
    assert_eq!(startup_sqlite_path("/data", &kept, '/'), "/own/agentseek-desktop.sqlite3");
    assert_eq!(startup_sqlite_path("/data", &config, '/'), "/data/agentseek-desktop.sqlite3");
    assert_eq!(sqlite_storage_directory("/data", &kept), "/own");
    assert!(matches!(
        startup_engine(true, "/data", &kept, '/'),
        EngineChoice::Sqlite(path) if path == "/own/agentseek-desktop.sqlite3"
    ));
    assert!(matches!(startup_engine(true, "/data", &config, '/'), EngineChoice::SeekDb));
}

#[test]
fn passwords_are_kept_apart() {
    let mut config = server("h");
    let mut kept = "old".to_string();
    assert!(!adopt_password(&mut config, &mut kept));
    assert_eq!(config.password, "old");
    config.password = "new".to_string();
    assert!(adopt_password(&mut config, &mut kept));
    assert_eq!(kept, "new");
}

#[test]
fn degraded_storage_is_reported() {
    let (mode, error) = effective_storage(&server("h"), Some("down".to_string()));
    assert_eq!(mode, "sqlite_embedded");
    assert_eq!(
        error.as_deref(),
        Some("Configured seekdb_server storage unavailable, degraded to embedded SQLite: down")
    );
    assert_eq!(effective_storage(&server("h"), None), ("seekdb_server".to_string(), None));
    assert!(storage_is_ready(true, true, true, false, &sqlite("/x")));
    assert!(!storage_is_ready(true, true, true, false, &server("h")));
    assert_eq!(storage_not_initialized(), "Desktop storage has not been initialized");
    assert_eq!(
        ensure_storage_ready(false, Some("x".to_string())).expect_err("not ready"),
        "x"
    );
    assert!(ensure_storage_configurable(false, false, None).is_err());
}

#[test]
fn a_start_writes_what_changed() {
    assert_eq!(startup_write(false, true, true), StartupWrite::Nothing);
    assert_eq!(startup_write(true, true, false), StartupWrite::Everything);
    assert_eq!(startup_write(true, false, true), StartupWrite::Core);
    assert_eq!(startup_write(true, false, false), StartupWrite::Cleanup);
    assert_eq!(startup_sequence(Some(9), &Vec::new()), 9);
    assert_eq!(startup_sequence(None, &vec![log_entry(3), log_entry(7)]), 7);
    let mut logs = vec![log_entry(1)];
    startup_logs(true, &mut logs);
    assert!(logs.is_empty());
    assert_eq!(startup_error(&Vec::new()), None);
    assert!(startup_error(&vec!["a".to_string(), "b".to_string()])
        .expect("errors")
        .contains("b"));
}

#[test]
fn wanted_configurations_are_completed_and_checked() {
    let current = StorageConfig { password: "p".to_string(), ..server("h") };
    let same = complete_config(&server("h"), &current, "/data", '/').expect("complete");
    assert_eq!(same.password, "p");
    assert!(same.setup_completed);
    let elsewhere = complete_config(&server("g"), &current, "/data", '/').expect("complete");
    assert_eq!(elsewhere.password, "");
    let embedded = complete_config(
        &StorageConfig { runtime_log_retention_days: 0, ..sqlite(" ") },
        &current,
        "/data",
        '/',
    )
    .expect("complete");
    assert_eq!(embedded.path, "/data");
    assert_eq!(embedded.runtime_log_retention_days, 7);
    let unknown = StorageConfig { mode: "paper".to_string(), ..StorageConfig::default() };
    assert_eq!(
        complete_config(&unknown, &current, "/data", '/').expect_err("mode"),
        "Unsupported desktop storage type"
    );
    assert!(check_config(&sqlite("/x"), true).is_ok());
    assert_eq!(
        check_config(&sqlite("x"), false).expect_err("relative"),
        "Embedded storage data directory must use an absolute path"
    );
    assert_eq!(
        check_config(&server(" "), false).expect_err("host"),
        "Server mode requires a host address"
    );
    assert!(check_retention_days(1).is_ok());
    assert!(check_retention_days(3_650).is_ok());
    assert!(check_retention_days(0).is_err());
    assert!(check_retention_days(3_651).is_err());
}

#[test]
fn targets_are_compared_by_what_their_mode_uses() {
    assert!(is_same_target(&sqlite("/x"), "sqlite_embedded", &sqlite("/x")));
    assert!(!is_same_target(&sqlite("/x"), "sqlite_embedded", &sqlite("/y")));
    assert!(!is_same_target(&server("h"), "sqlite_embedded", &server("h")));
    assert!(is_same_target(&server("h"), "seekdb_server", &server("h")));
}

#[test]
fn written_storage_is_read_back_five_times() {
    let counts = |logs: usize| StoreCounts { instances: 1, vault: 2, logs };
    assert!(matches!(
        verify_storage_snapshot(1, &counts(3), Ok(counts(3))),
        VerifyStep::Verified
    ));
    assert!(matches!(
        verify_storage_snapshot(1, &counts(3), Ok(counts(2))),
        VerifyStep::RetryAfter(250)
    ));
    assert!(matches!(
        verify_storage_snapshot(4, &counts(3), Err("x".to_string())),
        VerifyStep::RetryAfter(2_000)
    ));
    assert!(matches!(
        verify_storage_snapshot(5, &counts(3), Ok(counts(2))),
        VerifyStep::Failed(message) if message == "Target storage validation failed: Instances 1 -> 1, Vault 2 -> 2, Logs 3 -> 2"
    ));
}

#[test]
fn backups_beyond_five_are_removed() {
    let names: Vec<String> = (1..=7)
        .rev()
        .map(|i| format!("before-switch-{i}.json"))
        .chain(["before-switch-0.txt".to_string(), "other.json".to_string()])
        .collect();
    assert_eq!(
        backups_to_remove(&names),
        ["before-switch-1.json", "before-switch-2.json"]
    );
    assert!(backups_to_remove(&names[..3].to_vec()).is_empty());
}

#[test]
fn storage_is_described() {
    let config = StorageConfig { port: 2881, password: "p".to_string(), ..server("h") };
    let status =
        storage_status_value(&config, "seekdb_server", "/data", false, true, None, '/');
    assert!(status.password_configured);
    assert_eq!(status.default_seekdb_path, "/data/seekdb");
    assert_eq!(
        describe_storage("seekdb_server", &config, "/data", '/'),
        (
            "h:2881 / agentseek_desktop".to_string(),
            "SeekDB / OceanBase Server (desktop state only; isolated from template instances)"
                .to_string()
        )
    );
    assert_eq!(
        describe_storage("sqlite_embedded", &sqlite("/x"), "/data", '/').0,
        "/x/agentseek-desktop.sqlite3"
    );
}

#[test]
fn answers_of_the_storage_process_are_judged() {
    assert!(read_response("{\"ok\":true}\n", "failed").is_ok());
    assert_eq!(
        read_response("{\"ok\":false,\"error\":\"down\"}", "failed").expect_err("error"),
        "down"
    );
    assert_eq!(
        read_response("{\"ok\":false}", "failed").expect_err("otherwise"),
        "failed"
    );
    assert_eq!(
        read_response(" \n", "failed").expect_err("gone"),
        "SeekDB storage runtime exited unexpectedly"
    );
    assert!(read_response("{", "failed").is_err());
    assert!(judge_response(None, Some(true), None, "failed").is_ok());
    assert_eq!(
        judge_response(None, Some(false), Some("x".to_string()), "failed").expect_err("error"),
        "x"
    );
}

#[test]
fn answers_are_looked_up_by_place() {
    let line = "{\"ok\":true,\"count\":12,\"below\":-1,\"part\":1.5,\"done\":false,\"payload\":\"{}\"}\n";
    assert_eq!(response_number(line, "/count", "invalid"), Ok(12));
    for place in ["/below", "/part", "/done", "/missing"] {
        assert_eq!(response_number(line, place, "invalid"), Err("invalid".to_string()));
    }
    assert_eq!(response_number("{", "/count", "invalid"), Err("invalid".to_string()));
    assert_eq!(response_truth(line, "/ok", "invalid"), Ok(true));
    assert_eq!(response_truth(line, "/done", "invalid"), Ok(false));
    assert_eq!(response_truth(line, "/count", "invalid"), Err("invalid".to_string()));
    assert_eq!(response_text(line, "/payload").as_deref(), Some("{}"));
    assert_eq!(response_text(line, "/count"), None);
}
