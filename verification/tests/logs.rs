use std::collections::HashSet;

use agentseek_desktop::env::parse_env;
use agentseek_desktop::logs::{
    cleanup_is_due, compacts_after, default_log_page_size, log, log_cutoffs, log_page,
    migration_step, page_limit, prune_logs, push_pending_log, redact_log_text, surplus_entries,
    truncate_log_text, LogCutoffs, LogPage, LogQuery, MigrationStep, MAX_LOG_TEXT_BYTES, MAX_PENDING_LOG_ENTRIES, SECONDS_PER_DAY,
};
use agentseek_desktop::model::{AppStore, InstanceRecord, LogEntry};
use agentseek_desktop::repair::{
    is_deployment_completed_log, is_desktop_lifecycle_message, migrate_legacy_store,
    repair_lifecycle_log_categories, repair_log_sequences, repair_predeployment_restart_statuses,
    repair_restart_statuses,
};
use agentseek_desktop::runtime_logs::{
    compact_record, compact_runtime_log_record, entry_of_record, pass_record, plain_cursor,
    read_runtime_log_records, read_runtime_log_tail, resume, runtime_exception_summary,
    runtime_log_field, runtime_log_spool_paths, runtime_stream_level, strip_ansi_codes,
    text_last_lines, RuntimeLogCursor,
};

#[test]
fn runtime_tool_tracebacks_are_compacted_to_error_and_reason() {
    let mut suppress_traceback = false;
    assert_eq!(
        compact_runtime_log_record(
            "2026-07-22 17:52:26.376 | ERROR | bub.tools:wrapped:34 - tool.call.error name=web.fetch elapsed_time=153.81ms",
            &mut suppress_traceback,
        )
        .as_deref(),
        Some("Tool call failed: web.fetch (153.81ms)")
    );
    assert!(suppress_traceback);
    assert_eq!(
        compact_runtime_log_record(
            "Traceback (most recent call last):",
            &mut suppress_traceback
        ),
        None
    );
    assert_eq!(
        compact_runtime_log_record(
            "  File \"/tmp/site-packages/aiohttp/client.py\", line 701, in _request",
            &mut suppress_traceback,
        ),
        None
    );
    assert_eq!(
        compact_runtime_log_record(
            "aiohttp.client_exceptions.ClientResponseError: 403, message='Forbidden'",
            &mut suppress_traceback,
        )
        .as_deref(),
        Some("Failure reason: ClientResponseError: 403, message='Forbidden'")
    );
    assert!(!suppress_traceback);

    let mut timeout_traceback = true;
    assert_eq!(
        compact_runtime_log_record("TimeoutError", &mut timeout_traceback).as_deref(),
        Some("Failure reason: TimeoutError (request timeout)")
    );
    assert!(!timeout_traceback);
}

#[test]
fn oversized_log_text_is_truncated_on_a_utf8_boundary() {
    let value = "\u{2192}".repeat(MAX_LOG_TEXT_BYTES);
    let truncated = truncate_log_text(value);
    assert!(truncated.is_char_boundary(truncated.len()));
    assert!(truncated.contains("log content truncated"));
    assert!(truncated.len() < MAX_LOG_TEXT_BYTES + 100);
}

fn test_log(id: &str, instance_id: Option<&str>, category: &str, created_at: u64) -> LogEntry {
    LogEntry {
        id: id.to_string(),
        instance_id: instance_id.map(str::to_string),
        instance_name: instance_id.unwrap_or("AgentSeek").to_string(),
        category: category.to_string(),
        level: "info".to_string(),
        message: id.to_string(),
        command: None,
        created_at,
        sequence: created_at,
    }
}

#[test]
fn log_retention_preserves_active_lifecycle_and_expires_runtime_or_deleted_instances() {
    let now = 20 * SECONDS_PER_DAY;
    let active = InstanceRecord {
        id: "active".to_string(),
        name: "Active".to_string(),
        template_id: "bub/default".to_string(),
        status: "running".to_string(),
        deployment_mode: "local".to_string(),
        work_dir: "/tmp/active".to_string(),
        env_example_path: None,
        env_path: None,
        note: String::new(),
        created_at: 1,
        updated_at: 1,
        needs_doctor: false,
        pid: None,
        agent_url: None,
        ui_url: None,
        studio_url: None,
        project_name: None,
        lifecycle_version: None,
        service_endpoints: Vec::new(),
    };
    let old = now - 10 * SECONDS_PER_DAY;
    let recent = now - SECONDS_PER_DAY;
    let mut store = AppStore {
        instances: vec![active],
        vault: Vec::new(),
        logs: vec![
            test_log("active-lifecycle", Some("active"), "install", old),
            test_log("active-runtime", Some("active"), "runtime", old),
            test_log("deleted-lifecycle-old", Some("deleted"), "install", old),
            test_log(
                "deleted-lifecycle-recent",
                Some("deleted"),
                "install",
                recent,
            ),
            test_log("deleted-runtime-recent", Some("deleted"), "runtime", recent),
            test_log("platform-lifecycle", None, "config", old),
        ],
    };

    let removed = prune_logs(&mut store, 7, now);
    let remaining = store
        .logs
        .iter()
        .map(|log| log.id.as_str())
        .collect::<HashSet<_>>();

    assert!(removed.contains(&"active-runtime".to_string()));
    assert!(removed.contains(&"deleted-lifecycle-old".to_string()));
    assert!(remaining.contains("active-lifecycle"));
    assert!(remaining.contains("deleted-lifecycle-recent"));
    assert!(remaining.contains("deleted-runtime-recent"));
    assert!(remaining.contains("platform-lifecycle"));
}

#[test]
fn historical_desktop_operations_move_to_lifecycle_category() {
    let mut store = AppStore {
        instances: Vec::new(),
        vault: Vec::new(),
        logs: [
            "Instance stopped",
            "Instance associated processes stopped\nWorking directory: /tmp/demo",
            "Doctor passed; instance restarted",
            "Instance processes, working directory, and record deleted",
        ]
        .into_iter()
        .enumerate()
        .map(|(index, message)| LogEntry {
            id: format!("lifecycle-log-{index}"),
            instance_id: Some("instance".to_string()),
            instance_name: "Instance".to_string(),
            category: "runtime".to_string(),
            level: "success".to_string(),
            message: message.to_string(),
            command: None,
            created_at: index as u64,
            sequence: index as u64,
        })
        .collect(),
    };

    assert!(repair_lifecycle_log_categories(&mut store));
    assert!(store.logs.iter().all(|log| log.category == "install"));
}

#[test]
fn runtime_stream_level_does_not_treat_normal_stderr_as_an_error() {
    assert_eq!(
        runtime_stream_level("INFO: Application startup complete."),
        "info"
    );
    assert_eq!(runtime_stream_level("WARNING: retrying request"), "warning");
    assert_eq!(
        runtime_stream_level("RuntimeError: connection failed"),
        "error"
    );
    assert_eq!(
        runtime_stream_level("unable to get image 'quay.io/oceanbase/seekdb:latest': Cannot connect to the Docker daemon at unix:///Users/sunchong/.orbstack/run/docker.sock. Is the docker daemon running?"),
        "error"
    );
    assert_eq!(
        runtime_stream_level("Cannot connect to the Docker daemon at unix:///Users/sunchong/.orbstack/run/docker.sock. Is the docker daemon running?"),
        "error"
    );
}

#[test]
fn unfinished_instances_are_not_marked_for_restart() {
    let mut store = AppStore {
        instances: vec![InstanceRecord {
            id: "pending-instance".to_string(),
            name: "Pending".to_string(),
            template_id: "deepagents/research".to_string(),
            status: "needs-restart".to_string(),
            deployment_mode: "local".to_string(),
            work_dir: "/tmp/pending-instance".to_string(),
            env_example_path: Some("/tmp/pending-instance/.env.example".to_string()),
            env_path: Some("/tmp/pending-instance/.env".to_string()),
            note: String::new(),
            created_at: 1,
            updated_at: 1,
            needs_doctor: true,
            pid: None,
            agent_url: None,
            ui_url: None,
            studio_url: None,
            project_name: None,
            lifecycle_version: None,
            service_endpoints: Vec::new(),
        }],
        vault: Vec::new(),
        logs: Vec::new(),
    };

    assert!(repair_predeployment_restart_statuses(&mut store, 5));
    assert_eq!(store.instances[0].status, "ready-to-install");
    assert!(!store.instances[0].needs_doctor);
}

#[test]
fn runtime_log_spool_resumes_only_after_a_complete_line() {
    let (log_path, cursor_path) = runtime_log_spool_paths("/data", "../instance/demo", '/');
    let log_parent = std::path::Path::new(&log_path).parent();
    assert_eq!(log_parent, Some(std::path::Path::new("/data/runtime-logs")));
    assert_eq!(std::path::Path::new(&cursor_path).parent(), log_parent);

    let records = read_runtime_log_records("first\npartial", 0, false);
    assert_eq!(records, vec![("first".to_string(), 6)]);

    let resumed = read_runtime_log_records("partial tail\n", 6, false);
    assert_eq!(
        resumed,
        vec![(
            "partial tail".to_string(),
            "first\npartial tail\n".len() as u64
        )]
    );
    assert_eq!(
        read_runtime_log_records("rest", 6, true),
        vec![("rest".to_string(), 10)]
    );
}

#[test]
fn a_shortened_spool_is_read_from_its_start() {
    let mut cursor = RuntimeLogCursor { offset: 9, suppress_traceback: true };
    assert_eq!(resume(&mut cursor, 20), 9);
    assert!(cursor.suppress_traceback);
    assert_eq!(resume(&mut cursor, 5), 0);
    assert!(!cursor.suppress_traceback);
    assert_eq!(plain_cursor("12").offset, 12);
    assert_eq!(plain_cursor("x").offset, 0);
}

#[test]
fn records_are_stored_one_by_one() {
    let mut cursor = RuntimeLogCursor { offset: 0, suppress_traceback: false };
    assert_eq!(
        entry_of_record(&cursor, "WARNING: retrying"),
        Some(("warning", "WARNING: retrying".to_string()))
    );
    let failure = "tool.call.error name=web.fetch";
    assert_eq!(
        entry_of_record(&cursor, failure),
        Some(("error", "Tool call failed: web.fetch".to_string()))
    );
    pass_record(&mut cursor, failure, 31);
    assert_eq!((cursor.offset, cursor.suppress_traceback), (31, true));
    assert_eq!(entry_of_record(&cursor, "  File \"x\""), None);
}

#[test]
fn codes_and_fields_are_read_from_records() {
    assert_eq!(strip_ansi_codes("\u{1b}[31mred\u{1b}[0m"), "red");
    assert_eq!(runtime_log_field("name=a b=c", "b=").as_deref(), Some("c"));
    assert_eq!(runtime_log_field("name=a", "b="), None);
    assert_eq!(runtime_exception_summary("no error here"), None);
    assert_eq!(text_last_lines("a\nb\nc", 2), "b\nc");
    assert_eq!(read_runtime_log_tail("a\n\u{1b}[1mb\u{1b}[0m\n", 1), "b");
    let mut suppress = false;
    assert_eq!(
        compact_record("plain", "plain", &mut suppress).as_deref(),
        Some("plain")
    );
}

#[test]
fn secrets_are_redacted_from_the_log() {
    let vault = parse_env("API_KEY=hunter22\nPORT=5173\nSHORT_KEY=\n");
    assert_eq!(
        redact_log_text(&vault, "key hunter22 port 5173".to_string()),
        "key ****** port 5173"
    );
    let mut sequence: u64 = 4;
    let entry = log(
        &vault,
        &mut sequence,
        Some("i".to_string()),
        "demo",
        "install",
        "info",
        "hunter22".to_string(),
        Some("run hunter22".to_string()),
        7,
    );
    assert_eq!(sequence, 5);
    assert_eq!((entry.sequence, entry.created_at), (5, 7));
    assert_eq!(entry.message, "******");
    assert_eq!(entry.command.as_deref(), Some("run ******"));
    assert!(cleanup_is_due(200));
    assert!(!cleanup_is_due(201));
}

#[test]
fn pending_entries_are_limited() {
    let mut logs = Vec::new();
    for i in 0..(MAX_PENDING_LOG_ENTRIES as u64 + 5) {
        push_pending_log(&mut logs, test_log(&i.to_string(), None, "config", i));
    }
    assert_eq!(logs.len(), MAX_PENDING_LOG_ENTRIES);
    assert_eq!(logs[0].sequence, 5);
}

#[test]
fn pages_say_whether_more_follows() {
    let query = |limit: usize| LogQuery { before_sequence: None, after_sequence: None, limit };
    assert_eq!(page_limit(&query(10)), 10);
    assert!(page_limit(&query(0)) >= 1);
    assert!(default_log_page_size() > 0);
    let found = vec![
        test_log("a", None, "config", 9),
        test_log("b", None, "config", 8),
        test_log("c", None, "config", 7),
    ];
    let page = log_page(&query(2), found, 5);
    assert_eq!(page.entries.len(), 2);
    assert!(page.has_more);
    assert_eq!(page.group_count, 5);
    assert!(matches!(migration_step(&page), MigrationStep::AppendAndContinue(8)));
    let last = LogPage { has_more: false, ..page };
    assert!(matches!(migration_step(&last), MigrationStep::AppendLast));
    let empty = LogPage { entries: Vec::new(), has_more: false, group_count: 0 };
    assert!(matches!(migration_step(&empty), MigrationStep::Done));
}

#[test]
fn deployed_instances_keep_their_request() {
    let mut done = test_log("x", Some("1"), "install", 1);
    done.level = "success".to_string();
    done.message = "Instance deployment completed".to_string();
    assert!(is_deployment_completed_log(&done));
    assert!(is_desktop_lifecycle_message("INSTANCE STOPPED"));
    assert!(!is_desktop_lifecycle_message("hello"));
    let mut store = AppStore { instances: Vec::new(), vault: Vec::new(), logs: vec![done] };
    assert!(!repair_predeployment_restart_statuses(&mut store, 5));
    let mut instances = vec![];
    assert!(!repair_restart_statuses(&mut instances, &vec![], 5));
}

#[test]
fn entries_are_numbered_and_filed() {
    let mut store = AppStore {
        instances: Vec::new(),
        vault: Vec::new(),
        logs: vec![test_log("a", None, "config", 0), test_log("b", None, "config", 0)],
    };
    assert!(repair_log_sequences(&mut store));
    assert_ne!(store.logs[0].sequence, store.logs[1].sequence);
    assert!(!repair_log_sequences(&mut store));
    migrate_legacy_store(&mut store, 7, 10);
    assert_eq!(store.logs.len(), 2);
}

#[test]
fn cleanup_limits_follow_the_clock_and_the_count() {
    let now = 10_000_000;
    let cutoffs = log_cutoffs(3, now);
    assert_eq!(cutoffs.runtime, now - 3 * 86_400);
    assert_eq!(cutoffs.deleted, now - 7 * 86_400);
    assert_eq!(log_cutoffs(0, now).runtime, now - 86_400);
    assert_eq!(log_cutoffs(3, 5), LogCutoffs { runtime: 0, deleted: 0 });
    assert_eq!(surplus_entries(100_000), 0);
    assert_eq!(surplus_entries(100_001), 1_001);
    assert!(!compacts_after(9_999) && compacts_after(10_000));
}

#[test]
fn pages_hold_every_entry_once() {
    let stored: Vec<LogEntry> =
        [3, 1, 6, 2, 5, 4].iter().map(|n| test_log("a", None, "config", *n)).collect();
    let select = |before: Option<u64>, after: Option<u64>, count: usize| -> Vec<LogEntry> {
        let mut rows: Vec<LogEntry> = stored
            .iter()
            .filter(|l| before.is_none_or(|n| l.sequence < n))
            .filter(|l| after.is_none_or(|n| l.sequence > n))
            .cloned()
            .collect();
        rows.sort_by_key(|l| l.sequence);
        if after.is_none() {
            rows.reverse();
        }
        rows.truncate(count);
        rows
    };
    let numbers = |page: &LogPage| page.entries.iter().map(|l| l.sequence).collect::<Vec<_>>();
    for limit in 1..8 {
        let mut before = None;
        let mut seen = Vec::new();
        loop {
            let query = LogQuery { before_sequence: before, after_sequence: None, limit };
            let page = log_page(&query, select(before, None, page_limit(&query) + 1), 1);
            seen.extend(numbers(&page));
            match migration_step(&page) {
                MigrationStep::AppendAndContinue(n) => before = Some(n),
                _ => break,
            }
        }
        assert_eq!(seen, vec![6, 5, 4, 3, 2, 1]);
    }
    let newer = LogQuery { before_sequence: None, after_sequence: Some(4), limit: 10 };
    let page = log_page(&newer, select(None, Some(4), page_limit(&newer) + 1), 1);
    assert_eq!(numbers(&page), vec![5, 6]);
    assert!(!page.has_more);
}
