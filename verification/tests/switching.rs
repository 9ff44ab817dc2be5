use agentseek_desktop::logs::{store_step, StoreStep};
use agentseek_desktop::storage::StorageConfig;
use agentseek_desktop::switching::{
    abandon, begin_switch, next_switch_step, publish, switch_error, StorageState, SwitchStep,
};

fn steps(same_target: bool, previous_ready: bool) -> Vec<SwitchStep> {
    let mut all = vec![SwitchStep::Backup];
    while let Some(next) =
        next_switch_step(all[all.len() - 1], same_target, previous_ready)
    {
        all.push(next);
    }
    all
}

fn state() -> StorageState {
    StorageState {
        config: StorageConfig::default(),
        effective_mode: "sqlite_embedded".to_string(),
        error: Some("down".to_string()),
        ready: true,
        setup_required: true,
    }
}

#[test]
fn storage_is_published_behind_every_write() {
    assert_eq!(
        steps(false, true),
        vec![
            SwitchStep::Backup,
            SwitchStep::Open,
            SwitchStep::SaveCore,
            SwitchStep::ClearLogs,
            SwitchStep::CopyLogs,
            SwitchStep::Verify,
            SwitchStep::AppendPending,
            SwitchStep::VerifyPending,
            SwitchStep::SaveCredentials,
            SwitchStep::SaveConfig,
            SwitchStep::Publish,
        ]
    );
    for (same_target, ready) in [(true, true), (true, false), (false, false)] {
        let all = steps(same_target, ready);
        assert_eq!(all.len(), 9);
        assert!(!all.contains(&SwitchStep::CopyLogs));
        assert_eq!(all[all.len() - 1], SwitchStep::Publish);
    }
}

#[test]
fn switch_errors_name_the_step() {
    let cases = [
        (SwitchStep::SaveCore, "Failed to write target storage instances and vault: x"),
        (SwitchStep::ClearLogs, "Failed to clean target storage old logs: x"),
        (SwitchStep::CopyLogs, "Failed to migrate log pagination: x"),
        (SwitchStep::VerifyPending, "Target storage validation failed during switch: x"),
        (SwitchStep::Open, "x"),
        (SwitchStep::SaveConfig, "x"),
    ];
    for (step, message) in cases {
        assert_eq!(switch_error(step, "x"), message);
    }
}

#[test]
fn failed_switch_leaves_the_storage_as_it_was() {
    let mut kept = state();
    let previous = begin_switch(&mut kept);
    assert!(previous && !kept.ready);
    abandon(&mut kept, previous);
    assert!(kept.ready && kept.setup_required);
    assert_eq!(kept.error, Some("down".to_string()));
    assert_eq!(kept.effective_mode, "sqlite_embedded");
}

#[test]
fn published_storage_is_ready() {
    let mut changed = state();
    begin_switch(&mut changed);
    let mut config = StorageConfig::default();
    config.mode = "seekdb_server".to_string();
    publish(&mut changed, &config);
    assert!(changed.ready && !changed.setup_required);
    assert_eq!(changed.error, None);
    assert_eq!(changed.effective_mode, "seekdb_server");
    assert_eq!(changed.config.mode, "seekdb_server");
}

#[test]
fn entries_are_stored_or_kept() {
    assert_eq!(store_step(true, false, true, 200), StoreStep::StoredAndCleanUp);
    assert_eq!(store_step(true, false, true, 201), StoreStep::Stored);
    assert_eq!(store_step(true, true, true, 200), StoreStep::Stored);
    assert_eq!(store_step(false, false, true, 200), StoreStep::AskAgain);
    assert_eq!(store_step(false, false, false, 200), StoreStep::Keep);
    assert_eq!(store_step(false, true, true, 200), StoreStep::Keep);
}
