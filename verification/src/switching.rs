//! The change of the storage, step by step.
use vstd::prelude::*;
use vstd::string::*;

use crate::storage::StorageConfig;
use crate::text::owned;

verus! {

/// One step of a change of the storage.
#[derive(Debug, PartialEq, Eq, Structural, Clone, Copy)]
pub enum SwitchStep {
    /// The records, without the values of the vault, go to a backup.
    Backup,
    /// The new engine is opened.
    Open,
    /// The instances and the vault are written to it.
    SaveCore,
    /// What its log held before is removed.
    ClearLogs,
    /// The log is copied to it, page by page.
    CopyLogs,
    /// It is read back.
    Verify,
    /// The entries that wait to be stored are written to it.
    AppendPending,
    /// It is read back once more.
    VerifyPending,
    SaveCredentials,
    SaveConfig,
    /// The application goes over to it.
    Publish,
}

/// The steps from the first to the last. The log is copied only from a storage that can be read to
/// another one.
pub open spec fn switch_steps(same_target: bool, previous_ready: bool) -> Seq<SwitchStep> {
    seq![SwitchStep::Backup, SwitchStep::Open, SwitchStep::SaveCore] + (if !same_target
        && previous_ready {
        seq![SwitchStep::ClearLogs, SwitchStep::CopyLogs]
    } else {
        seq![]
    }) + seq![
        SwitchStep::Verify,
        SwitchStep::AppendPending,
        SwitchStep::VerifyPending,
        SwitchStep::SaveCredentials,
        SwitchStep::SaveConfig,
        SwitchStep::Publish,
    ]
}

/// The step behind another, where that succeeded.
pub open spec fn switch_step_behind(
    step: SwitchStep,
    same_target: bool,
    previous_ready: bool,
) -> Option<SwitchStep> {
    match step {
        SwitchStep::Backup => Some(SwitchStep::Open),
        SwitchStep::Open => Some(SwitchStep::SaveCore),
        SwitchStep::SaveCore => Some(
            if !same_target && previous_ready {
                SwitchStep::ClearLogs
            } else {
                SwitchStep::Verify
            },
        ),
        SwitchStep::ClearLogs => Some(SwitchStep::CopyLogs),
        SwitchStep::CopyLogs => Some(SwitchStep::Verify),
        SwitchStep::Verify => Some(SwitchStep::AppendPending),
        SwitchStep::AppendPending => Some(SwitchStep::VerifyPending),
        SwitchStep::VerifyPending => Some(SwitchStep::SaveCredentials),
        SwitchStep::SaveCredentials => Some(SwitchStep::SaveConfig),
        SwitchStep::SaveConfig => Some(SwitchStep::Publish),
        SwitchStep::Publish => None,
    }
}

/// The step behind another, where that succeeded; none behind the last.
pub fn next_switch_step(step: SwitchStep, same_target: bool, previous_ready: bool) -> (next: Option<
    SwitchStep,
>)
    ensures
        next == switch_step_behind(step, same_target, previous_ready),
{
    match step {
        SwitchStep::Backup => Some(SwitchStep::Open),
        SwitchStep::Open => Some(SwitchStep::SaveCore),
        SwitchStep::SaveCore => Some(
            if !same_target && previous_ready {
                SwitchStep::ClearLogs
            } else {
                SwitchStep::Verify
            },
        ),
        SwitchStep::ClearLogs => Some(SwitchStep::CopyLogs),
        SwitchStep::CopyLogs => Some(SwitchStep::Verify),
        SwitchStep::Verify => Some(SwitchStep::AppendPending),
        SwitchStep::AppendPending => Some(SwitchStep::VerifyPending),
        SwitchStep::VerifyPending => Some(SwitchStep::SaveCredentials),
        SwitchStep::SaveCredentials => Some(SwitchStep::SaveConfig),
        SwitchStep::SaveConfig => Some(SwitchStep::Publish),
        SwitchStep::Publish => None,
    }
}

/// Why a change failed, by the step that did.
pub open spec fn switch_fault(step: SwitchStep, error: Seq<char>) -> Seq<char> {
    match step {
        SwitchStep::SaveCore => "Failed to write target storage instances and vault: "@ + error,
        SwitchStep::ClearLogs => "Failed to clean target storage old logs: "@ + error,
        SwitchStep::CopyLogs => "Failed to migrate log pagination: "@ + error,
        SwitchStep::VerifyPending => "Target storage validation failed during switch: "@ + error,
        _ => error,
    }
}

/// Why a change failed, by the step that did.
pub fn switch_error(step: SwitchStep, error: &str) -> (out: String)
    ensures
        out@ == switch_fault(step, error@),
{
    match step {
        SwitchStep::SaveCore => owned(
            "Failed to write target storage instances and vault: ",
        ).concat(error),
        SwitchStep::ClearLogs => owned("Failed to clean target storage old logs: ").concat(error),
        SwitchStep::CopyLogs => owned("Failed to migrate log pagination: ").concat(error),
        SwitchStep::VerifyPending => owned(
            "Target storage validation failed during switch: ",
        ).concat(error),
        _ => owned(error),
    }
}

/// What the application knows of its storage.
#[derive(Debug)]
pub struct StorageState {
    pub config: StorageConfig,
    pub effective_mode: String,
    pub error: Option<String>,
    pub ready: bool,
    pub setup_required: bool,
}

/// Nothing is written while the storage changes.
pub fn begin_switch(state: &mut StorageState) -> (previous_ready: bool)
    ensures
        previous_ready == old(state).ready,
        *final(state) == (StorageState { ready: false, ..*old(state) }),
{
    let previous_ready: bool = state.ready;
    state.ready = false;
    previous_ready
}

/// The application goes over to the new storage.
pub fn publish(state: &mut StorageState, config: &StorageConfig)
    ensures
        final(state).config@ == config@,
        final(state).effective_mode@ == config@.mode,
        final(state).error is None,
        final(state).ready,
        !final(state).setup_required,
{
    state.config = config.clone();
    state.effective_mode = config.mode.clone();
    state.error = None;
    state.ready = true;
    state.setup_required = false;
}

/// A change that failed leaves the storage as ready as it was.
pub fn abandon(state: &mut StorageState, previous_ready: bool)
    ensures
        *final(state) == (StorageState { ready: previous_ready, ..*old(state) }),
{
    state.ready = previous_ready;
}

// ---------------------------------------------------------------------------------------------
// Laws
// ---------------------------------------------------------------------------------------------
/// The steps follow each other from the backup to the change itself, which is the last.
pub proof fn law_switch_steps_follow_each_other(same_target: bool, previous_ready: bool)
    ensures
        switch_steps(same_target, previous_ready)[0] == SwitchStep::Backup,
        forall|i: int|
            0 <= i < switch_steps(same_target, previous_ready).len() - 1 ==> switch_step_behind(
                #[trigger] switch_steps(same_target, previous_ready)[i],
                same_target,
                previous_ready,
            ) == Some(switch_steps(same_target, previous_ready)[i + 1]),
        switch_steps(same_target, previous_ready).last() == SwitchStep::Publish,
{
}

/// The new storage is published only once the data, the credentials and the configuration are
/// written, and the data were read back.
pub proof fn law_storage_is_published_last(
    step: SwitchStep,
    same_target: bool,
    previous_ready: bool,
)
    ensures
        switch_step_behind(step, same_target, previous_ready) == Some(SwitchStep::Publish) ==> step
            == SwitchStep::SaveConfig,
        switch_step_behind(step, same_target, previous_ready) == Some(SwitchStep::SaveConfig)
            ==> step == SwitchStep::SaveCredentials,
        switch_step_behind(step, same_target, previous_ready) == Some(SwitchStep::SaveCredentials)
            ==> step == SwitchStep::VerifyPending,
        switch_step_behind(step, same_target, previous_ready) == Some(SwitchStep::VerifyPending)
            ==> step == SwitchStep::AppendPending,
        switch_step_behind(step, same_target, previous_ready) == Some(SwitchStep::AppendPending)
            ==> step == SwitchStep::Verify,
        switch_steps(same_target, previous_ready).contains(SwitchStep::SaveCore),
{
    let steps = switch_steps(same_target, previous_ready);
    assert(steps[2] == SwitchStep::SaveCore);
}

} // verus!
