//! How an instance is installed, restarted, stopped and deleted.
//!
//! The steps and what they make of the record of an instance are decided here. Whoever runs a step
//! says how it ended and is told the next one.
use vstd::prelude::*;
use vstd::string::*;

use crate::model::{InstanceRecord, InstanceRecordView};
use crate::number::{decimal, decimal_text};
use crate::runtime_logs::{last_lines, text_last_lines};
use crate::search::{contains, text_has};
use crate::text::{list_of_one, list_of_two, opt_text, owned, same, texts};
use crate::unicode::{to_unicode_lower, unicode_lower};

verus! {

// ---------------------------------------------------------------------------------------------
// Steps
// ---------------------------------------------------------------------------------------------
/// What is done with an instance.
#[derive(Debug, PartialEq, Eq, Structural, Clone, Copy)]
pub enum Flow {
    Install,
    Restart,
}

/// One step of it.
#[derive(Debug, PartialEq, Eq, Structural, Clone, Copy)]
pub enum Step {
    /// Docker is there if the project needs it.
    CheckDocker,
    /// The ports of the instance are settled once more.
    RecheckPorts,
    /// The files of the instance follow its variables.
    SyncConfigs,
    /// The record says what is being done.
    Enter,
    ListTasks,
    BackendTask,
    FrontendTask,
    Info,
    Doctor,
    /// Docker is still there.
    CheckDockerAgain,
    DryRun,
    /// The processes of the instance are stopped.
    Stop,
    /// The instance is started.
    Spawn,
    /// The record says that it was.
    Started,
    /// The health checks of the instance pass.
    AwaitReady,
    /// The record says that the instance runs.
    Running,
}

/// The tasks that an instance declares.
#[derive(Debug, PartialEq, Eq, Structural, Clone, Copy)]
pub struct ListedTasks {
    pub backend: bool,
    pub frontend: bool,
}

/// The steps from the first to the last.
pub open spec fn steps_of(flow: Flow, tasks: ListedTasks) -> Seq<Step> {
    match flow {
        Flow::Install => seq![Step::CheckDocker, Step::RecheckPorts, Step::Enter, Step::ListTasks] + (
        if tasks.backend {
            seq![Step::BackendTask]
        } else {
            seq![]
        }) + (if tasks.frontend {
            seq![Step::FrontendTask]
        } else {
            seq![]
        }) + seq![
            Step::Info,
            Step::Doctor,
            Step::CheckDockerAgain,
            Step::DryRun,
            Step::Spawn,
            Step::Started,
            Step::AwaitReady,
            Step::Running,
        ],
        Flow::Restart => seq![
            Step::CheckDocker,
            Step::SyncConfigs,
            Step::Enter,
            Step::Doctor,
            Step::CheckDockerAgain,
            Step::Stop,
            Step::Spawn,
            Step::Started,
            Step::AwaitReady,
            Step::Running,
        ],
    }
}

/// The step behind another, where that succeeded.
pub open spec fn step_behind(flow: Flow, step: Step, tasks: ListedTasks) -> Option<Step> {
    match step {
        Step::CheckDocker => Some(
            if flow is Install {
                Step::RecheckPorts
            } else {
                Step::SyncConfigs
            },
        ),
        Step::RecheckPorts => Some(Step::Enter),
        Step::SyncConfigs => Some(Step::Enter),
        Step::Enter => Some(
            if flow is Install {
                Step::ListTasks
            } else {
                Step::Doctor
            },
        ),
        Step::ListTasks => Some(
            if tasks.backend {
                Step::BackendTask
            } else if tasks.frontend {
                Step::FrontendTask
            } else {
                Step::Info
            },
        ),
        Step::BackendTask => Some(
            if tasks.frontend {
                Step::FrontendTask
            } else {
                Step::Info
            },
        ),
        Step::FrontendTask => Some(Step::Info),
        Step::Info => Some(Step::Doctor),
        Step::Doctor => Some(Step::CheckDockerAgain),
        Step::CheckDockerAgain => Some(
            if flow is Install {
                Step::DryRun
            } else {
                Step::Stop
            },
        ),
        Step::DryRun => Some(Step::Spawn),
        Step::Stop => Some(Step::Spawn),
        Step::Spawn => Some(Step::Started),
        Step::Started => Some(Step::AwaitReady),
        Step::AwaitReady => Some(Step::Running),
        Step::Running => None,
    }
}

/// The step behind another, where that succeeded; none behind the last.
pub fn next_step(flow: Flow, step: Step, tasks: ListedTasks) -> (next: Option<Step>)
    ensures
        next == step_behind(flow, step, tasks),
{
    match step {
        Step::CheckDocker => match flow {
            Flow::Install => Some(Step::RecheckPorts),
            Flow::Restart => Some(Step::SyncConfigs),
        },
        Step::RecheckPorts => Some(Step::Enter),
        Step::SyncConfigs => Some(Step::Enter),
        Step::Enter => match flow {
            Flow::Install => Some(Step::ListTasks),
            Flow::Restart => Some(Step::Doctor),
        },
        Step::ListTasks => if tasks.backend {
            Some(Step::BackendTask)
        } else if tasks.frontend {
            Some(Step::FrontendTask)
        } else {
            Some(Step::Info)
        },
        Step::BackendTask => if tasks.frontend {
            Some(Step::FrontendTask)
        } else {
            Some(Step::Info)
        },
        Step::FrontendTask => Some(Step::Info),
        Step::Info => Some(Step::Doctor),
        Step::Doctor => Some(Step::CheckDockerAgain),
        Step::CheckDockerAgain => match flow {
            Flow::Install => Some(Step::DryRun),
            Flow::Restart => Some(Step::Stop),
        },
        Step::DryRun => Some(Step::Spawn),
        Step::Stop => Some(Step::Spawn),
        Step::Spawn => Some(Step::Started),
        Step::Started => Some(Step::AwaitReady),
        Step::AwaitReady => Some(Step::Running),
        Step::Running => None,
    }
}

/// Going from each step to the one behind it goes through the steps in their order, once each, and
/// ends behind the last.
pub proof fn law_steps_follow_each_other(flow: Flow, tasks: ListedTasks)
    ensures
        steps_of(flow, tasks)[0] == Step::CheckDocker,
        steps_of(flow, tasks).last() == Step::Running,
        step_behind(flow, Step::Running, tasks) is None,
        steps_of(flow, tasks).no_duplicates(),
        forall|i: int|
            0 <= i < steps_of(flow, tasks).len() - 1 ==> step_behind(
                flow,
                #[trigger] steps_of(flow, tasks)[i],
                tasks,
            ) == Some(steps_of(flow, tasks)[i + 1]),
{
}

/// An instance is started only behind its checks, and is said to run only once its health checks
/// pass.
pub proof fn law_checks_come_first(flow: Flow, step: Step, tasks: ListedTasks)
    ensures
        step_behind(flow, step, tasks) == Some(Step::Running) ==> step == Step::AwaitReady,
        step_behind(flow, step, tasks) == Some(Step::Spawn) ==> step == Step::DryRun || step
            == Step::Stop,
        step_behind(flow, step, tasks) == Some(Step::DryRun) ==> step == Step::CheckDockerAgain,
        step_behind(flow, step, tasks) == Some(Step::Stop) ==> step == Step::CheckDockerAgain,
        step_behind(flow, step, tasks) == Some(Step::CheckDockerAgain) ==> step == Step::Doctor,
{
}

/// The first step. An instance is installed only once its variables are saved.
pub fn first_step(flow: Flow, instance: &InstanceRecord) -> (r: Result<Step, String>)
    ensures
        match r {
            Ok(step) => step == Step::CheckDocker && (flow is Install ==> instance@.env_path is Some),
            Err(message) => flow is Install && instance@.env_path is None && message@
                == "Please generate instance .env first"@,
        },
{
    match flow {
        Flow::Install => {
            if instance.env_path.is_none() {
                return Err(owned("Please generate instance .env first"));
            }
        },
        Flow::Restart => {},
    }
    Ok(Step::CheckDocker)
}

/// The tasks that the output of `agentseek task --list` names. `lower` is the output in lower case.
pub fn tasks_in(lower: &str) -> (tasks: ListedTasks)
    ensures
        tasks.backend == contains(lower@, "backend"@),
        tasks.frontend == contains(lower@, "frontend"@),
{
    ListedTasks { backend: text_has(lower, "backend"), frontend: text_has(lower, "frontend") }
}

/// The tasks that the output of `agentseek task --list` names.
pub fn listed_tasks(output: &str) -> (tasks: ListedTasks)
    ensures
        tasks.backend == contains(unicode_lower(output@), "backend"@),
        tasks.frontend == contains(unicode_lower(output@), "frontend"@),
{
    let lower: String = to_unicode_lower(output);
    tasks_in(lower.as_str())
}

/// The arguments of the `agentseek` command of a step.
pub open spec fn command_of(step: Step) -> Option<Seq<Seq<char>>> {
    match step {
        Step::ListTasks => Some(seq!["task"@, "--list"@]),
        Step::BackendTask => Some(seq!["task"@, "backend"@]),
        Step::FrontendTask => Some(seq!["task"@, "frontend"@]),
        Step::Info => Some(seq!["info"@]),
        Step::Doctor => Some(seq!["doctor"@]),
        Step::DryRun => Some(seq!["dev"@, "--dry-run"@]),
        _ => None,
    }
}

/// The arguments of the `agentseek` command of a step; none where it is another kind of step.
pub fn step_command(step: Step) -> (r: Option<Vec<String>>)
    ensures
        match r {
            Some(args) => command_of(step) == Some(texts(args@)),
            None => command_of(step) is None,
        },
{
    match step {
        Step::ListTasks => Some(list_of_two("task", "--list")),
        Step::BackendTask => Some(list_of_two("task", "backend")),
        Step::FrontendTask => Some(list_of_two("task", "frontend")),
        Step::Info => Some(list_of_one("info")),
        Step::Doctor => Some(list_of_one("doctor")),
        Step::DryRun => Some(list_of_two("dev", "--dry-run")),
        _ => None,
    }
}

// ---------------------------------------------------------------------------------------------
// Stages that are shown while an instance is installed
// ---------------------------------------------------------------------------------------------
/// The stage that is shown from a step on.
pub open spec fn stage_from(flow: Flow, step: Step) -> Option<Seq<char>> {
    if flow is Restart {
        None
    } else {
        match step {
            Step::CheckDocker => Some("tasks"@),
            Step::ListTasks => Some("tasks"@),
            Step::Doctor => Some("doctor"@),
            Step::DryRun => Some("dry-run"@),
            Step::Spawn => Some("starting"@),
            _ => None,
        }
    }
}

/// The stage that is shown from a step on; none where it stays.
pub fn step_stage(flow: Flow, step: Step) -> (r: Option<String>)
    ensures
        opt_text(r) == stage_from(flow, step),
{
    match flow {
        Flow::Restart => None,
        Flow::Install => match step {
            Step::CheckDocker => Some(owned("tasks")),
            Step::ListTasks => Some(owned("tasks")),
            Step::Doctor => Some(owned("doctor")),
            Step::DryRun => Some(owned("dry-run")),
            Step::Spawn => Some(owned("starting")),
            _ => None,
        },
    }
}

/// The stages that are known: ids of instances and stages.
pub open spec fn stage_views(list: Seq<(String, String)>) -> Seq<(Seq<char>, Seq<char>)> {
    list.map_values(|s: (String, String)| (s.0@, s.1@))
}

/// The stage of an instance.
pub open spec fn stage_of(list: Seq<(Seq<char>, Seq<char>)>, id: Seq<char>, i: int) -> Option<
    Seq<char>,
>
    decreases list.len() - i,
{
    if i < 0 || i >= list.len() {
        None
    } else if list[i].0 == id {
        Some(list[i].1)
    } else {
        stage_of(list, id, i + 1)
    }
}

/// The stages with that of one instance: in its place, or behind the others.
pub open spec fn with_stage(
    list: Seq<(Seq<char>, Seq<char>)>,
    id: Seq<char>,
    stage: Seq<char>,
) -> Seq<(Seq<char>, Seq<char>)>
    decreases list.len(),
{
    if list.len() == 0 {
        seq![(id, stage)]
    } else if list[0].0 == id {
        seq![(id, stage)] + list.skip(1)
    } else {
        seq![list[0]] + with_stage(list.skip(1), id, stage)
    }
}

/// Notes the stage of an instance.
pub fn set_deployment_stage(list: &mut Vec<(String, String)>, id: &str, stage: &str)
    ensures
        stage_views(final(list)@) == with_stage(stage_views(old(list)@), id@, stage@),
{
    let ghost all = stage_views(list@);
    let mut i: usize = 0;
    proof {
        assert(all.skip(0) =~= all);
        assert(with_stage(all, id@, stage@) =~= all.take(0) + with_stage(all.skip(0), id@, stage@));
    }
    while i < list.len()
        invariant
            i <= list@.len(),
            all == stage_views(list@),
            all == stage_views(old(list)@),
            with_stage(all, id@, stage@) == all.take(i as int) + with_stage(
                all.skip(i as int),
                id@,
                stage@,
            ),
        decreases list@.len() - i,
    {
        proof {
            assert(all.skip(i as int)[0] == all[i as int]);
            assert(all[i as int] == (list@[i as int].0@, list@[i as int].1@));
            assert(all.skip(i as int).skip(1) =~= all.skip(i + 1));
        }
        if same(list[i].0.as_str(), id) {
            list.set(i, (owned(id), owned(stage)));
            proof {
                assert(stage_views(list@) =~= all.take(i as int) + (seq![(id@, stage@)] + all.skip(
                    i + 1,
                )));
            }
            return ;
        }
        proof {
            assert(all.take(i as int) + (seq![all[i as int]] + with_stage(
                all.skip(i + 1),
                id@,
                stage@,
            )) =~= all.take(i + 1) + with_stage(all.skip(i + 1), id@, stage@));
        }
        i += 1;
    }
    list.push((owned(id), owned(stage)));
    proof {
        assert(all.skip(i as int).len() == 0);
        assert(stage_views(list@) =~= all.take(i as int) + seq![(id@, stage@)]);
    }
}

/// The stage of an instance, or `pending`.
pub fn deployment_progress(list: &Vec<(String, String)>, id: &str) -> (out: String)
    ensures
        out@ == (match stage_of(stage_views(list@), id@, 0) {
            Some(stage) => stage,
            None => "pending"@,
        }),
{
    let ghost all = stage_views(list@);
    let mut i: usize = 0;
    while i < list.len()
        invariant
            i <= list@.len(),
            all == stage_views(list@),
            stage_of(all, id@, 0) == stage_of(all, id@, i as int),
        decreases list@.len() - i,
    {
        proof {
            assert(all[i as int] == (list@[i as int].0@, list@[i as int].1@));
        }
        if same(list[i].0.as_str(), id) {
            return list[i].1.clone();
        }
        i += 1;
    }
    owned("pending")
}

proof fn lemma_stage_of_from(list: Seq<(Seq<char>, Seq<char>)>, id: Seq<char>, i: int)
    requires
        0 <= i <= list.len(),
    ensures
        stage_of(list, id, i) == stage_of(list.skip(i), id, 0),
    decreases list.len() - i,
{
    if i < list.len() {
        assert(list.skip(i)[0] == list[i]);
        if list[i].0 != id {
            lemma_stage_of_from(list, id, i + 1);
            lemma_stage_of_from(list.skip(i), id, 1);
            assert(list.skip(i).skip(1) =~= list.skip(i + 1));
        }
    }
}

/// The stage that was noted last is the one that is shown, and those of other instances stay.
pub proof fn law_stage_is_read_back(
    list: Seq<(Seq<char>, Seq<char>)>,
    id: Seq<char>,
    stage: Seq<char>,
    other: Seq<char>,
)
    ensures
        stage_of(with_stage(list, id, stage), id, 0) == Some(stage),
        other != id ==> stage_of(with_stage(list, id, stage), other, 0) == stage_of(list, other, 0),
    decreases list.len(),
{
    let updated = with_stage(list, id, stage);
    if list.len() == 0 {
        assert(updated.len() == 1);
        reveal_with_fuel(stage_of, 2);
    } else {
        lemma_stage_of_from(updated, id, 1);
        lemma_stage_of_from(updated, other, 1);
        lemma_stage_of_from(list, other, 1);
        if list[0].0 == id {
            assert(updated.skip(1) =~= list.skip(1));
        } else {
            law_stage_is_read_back(list.skip(1), id, stage, other);
            assert(updated.skip(1) =~= with_stage(list.skip(1), id, stage));
        }
    }
}

// ---------------------------------------------------------------------------------------------
// The record of an instance
// ---------------------------------------------------------------------------------------------
/// A record with another status.
pub open spec fn with_status(instance: InstanceRecordView, status: Seq<char>, now: u64) -> InstanceRecordView {
    InstanceRecordView { status, updated_at: now, ..instance }
}

/// Gives a record another status.
pub fn set_status(instance: &mut InstanceRecord, status: &str, now: u64)
    ensures
        final(instance)@ == with_status(old(instance)@, status@, now),
{
    instance.status = owned(status);
    instance.updated_at = now;
}

/// What a step makes of the record of an instance.
pub open spec fn record_at(
    flow: Flow,
    step: Step,
    instance: InstanceRecordView,
    now: u64,
) -> InstanceRecordView {
    match step {
        Step::Enter => with_status(
            instance,
            if flow is Install {
                "installing"@
            } else {
                "restarting"@
            },
            now,
        ),
        Step::Started => with_status(instance, "starting"@, now),
        Step::Running => with_status(
            InstanceRecordView { needs_doctor: false, ..instance },
            "running"@,
            now,
        ),
        Step::Stop => InstanceRecordView { pid: None, ..instance },
        _ => instance,
    }
}

/// Makes of the record of an instance what a step that succeeded makes of it. Says whether the
/// record is to be stored.
pub fn advance_record(flow: Flow, step: Step, instance: &mut InstanceRecord, now: u64) -> (store: bool)
    ensures
        final(instance)@ == record_at(flow, step, old(instance)@, now),
        store == (step == Step::Enter || step == Step::Started || step == Step::Running),
{
    match step {
        Step::Enter => {
            match flow {
                Flow::Install => {
                    set_status(instance, "installing", now);
                },
                Flow::Restart => {
                    set_status(instance, "restarting", now);
                },
            }
            true
        },
        Step::Started => {
            set_status(instance, "starting", now);
            true
        },
        Step::Running => {
            instance.needs_doctor = false;
            set_status(instance, "running", now);
            true
        },
        Step::Stop => {
            instance.pid = None;
            false
        },
        _ => false,
    }
}

/// The record of an instance after a step failed. An instance whose variables changed still needs a
/// restart.
pub open spec fn record_after_failure(flow: Flow, instance: InstanceRecordView, now: u64) -> InstanceRecordView {
    with_status(
        instance,
        if flow is Restart && instance.needs_doctor {
            "needs-restart"@
        } else {
            "failed"@
        },
        now,
    )
}

/// Makes of the record of an instance what a failed step makes of it.
pub fn fail_record(flow: Flow, instance: &mut InstanceRecord, now: u64)
    ensures
        final(instance)@ == record_after_failure(flow, old(instance)@, now),
{
    let restart: bool = match flow {
        Flow::Install => false,
        Flow::Restart => true,
    };
    if restart && instance.needs_doctor {
        set_status(instance, "needs-restart", now);
    } else {
        set_status(instance, "failed", now);
    }
}

/// Only the last step says that an instance runs, and no failure does.
pub proof fn law_only_the_last_step_runs(flow: Flow, step: Step, instance: InstanceRecordView, now: u64)
    requires
        instance.status != "running"@,
    ensures
        record_at(flow, step, instance, now).status == "running"@ <==> step == Step::Running,
        record_after_failure(flow, instance, now).status != "running"@,
{
    reveal_strlit("running");
    reveal_strlit("installing");
    reveal_strlit("restarting");
    reveal_strlit("starting");
    reveal_strlit("needs-restart");
    reveal_strlit("failed");
    assert("installing"@.len() != "running"@.len());
    assert("restarting"@.len() != "running"@.len());
    assert("starting"@.len() != "running"@.len());
    assert("needs-restart"@.len() != "running"@.len());
    assert("failed"@.len() != "running"@.len());
}

/// The processes of an instance whose health checks failed are stopped, unless its process is gone
/// already. `running` says whether its process is.
pub fn stops_after_failed_wait(pid: Option<u32>, running: bool) -> (r: bool)
    ensures
        r == !(pid is Some && !running),
{
    match pid {
        Some(_) => running,
        None => true,
    }
}

/// An instance is deployed once it has a process, or once the log says that it was.
pub fn instance_has_completed_deployment(instance: &InstanceRecord, logged: bool) -> (r: bool)
    ensures
        r == (instance@.pid is Some || logged),
{
    instance.pid.is_some() || logged
}

/// The record of an instance whose variables were edited.
pub open spec fn edited_record(instance: InstanceRecordView, deployed: bool, now: u64) -> InstanceRecordView {
    with_status(
        InstanceRecordView { needs_doctor: deployed, ..instance },
        if deployed {
            "needs-restart"@
        } else if instance.env_path is Some {
            "ready-to-install"@
        } else {
            "configuring"@
        },
        now,
    )
}

/// Notes that the variables of an instance were edited: a deployed one needs a restart, another goes
/// back to where it can be installed.
pub fn mark_env_edited(instance: &mut InstanceRecord, deployment_completed: bool, now: u64)
    ensures
        final(instance)@ == edited_record(old(instance)@, deployment_completed, now),
{
    instance.needs_doctor = deployment_completed;
    if deployment_completed {
        set_status(instance, "needs-restart", now);
    } else if instance.env_path.is_some() {
        set_status(instance, "ready-to-install", now);
    } else {
        set_status(instance, "configuring", now);
    }
}

/// Notes that the variables of an instance were saved to a file.
pub fn mark_env_saved(
    instance: &mut InstanceRecord,
    env_path: &str,
    deployment_completed: bool,
    now: u64,
)
    ensures
        final(instance)@ == edited_record(
            InstanceRecordView { env_path: Some(env_path@), ..old(instance)@ },
            deployment_completed,
            now,
        ),
{
    instance.env_path = Some(owned(env_path));
    mark_env_edited(instance, deployment_completed, now);
}

/// Notes that an instance was stopped.
pub fn mark_stopped(instance: &mut InstanceRecord, now: u64)
    ensures
        final(instance)@ == with_status(
            InstanceRecordView { pid: None, ..old(instance)@ },
            "stopped"@,
            now,
        ),
{
    instance.pid = None;
    set_status(instance, "stopped", now);
}

/// An instance that could not be stopped has the status again that it had before.
pub proof fn law_failed_stop_is_undone(instance: InstanceRecordView, first: u64, second: u64)
    ensures
        with_status(with_status(instance, "stopping"@, first), instance.status, second)
            == with_status(instance, instance.status, second),
{
}

/// What the log says of a deleted instance.
pub open spec fn deletion_message(instance: InstanceRecordView, stopped: nat) -> Seq<char> {
    "Instance deletion completed\nInstance name: "@ + instance.name + "\nInstance ID: "@
        + instance.id + "\nWorking directory: "@ + instance.work_dir + "\nProcesses stopped: "@
        + decimal(stopped) + "\nInstance record: deleted"@
}

/// What the log says of a deleted instance.
pub fn deletion_report(instance: &InstanceRecord, stopped: usize) -> (out: String)
    ensures
        out@ == deletion_message(instance@, stopped as nat),
{
    owned("Instance deletion completed\nInstance name: ").concat(instance.name.as_str()).concat(
        "\nInstance ID: ",
    ).concat(instance.id.as_str()).concat("\nWorking directory: ").concat(
        instance.work_dir.as_str(),
    ).concat("\nProcesses stopped: ").concat(decimal_text(stopped as u64).as_str()).concat(
        "\nInstance record: deleted",
    )
}

// ---------------------------------------------------------------------------------------------
// Waiting for the health checks
// ---------------------------------------------------------------------------------------------
/// The number of seconds that an instance has to pass its health checks.
pub const READY_TIMEOUT_SECONDS: u64 = 300;

/// The number of seconds between two checks.
pub const RETRY_INTERVAL_SECONDS: u64 = 2;

/// What is done next while an instance is waited for.
#[derive(Debug, PartialEq, Eq, Structural, Clone, Copy)]
pub enum WaitStep {
    /// Its process is gone: the wait failed.
    Exited,
    /// The health checks are run.
    Check,
    /// Its time is over: the wait failed.
    TimedOut,
}

/// What is done next while an instance is waited for. `running` says whether its process is.
pub fn wait_step(elapsed_seconds: u64, pid: Option<u32>, running: bool) -> (step: WaitStep)
    ensures
        step == (if elapsed_seconds >= READY_TIMEOUT_SECONDS {
            WaitStep::TimedOut
        } else if pid is Some && !running {
            WaitStep::Exited
        } else {
            WaitStep::Check
        }),
{
    if elapsed_seconds >= READY_TIMEOUT_SECONDS {
        WaitStep::TimedOut
    } else if pid.is_some() && !running {
        WaitStep::Exited
    } else {
        WaitStep::Check
    }
}

/// What a health check says: the instance is ready where it succeeded, and the log says how long that
/// took; else it is waited for on.
pub fn ready_message(code: i32, elapsed_seconds: u64) -> (r: Option<String>)
    ensures
        opt_text(r) == (if code == 0 {
            Some(
                "All lifecycle services ready ("@ + decimal(elapsed_seconds as nat)
                    + " seconds)"@,
            )
        } else {
            None
        }),
{
    if code == 0 {
        Some(
            owned("All lifecycle services ready (").concat(
                decimal_text(elapsed_seconds).as_str(),
            ).concat(" seconds)"),
        )
    } else {
        None
    }
}

/// What is said where the process of an instance is gone, or Docker is not there for it.
pub fn exited_message(name: &str) -> (out: String)
    ensures
        out@ == name@ + " instance startup process exited, please check lifecycle logs"@,
{
    owned(name).concat(" instance startup process exited, please check lifecycle logs")
}

/// What the log says of the last output of an instance whose process is gone; nothing where it
/// printed nothing.
pub fn tail_message(tail: &str) -> (r: Option<String>)
    ensures
        opt_text(r) == (if tail@.len() == 0 {
            None
        } else {
            Some("Process output (last 80 lines):\n"@ + tail@)
        }),
{
    if tail.is_empty() {
        None
    } else {
        Some(owned("Process output (last 80 lines):\n").concat(tail))
    }
}

/// What is said where the time of an instance is over, with the end of what the last check printed.
pub fn timed_out_message(latest: &str) -> (out: String)
    ensures
        out@
            == "Timed out waiting for instance services to be ready (300s). Please check lifecycle logs. Last doctor check:\n"@
            + last_lines(latest@, 20),
{
    owned(
        "Timed out waiting for instance services to be ready (300s). Please check lifecycle logs. Last doctor check:\n",
    ).concat(text_last_lines(latest, 20).as_str())
}

} // verus!
