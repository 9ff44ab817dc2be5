use agentseek_desktop::flow::{
    advance_record, deletion_report, deployment_progress, exited_message, fail_record, first_step,
    instance_has_completed_deployment, listed_tasks, mark_env_edited, mark_env_saved, mark_stopped,
    next_step, ready_message, set_deployment_stage, set_status, step_command, step_stage,
    stops_after_failed_wait, tail_message, tasks_in, timed_out_message, wait_step, Flow,
    ListedTasks, Step, WaitStep,
};
use agentseek_desktop::instances::new_instance;
use agentseek_desktop::model::InstanceRecord;

fn record() -> InstanceRecord {
    new_instance("1", "demo", "t", "/w", "/w/.env.example", "", 1)
}

fn walk(flow: Flow, tasks: ListedTasks) -> Vec<Step> {
    let mut steps = vec![Step::CheckDocker];
    while let Some(next) = next_step(flow, steps[steps.len() - 1], tasks) {
        steps.push(next);
    }
    steps
}

#[test]
fn installing_goes_through_its_steps() {
    let both = ListedTasks { backend: true, frontend: true };
    assert_eq!(
        walk(Flow::Install, both),
        vec![
            Step::CheckDocker,
            Step::RecheckPorts,
            Step::Enter,
            Step::ListTasks,
            Step::BackendTask,
            Step::FrontendTask,
            Step::Info,
            Step::Doctor,
            Step::CheckDockerAgain,
            Step::DryRun,
            Step::Spawn,
            Step::Started,
            Step::AwaitReady,
            Step::Running,
        ]
    );
    let none = ListedTasks { backend: false, frontend: false };
    assert!(!walk(Flow::Install, none).contains(&Step::BackendTask));
    assert!(!walk(Flow::Install, none).contains(&Step::FrontendTask));
    assert_eq!(
        walk(Flow::Restart, both),
        vec![
            Step::CheckDocker,
            Step::SyncConfigs,
            Step::Enter,
            Step::Doctor,
            Step::CheckDockerAgain,
            Step::Stop,
            Step::Spawn,
            Step::Started,
            Step::AwaitReady,
            Step::Running,
        ]
    );
}

#[test]
fn installing_needs_saved_variables() {
    let mut instance = record();
    assert_eq!(
        first_step(Flow::Install, &instance).expect_err("no variables"),
        "Please generate instance .env first"
    );
    assert_eq!(first_step(Flow::Restart, &instance).expect("restart"), Step::CheckDocker);
    instance.env_path = Some("/w/.env".to_string());
    assert_eq!(first_step(Flow::Install, &instance).expect("install"), Step::CheckDocker);
}

#[test]
fn tasks_are_told_in_any_case() {
    assert_eq!(
        listed_tasks("BACKEND\n"),
        ListedTasks { backend: true, frontend: false }
    );
    assert_eq!(
        tasks_in("frontend"),
        ListedTasks { backend: false, frontend: true }
    );
}

#[test]
fn steps_have_commands_and_stages() {
    assert_eq!(step_command(Step::ListTasks).expect("command"), ["task", "--list"]);
    assert_eq!(step_command(Step::DryRun).expect("command"), ["dev", "--dry-run"]);
    assert_eq!(step_command(Step::Doctor).expect("command"), ["doctor"]);
    assert!(step_command(Step::Spawn).is_none());
    assert_eq!(step_stage(Flow::Install, Step::CheckDocker).as_deref(), Some("tasks"));
    assert_eq!(step_stage(Flow::Install, Step::Spawn).as_deref(), Some("starting"));
    assert_eq!(step_stage(Flow::Restart, Step::Spawn), None);
    let mut stages = Vec::new();
    assert_eq!(deployment_progress(&stages, "1"), "pending");
    set_deployment_stage(&mut stages, "1", "tasks");
    set_deployment_stage(&mut stages, "2", "doctor");
    set_deployment_stage(&mut stages, "1", "failed");
    assert_eq!(deployment_progress(&stages, "1"), "failed");
    assert_eq!(deployment_progress(&stages, "2"), "doctor");
    assert_eq!(stages.len(), 2);
}

#[test]
fn records_follow_the_steps() {
    let mut instance = record();
    instance.needs_doctor = true;
    instance.pid = Some(4);
    assert!(advance_record(Flow::Install, Step::Enter, &mut instance, 2));
    assert_eq!(instance.status, "installing");
    assert!(!advance_record(Flow::Install, Step::Doctor, &mut instance, 3));
    assert_eq!((instance.status.as_str(), instance.updated_at), ("installing", 2));
    assert!(!advance_record(Flow::Restart, Step::Stop, &mut instance, 3));
    assert_eq!(instance.pid, None);
    assert!(advance_record(Flow::Restart, Step::Enter, &mut instance, 3));
    assert_eq!(instance.status, "restarting");
    assert!(advance_record(Flow::Install, Step::Started, &mut instance, 4));
    assert_eq!(instance.status, "starting");
    assert!(instance.needs_doctor);
    assert!(advance_record(Flow::Install, Step::Running, &mut instance, 5));
    assert_eq!((instance.status.as_str(), instance.updated_at), ("running", 5));
    assert!(!instance.needs_doctor);
}

#[test]
fn failures_keep_the_need_for_a_restart() {
    let mut instance = record();
    instance.needs_doctor = true;
    fail_record(Flow::Install, &mut instance, 2);
    assert_eq!(instance.status, "failed");
    fail_record(Flow::Restart, &mut instance, 3);
    assert_eq!(instance.status, "needs-restart");
    instance.needs_doctor = false;
    fail_record(Flow::Restart, &mut instance, 4);
    assert_eq!((instance.status.as_str(), instance.updated_at), ("failed", 4));
    assert!(stops_after_failed_wait(None, false));
    assert!(stops_after_failed_wait(Some(1), true));
    assert!(!stops_after_failed_wait(Some(1), false));
}

#[test]
fn edited_variables_call_for_a_restart_or_an_installation() {
    let mut instance = record();
    mark_env_edited(&mut instance, false, 2);
    assert_eq!(instance.status, "configuring");
    mark_env_saved(&mut instance, "/w/.env", false, 3);
    assert_eq!(instance.status, "ready-to-install");
    assert_eq!(instance.env_path.as_deref(), Some("/w/.env"));
    assert!(!instance.needs_doctor);
    mark_env_edited(&mut instance, true, 4);
    assert_eq!((instance.status.as_str(), instance.updated_at), ("needs-restart", 4));
    assert!(instance.needs_doctor);
    assert!(instance_has_completed_deployment(&instance, true));
    assert!(!instance_has_completed_deployment(&instance, false));
    instance.pid = Some(7);
    assert!(instance_has_completed_deployment(&instance, false));
    set_status(&mut instance, "stopping", 5);
    mark_stopped(&mut instance, 6);
    assert_eq!((instance.status.as_str(), instance.pid), ("stopped", None));
    assert_eq!(
        deletion_report(&instance, 2),
        "Instance deletion completed\nInstance name: demo\nInstance ID: 1\nWorking directory: /w\nProcesses stopped: 2\nInstance record: deleted"
    );
}

#[test]
fn waiting_ends_with_the_time_or_the_process() {
    assert_eq!(wait_step(0, Some(1), true), WaitStep::Check);
    assert_eq!(wait_step(0, None, false), WaitStep::Check);
    assert_eq!(wait_step(299, Some(1), false), WaitStep::Exited);
    assert_eq!(wait_step(300, Some(1), false), WaitStep::TimedOut);
    assert_eq!(
        ready_message(0, 12).as_deref(),
        Some("All lifecycle services ready (12 seconds)")
    );
    assert_eq!(ready_message(1, 12), None);
    assert_eq!(
        exited_message("demo"),
        "demo instance startup process exited, please check lifecycle logs"
    );
    assert_eq!(tail_message(""), None);
    assert_eq!(
        tail_message("x").as_deref(),
        Some("Process output (last 80 lines):\nx")
    );
    let printed: Vec<String> = (0..25).map(|i| i.to_string()).collect();
    let message = timed_out_message(&printed.join("\n"));
    assert!(message.ends_with("Last doctor check:\n5\n6\n7\n8\n9\n10\n11\n12\n13\n14\n15\n16\n17\n18\n19\n20\n21\n22\n23\n24"));
}
