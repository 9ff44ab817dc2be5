//! Repairing a store that an earlier release wrote.
use vstd::prelude::*;
use vstd::string::*;

use crate::logs::{instance_ids, prune_logs, pruned};
use crate::model::{
    instance_views, log_views, AppStore, AppStoreView, InstanceRecord, InstanceRecordView, LogEntry,
    LogEntryView,
};
use crate::order::{sort_logs, sorted_logs};
use crate::search::{contains, text_has, has_prefix, starts_with};
use crate::text::{owned, same};
use crate::unicode::{to_unicode_lower, unicode_lower};

verus! {

// ---------------------------------------------------------------------------------------------
// Instances
// ---------------------------------------------------------------------------------------------
/// An entry that tells that an instance was deployed.
pub open spec fn deployment_completed(log: LogEntryView) -> bool {
    log.category == "install"@ && log.level == "success"@ && log.message
        == "Instance deployment completed"@
}

/// Whether an entry tells that an instance was deployed.
pub fn is_deployment_completed_log(log: &LogEntry) -> (r: bool)
    ensures
        r == deployment_completed(log@),
{
    same(log.category.as_str(), "install") && same(log.level.as_str(), "success") && same(
        log.message.as_str(),
        "Instance deployment completed",
    )
}

/// Some entry tells that this instance was deployed.
pub open spec fn deployed_by_log(logs: Seq<LogEntryView>, id: Seq<char>) -> bool {
    exists|k: int|
        0 <= k < logs.len() && deployment_completed(#[trigger] logs[k]) && logs[k].instance_id
            == Some(id)
}

/// The status of an instance that was not deployed yet.
pub open spec fn predeployment_status(instance: InstanceRecordView) -> Seq<char> {
    if instance.env_path is Some {
        "ready-to-install"@
    } else {
        "configuring"@
    }
}

/// An instance without a request to restart it, where it was never deployed.
pub open spec fn without_early_restart(
    instance: InstanceRecordView,
    deployed: bool,
    now: u64,
) -> InstanceRecordView {
    if instance.status == "needs-restart"@ && instance.pid is None && !deployed {
        InstanceRecordView {
            status: predeployment_status(instance),
            needs_doctor: false,
            updated_at: now,
            ..instance
        }
    } else {
        instance
    }
}

/// An instance asks for a restart though it was never deployed.
pub open spec fn early_restart(instance: InstanceRecordView, deployed: bool) -> bool {
    instance.status == "needs-restart"@ && instance.pid is None && !deployed
}

/// Gives an instance the status that it has before its first deployment.
pub fn set_predeployment_status(instance: &mut InstanceRecord, now: u64)
    ensures
        final(instance)@ == (InstanceRecordView {
            status: predeployment_status(old(instance)@),
            needs_doctor: false,
            updated_at: now,
            ..old(instance)@
        }),
{
    instance.status = if instance.env_path.is_some() {
        owned("ready-to-install")
    } else {
        owned("configuring")
    };
    instance.needs_doctor = false;
    instance.updated_at = now;
}

fn repair_instance(instance: &InstanceRecord, deployed: bool, now: u64) -> (r: (
    InstanceRecord,
    bool,
))
    ensures
        r.0@ == without_early_restart(instance@, deployed, now),
        r.1 == early_restart(instance@, deployed),
{
    let mut copy: InstanceRecord = instance.clone();
    if same(instance.status.as_str(), "needs-restart") && instance.pid.is_none() && !deployed {
        set_predeployment_status(&mut copy, now);
        (copy, true)
    } else {
        (copy, false)
    }
}

fn log_tells_deployment(logs: &Vec<LogEntry>, id: &String) -> (r: bool)
    ensures
        r == deployed_by_log(log_views(logs@), id@),
{
    let mut i: usize = 0;
    while i < logs.len()
        invariant
            i <= logs@.len(),
            forall|k: int|
                0 <= k < i ==> !(deployment_completed(#[trigger] log_views(logs@)[k]) && log_views(
                    logs@,
                )[k].instance_id == Some(id@)),
        decreases logs@.len() - i,
    {
        proof {
            assert(log_views(logs@)[i as int] == logs@[i as int]@);
        }
        if is_deployment_completed_log(&logs[i]) {
            match &logs[i].instance_id {
                Some(other) => {
                    if *other == *id {
                        return true;
                    }
                },
                None => {},
            }
        }
        i += 1;
    }
    false
}

/// Takes back requests to restart instances that the log does not know as deployed. Returns whether
/// there were any.
pub fn repair_predeployment_restart_statuses(data: &mut AppStore, now: u64) -> (changed: bool)
    ensures
        final(data)@ == (AppStoreView {
            instances: old(data)@.instances.map_values(
                |i: InstanceRecordView|
                    without_early_restart(i, deployed_by_log(old(data)@.logs, i.id), now),
            ),
            ..old(data)@
        }),
        changed == exists|k: int|
            0 <= k < old(data)@.instances.len() && early_restart(
                #[trigger] old(data)@.instances[k],
                deployed_by_log(old(data)@.logs, old(data)@.instances[k].id),
            ),
{
    let ghost start = data@;
    let mut out: Vec<InstanceRecord> = Vec::new();
    let mut changed: bool = false;
    let mut i: usize = 0;
    while i < data.instances.len()
        invariant
            *data == *old(data),
            start == data@,
            i <= data.instances@.len(),
            out@.len() == i,
            forall|k: int|
                0 <= k < i ==> (#[trigger] out@[k])@ == without_early_restart(
                    data.instances@[k]@,
                    deployed_by_log(start.logs, data.instances@[k]@.id),
                    now,
                ),
            changed == exists|k: int|
                0 <= k < i && early_restart(
                    #[trigger] start.instances[k],
                    deployed_by_log(start.logs, start.instances[k].id),
                ),
        decreases data.instances@.len() - i,
    {
        let deployed: bool = log_tells_deployment(&data.logs, &data.instances[i].id);
        let (instance, repaired) = repair_instance(&data.instances[i], deployed, now);
        proof {
            assert(start.instances[i as int] == data.instances@[i as int]@);
        }
        out.push(instance);
        if repaired {
            changed = true;
        }
        i += 1;
    }
    data.instances = out;
    proof {
        assert(data@ =~= AppStoreView {
            instances: start.instances.map_values(
                |i: InstanceRecordView|
                    without_early_restart(i, deployed_by_log(start.logs, i.id), now),
            ),
            ..start
        });
    }
    changed
}

/// Takes back requests to restart instances that the storage does not know as deployed;
/// `deployed[k]` tells it of instance `k`. Returns whether there were any.
pub fn repair_restart_statuses(
    instances: &mut Vec<InstanceRecord>,
    deployed: &Vec<bool>,
    now: u64,
) -> (changed: bool)
    requires
        deployed@.len() == old(instances)@.len(),
    ensures
        instance_views(final(instances)@) == Seq::new(
            old(instances)@.len(),
            |k: int| without_early_restart(old(instances)@[k]@, deployed@[k], now),
        ),
        changed == exists|k: int|
            0 <= k < old(instances)@.len() && early_restart(
                (#[trigger] old(instances)@[k])@,
                deployed@[k],
            ),
{
    let mut out: Vec<InstanceRecord> = Vec::new();
    let mut changed: bool = false;
    let mut i: usize = 0;
    while i < instances.len()
        invariant
            instances@ == old(instances)@,
            deployed@.len() == instances@.len(),
            i <= instances@.len(),
            out@.len() == i,
            forall|k: int|
                0 <= k < i ==> (#[trigger] out@[k])@ == without_early_restart(
                    instances@[k]@,
                    deployed@[k],
                    now,
                ),
            changed == exists|k: int|
                0 <= k < i && early_restart((#[trigger] instances@[k])@, deployed@[k]),
        decreases instances@.len() - i,
    {
        let (instance, repaired) = repair_instance(&instances[i], deployed[i], now);
        out.push(instance);
        if repaired {
            changed = true;
        }
        i += 1;
    }
    *instances = out;
    proof {
        assert(instance_views(instances@) =~= Seq::new(
            old(instances)@.len(),
            |k: int| without_early_restart(old(instances)@[k]@, deployed@[k], now),
        ));
    }
    changed
}

/// Taking back requests to restart a second time changes nothing.
pub proof fn law_restart_repair_is_idempotent(
    instance: InstanceRecordView,
    deployed: bool,
    now: u64,
    later: u64,
)
    ensures
        !early_restart(without_early_restart(instance, deployed, now), deployed),
        without_early_restart(without_early_restart(instance, deployed, now), deployed, later)
            == without_early_restart(instance, deployed, now),
{
    reveal_strlit("needs-restart");
    reveal_strlit("ready-to-install");
    reveal_strlit("configuring");
    assert("needs-restart"@[0] != "ready-to-install"@[0]);
    assert("needs-restart"@[0] != "configuring"@[0]);
}

// ---------------------------------------------------------------------------------------------
// Log entries
// ---------------------------------------------------------------------------------------------
/// A message about the lifecycle of an instance, given the message in lower case too.
pub open spec fn lifecycle_message(message: Seq<char>, lower: Seq<char>) -> bool {
    ||| message == "Instance stopped"@
    ||| starts_with(message, "Stopped instance process tree"@)
    ||| starts_with(message, "Instance associated processes stopped"@)
    ||| starts_with(message, "Doctor passed; instance restarted"@)
    ||| contains(message, "Delete instance"@)
    ||| contains(message, "Instance record deleted"@)
    ||| contains(message, "Instance processes, working directory, and record deleted"@)
    ||| starts_with(message, "Instance deletion completed"@)
    ||| lower == "instance stopped"@
    ||| contains(lower, "instance restarted"@)
    ||| contains(lower, "delete instance"@)
    ||| contains(lower, "instance"@) && contains(lower, "deleted"@)
}

/// Whether a message is about the lifecycle of an instance, given the message in lower case too.
pub fn is_lifecycle_message(message: &str, lower: &str) -> (r: bool)
    ensures
        r == lifecycle_message(message@, lower@),
{
    same(message, "Instance stopped") || has_prefix(message, "Stopped instance process tree")
        || has_prefix(message, "Instance associated processes stopped") || has_prefix(
        message,
        "Doctor passed; instance restarted",
    ) || text_has(message, "Delete instance") || text_has(message, "Instance record deleted") || text_has(
        message,
        "Instance processes, working directory, and record deleted",
    ) || has_prefix(message, "Instance deletion completed") || same(lower, "instance stopped")
        || text_has(lower, "instance restarted") || text_has(lower, "delete instance") || (text_has(
        lower,
        "instance",
    ) && text_has(lower, "deleted"))
}

/// Whether a message is about the lifecycle of an instance.
pub fn is_desktop_lifecycle_message(message: &str) -> (r: bool)
    ensures
        r == lifecycle_message(message@, unicode_lower(message@)),
{
    let lower: String = to_unicode_lower(message);
    is_lifecycle_message(message, lower.as_str())
}

/// A runtime entry about the lifecycle of an instance.
pub open spec fn misfiled(log: LogEntryView) -> bool {
    log.category == "runtime"@ && lifecycle_message(log.message, unicode_lower(log.message))
}

/// An entry under the category that it belongs to.
pub open spec fn refiled(log: LogEntryView) -> LogEntryView {
    if misfiled(log) {
        LogEntryView { category: "install"@, ..log }
    } else {
        log
    }
}

/// Moves runtime entries about the lifecycle of an instance to the category of installations.
/// Returns whether there were any.
pub fn repair_lifecycle_log_categories(data: &mut AppStore) -> (changed: bool)
    ensures
        final(data)@ == (AppStoreView {
            logs: old(data)@.logs.map_values(|l: LogEntryView| refiled(l)),
            ..old(data)@
        }),
        changed == exists|k: int|
            0 <= k < old(data)@.logs.len() && misfiled(#[trigger] old(data)@.logs[k]),
{
    let ghost start = data@;
    let mut out: Vec<LogEntry> = Vec::new();
    let mut changed: bool = false;
    let mut i: usize = 0;
    while i < data.logs.len()
        invariant
            *data == *old(data),
            start == data@,
            i <= data.logs@.len(),
            out@.len() == i,
            forall|k: int| 0 <= k < i ==> (#[trigger] out@[k])@ == refiled(data.logs@[k]@),
            changed == exists|k: int| 0 <= k < i && misfiled(#[trigger] start.logs[k]),
        decreases data.logs@.len() - i,
    {
        let mut entry: LogEntry = data.logs[i].clone();
        proof {
            assert(start.logs[i as int] == data.logs@[i as int]@);
        }
        if same(entry.category.as_str(), "runtime") && is_desktop_lifecycle_message(
            entry.message.as_str(),
        ) {
            entry.category = owned("install");
            changed = true;
        }
        out.push(entry);
        i += 1;
    }
    data.logs = out;
    proof {
        assert(data@ =~= AppStoreView {
            logs: start.logs.map_values(|l: LogEntryView| refiled(l)),
            ..start
        });
    }
    changed
}

/// The entries, numbered from zero.
pub open spec fn numbered(logs: Seq<LogEntryView>) -> Seq<LogEntryView> {
    Seq::new(logs.len(), |k: int| LogEntryView { sequence: k as u64, ..logs[k] })
}

/// Numbers the entries from zero in the order in which they stand. Returns whether a number changed.
pub fn repair_log_sequences(data: &mut AppStore) -> (changed: bool)
    ensures
        final(data)@ == (AppStoreView { logs: numbered(old(data)@.logs), ..old(data)@ }),
        changed == exists|k: int|
            0 <= k < old(data)@.logs.len() && (#[trigger] old(data)@.logs[k]).sequence != k,
{
    let ghost start = data@;
    let mut out: Vec<LogEntry> = Vec::new();
    let mut changed: bool = false;
    let mut i: usize = 0;
    while i < data.logs.len()
        invariant
            *data == *old(data),
            start == data@,
            i <= data.logs@.len(),
            out@.len() == i,
            forall|k: int|
                0 <= k < i ==> (#[trigger] out@[k])@ == (LogEntryView {
                    sequence: k as u64,
                    ..data.logs@[k]@
                }),
            changed == exists|k: int| 0 <= k < i && (#[trigger] start.logs[k]).sequence != k,
        decreases data.logs@.len() - i,
    {
        let mut entry: LogEntry = data.logs[i].clone();
        proof {
            assert(start.logs[i as int] == data.logs@[i as int]@);
        }
        if entry.sequence != i as u64 {
            entry.sequence = i as u64;
            changed = true;
        }
        out.push(entry);
        i += 1;
    }
    data.logs = out;
    proof {
        assert(data@ =~= AppStoreView { logs: numbered(start.logs), ..start });
    }
    changed
}

/// Numbering a second time changes nothing.
pub proof fn law_numbering_is_idempotent(logs: Seq<LogEntryView>)
    ensures
        numbered(numbered(logs)) == numbered(logs),
{
    assert(numbered(numbered(logs)) =~= numbered(logs));
}

/// Filing entries a second time changes nothing.
pub proof fn law_filing_is_idempotent(log: LogEntryView)
    ensures
        !misfiled(refiled(log)),
        refiled(refiled(log)) == refiled(log),
{
    reveal_strlit("runtime");
    reveal_strlit("install");
    assert("runtime"@[0] != "install"@[0]);
}

// ---------------------------------------------------------------------------------------------
// The whole store
// ---------------------------------------------------------------------------------------------
/// A store of an earlier release, repaired.
pub open spec fn migrated(data: AppStoreView, days: u32, now: u64) -> AppStoreView {
    let instances = data.instances.map_values(
        |i: InstanceRecordView| without_early_restart(i, deployed_by_log(data.logs, i.id), now),
    );
    let logs = sorted_logs(numbered(data.logs.map_values(|l: LogEntryView| refiled(l))));
    AppStoreView {
        instances,
        vault: data.vault,
        logs: pruned(logs, instance_ids(instances), days, now).0,
    }
}

/// Repairs a store of an earlier release: statuses, categories, numbers, order and age.
pub fn migrate_legacy_store(data: &mut AppStore, retention_days: u32, now: u64)
    ensures
        final(data)@ == migrated(old(data)@, retention_days, now),
{
    repair_predeployment_restart_statuses(data, now);
    repair_lifecycle_log_categories(data);
    repair_log_sequences(data);
    data.logs = sort_logs(&data.logs);
    let _removed = prune_logs(data, retention_days, now);
}

} // verus!
