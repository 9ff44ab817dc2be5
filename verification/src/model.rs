//! The records that the desktop application keeps.
use vstd::prelude::*;
use vstd::string::*;

use crate::env::{env_views, EnvVariable, EnvVariableView};
use crate::text::opt_text;

verus! {

/// A template that an instance can be made from.
#[derive(Debug)]
pub struct TemplateInfo {
    pub id: String,
    pub name: String,
    pub description: String,
    pub framework: String,
}

/// What a [`TemplateInfo`] holds.
#[verifier::ext_equal]
pub struct TemplateInfoView {
    pub id: Seq<char>,
    pub name: Seq<char>,
    pub description: Seq<char>,
    pub framework: Seq<char>,
}

impl View for TemplateInfo {
    type V = TemplateInfoView;

    open spec fn view(&self) -> TemplateInfoView {
        TemplateInfoView {
            id: self.id@,
            name: self.name@,
            description: self.description@,
            framework: self.framework@,
        }
    }
}

/// A service of an instance, as it is shown.
#[derive(Debug)]
pub struct ServiceEndpoint {
    pub name: String,
    pub url: String,
    pub kind: String,
    pub primary: bool,
}

/// What a [`ServiceEndpoint`] holds.
#[verifier::ext_equal]
pub struct ServiceEndpointView {
    pub name: Seq<char>,
    pub url: Seq<char>,
    pub kind: Seq<char>,
    pub primary: bool,
}

impl View for ServiceEndpoint {
    type V = ServiceEndpointView;

    open spec fn view(&self) -> ServiceEndpointView {
        ServiceEndpointView {
            name: self.name@,
            url: self.url@,
            kind: self.kind@,
            primary: self.primary,
        }
    }
}

impl Clone for ServiceEndpoint {
    fn clone(&self) -> (r: Self)
        ensures
            r == *self,
    {
        ServiceEndpoint {
            name: self.name.clone(),
            url: self.url.clone(),
            kind: self.kind.clone(),
            primary: self.primary,
        }
    }
}

/// The endpoints of a list.
pub open spec fn endpoint_views(list: Seq<ServiceEndpoint>) -> Seq<ServiceEndpointView> {
    list.map_values(|e: ServiceEndpoint| e@)
}

/// An instance of a template.
#[derive(Debug)]
pub struct InstanceRecord {
    pub id: String,
    pub name: String,
    pub template_id: String,
    pub status: String,
    pub deployment_mode: String,
    pub work_dir: String,
    pub env_example_path: Option<String>,
    pub env_path: Option<String>,
    pub note: String,
    pub created_at: u64,
    pub updated_at: u64,
    pub needs_doctor: bool,
    pub pid: Option<u32>,
    pub agent_url: Option<String>,
    pub ui_url: Option<String>,
    pub studio_url: Option<String>,
    pub project_name: Option<String>,
    pub lifecycle_version: Option<u32>,
    pub service_endpoints: Vec<ServiceEndpoint>,
}

/// What an [`InstanceRecord`] holds.
#[verifier::ext_equal]
pub struct InstanceRecordView {
    pub id: Seq<char>,
    pub name: Seq<char>,
    pub template_id: Seq<char>,
    pub status: Seq<char>,
    pub deployment_mode: Seq<char>,
    pub work_dir: Seq<char>,
    pub env_example_path: Option<Seq<char>>,
    pub env_path: Option<Seq<char>>,
    pub note: Seq<char>,
    pub created_at: u64,
    pub updated_at: u64,
    pub needs_doctor: bool,
    pub pid: Option<u32>,
    pub agent_url: Option<Seq<char>>,
    pub ui_url: Option<Seq<char>>,
    pub studio_url: Option<Seq<char>>,
    pub project_name: Option<Seq<char>>,
    pub lifecycle_version: Option<u32>,
    pub service_endpoints: Seq<ServiceEndpointView>,
}

impl View for InstanceRecord {
    type V = InstanceRecordView;

    open spec fn view(&self) -> InstanceRecordView {
        InstanceRecordView {
            id: self.id@,
            name: self.name@,
            template_id: self.template_id@,
            status: self.status@,
            deployment_mode: self.deployment_mode@,
            work_dir: self.work_dir@,
            env_example_path: opt_text(self.env_example_path),
            env_path: opt_text(self.env_path),
            note: self.note@,
            created_at: self.created_at,
            updated_at: self.updated_at,
            needs_doctor: self.needs_doctor,
            pid: self.pid,
            agent_url: opt_text(self.agent_url),
            ui_url: opt_text(self.ui_url),
            studio_url: opt_text(self.studio_url),
            project_name: opt_text(self.project_name),
            lifecycle_version: self.lifecycle_version,
            service_endpoints: endpoint_views(self.service_endpoints@),
        }
    }
}

/// A copy of an optional text.
pub fn copy_opt(t: &Option<String>) -> (r: Option<String>)
    ensures
        r == *t,
{
    match t {
        Some(s) => Some(s.clone()),
        None => None,
    }
}

impl Clone for InstanceRecord {
    fn clone(&self) -> (r: Self)
        ensures
            r@ == self@,
    {
        let service_endpoints: Vec<ServiceEndpoint> = self.service_endpoints.clone();
        proof {
            assert(service_endpoints@ =~= self.service_endpoints@);
        }
        InstanceRecord {
            id: self.id.clone(),
            name: self.name.clone(),
            template_id: self.template_id.clone(),
            status: self.status.clone(),
            deployment_mode: self.deployment_mode.clone(),
            work_dir: self.work_dir.clone(),
            env_example_path: copy_opt(&self.env_example_path),
            env_path: copy_opt(&self.env_path),
            note: self.note.clone(),
            created_at: self.created_at,
            updated_at: self.updated_at,
            needs_doctor: self.needs_doctor,
            pid: self.pid,
            agent_url: copy_opt(&self.agent_url),
            ui_url: copy_opt(&self.ui_url),
            studio_url: copy_opt(&self.studio_url),
            project_name: copy_opt(&self.project_name),
            lifecycle_version: self.lifecycle_version,
            service_endpoints,
        }
    }
}

/// The instances of a list.
pub open spec fn instance_views(list: Seq<InstanceRecord>) -> Seq<InstanceRecordView> {
    list.map_values(|i: InstanceRecord| i@)
}

/// One entry of the log.
#[derive(Debug)]
pub struct LogEntry {
    pub id: String,
    pub instance_id: Option<String>,
    pub instance_name: String,
    pub category: String,
    pub level: String,
    pub message: String,
    pub command: Option<String>,
    pub created_at: u64,
    pub sequence: u64,
}

/// What a [`LogEntry`] holds.
#[verifier::ext_equal]
pub struct LogEntryView {
    pub id: Seq<char>,
    pub instance_id: Option<Seq<char>>,
    pub instance_name: Seq<char>,
    pub category: Seq<char>,
    pub level: Seq<char>,
    pub message: Seq<char>,
    pub command: Option<Seq<char>>,
    pub created_at: u64,
    pub sequence: u64,
}

impl View for LogEntry {
    type V = LogEntryView;

    open spec fn view(&self) -> LogEntryView {
        LogEntryView {
            id: self.id@,
            instance_id: opt_text(self.instance_id),
            instance_name: self.instance_name@,
            category: self.category@,
            level: self.level@,
            message: self.message@,
            command: opt_text(self.command),
            created_at: self.created_at,
            sequence: self.sequence,
        }
    }
}

impl Clone for LogEntry {
    fn clone(&self) -> (r: Self)
        ensures
            r == *self,
    {
        LogEntry {
            id: self.id.clone(),
            instance_id: copy_opt(&self.instance_id),
            instance_name: self.instance_name.clone(),
            category: self.category.clone(),
            level: self.level.clone(),
            message: self.message.clone(),
            command: copy_opt(&self.command),
            created_at: self.created_at,
            sequence: self.sequence,
        }
    }
}

/// The entries of a list.
pub open spec fn log_views(list: Seq<LogEntry>) -> Seq<LogEntryView> {
    list.map_values(|l: LogEntry| l@)
}

/// Everything that the application keeps.
#[derive(Debug)]
pub struct AppStore {
    pub instances: Vec<InstanceRecord>,
    pub vault: Vec<EnvVariable>,
    pub logs: Vec<LogEntry>,
}

/// What an [`AppStore`] holds.
#[verifier::ext_equal]
pub struct AppStoreView {
    pub instances: Seq<InstanceRecordView>,
    pub vault: Seq<EnvVariableView>,
    pub logs: Seq<LogEntryView>,
}

impl View for AppStore {
    type V = AppStoreView;

    open spec fn view(&self) -> AppStoreView {
        AppStoreView {
            instances: instance_views(self.instances@),
            vault: env_views(self.vault@),
            logs: log_views(self.logs@),
        }
    }
}

impl Default for AppStore {
    fn default() -> (r: Self)
        ensures
            r@ == (AppStoreView { instances: seq![], vault: seq![], logs: seq![] }),
    {
        let r: AppStore = AppStore { instances: Vec::new(), vault: Vec::new(), logs: Vec::new() };
        proof {
            assert(r@ =~= AppStoreView { instances: seq![], vault: seq![], logs: seq![] });
        }
        r
    }
}

/// A copy of a list of instances.
pub fn copy_instances(list: &Vec<InstanceRecord>) -> (out: Vec<InstanceRecord>)
    ensures
        instance_views(out@) == instance_views(list@),
{
    let mut out: Vec<InstanceRecord> = Vec::new();
    let mut i: usize = 0;
    while i < list.len()
        invariant
            i <= list@.len(),
            out@.len() == i,
            forall|k: int| 0 <= k < i ==> (#[trigger] out@[k])@ == list@[k]@,
        decreases list@.len() - i,
    {
        out.push(list[i].clone());
        i += 1;
    }
    proof {
        assert(instance_views(out@) =~= instance_views(list@));
    }
    out
}

/// A copy of a list of log entries.
pub fn copy_logs(list: &Vec<LogEntry>) -> (out: Vec<LogEntry>)
    ensures
        out@ == list@,
{
    let out: Vec<LogEntry> = list.clone();
    proof {
        assert(out@ =~= list@);
    }
    out
}

impl Clone for AppStore {
    fn clone(&self) -> (r: Self)
        ensures
            r@ == self@,
    {
        AppStore {
            instances: copy_instances(&self.instances),
            vault: crate::env::copy_entries(&self.vault),
            logs: copy_logs(&self.logs),
        }
    }
}

} // verus!
