pub mod address_laws;
pub mod command_laws;
pub mod commands;
pub mod compose;
pub mod conflict_laws;
pub mod deploy;
pub mod env;
pub mod file_laws;
pub mod flow;
pub mod install;
pub mod instances;
pub mod json;
pub mod lifecycle;
pub mod list_laws;
pub mod log_laws;
pub mod log_pages;
pub mod logs;
pub mod manifest_laws;
pub mod model;
pub mod number;
pub mod order;
pub mod patches;
pub mod paths;
pub mod port_laws;
pub mod ports;
pub mod processes;
pub mod programs;
pub mod project_laws;
pub mod projects;
pub mod record_laws;
pub mod repair;
pub mod replace_laws;
pub mod reports;
pub mod round_trip;
pub mod rows;
pub mod rule_laws;
pub mod runtime_logs;
pub mod search;
pub mod service_laws;
pub mod services;
pub mod setup_laws;
pub mod split;
pub mod storage;
pub mod store_laws;
pub mod switching;
pub mod text;
pub mod tool_laws;
pub mod tools;
pub mod unicode;
pub mod urls;
pub mod variable_laws;
pub mod vault;
pub mod versions;
