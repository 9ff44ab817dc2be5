//! The storage of the application: its configuration, its start and its change.
use vstd::prelude::*;
use vstd::string::*;

use crate::env::{EnvVariable, EnvVariableView};
use crate::logs::{last_n, trim_pending_logs, MAX_PENDING_LOG_ENTRIES};
use crate::model::{log_views, AppStore, AppStoreView, LogEntry, LogEntryView};
use crate::number::{decimal, decimal_text};
use crate::order::{sort_texts, sorted_texts};
use crate::paths::{join_path, path_below};
use crate::search::{ends_with, has_prefix, has_suffix, starts_with, trim, trimmed};
use crate::text::{join, join_texts, opt_text, owned, same, texts};

verus! {

// ---------------------------------------------------------------------------------------------
// Configuration
// ---------------------------------------------------------------------------------------------
/// Where the application keeps its data.
#[derive(Debug)]
pub struct StorageConfig {
    pub mode: String,
    pub path: String,
    pub host: String,
    pub port: u16,
    pub tenant: String,
    pub database: String,
    pub user: String,
    pub password: String,
    pub runtime_log_retention_days: u32,
    pub setup_completed: bool,
}

/// What a [`StorageConfig`] holds.
#[verifier::ext_equal]
pub struct StorageConfigView {
    pub mode: Seq<char>,
    pub path: Seq<char>,
    pub host: Seq<char>,
    pub port: u16,
    pub tenant: Seq<char>,
    pub database: Seq<char>,
    pub user: Seq<char>,
    pub password: Seq<char>,
    pub runtime_log_retention_days: u32,
    pub setup_completed: bool,
}

impl View for StorageConfig {
    type V = StorageConfigView;

    open spec fn view(&self) -> StorageConfigView {
        StorageConfigView {
            mode: self.mode@,
            path: self.path@,
            host: self.host@,
            port: self.port,
            tenant: self.tenant@,
            database: self.database@,
            user: self.user@,
            password: self.password@,
            runtime_log_retention_days: self.runtime_log_retention_days,
            setup_completed: self.setup_completed,
        }
    }
}

impl Clone for StorageConfig {
    fn clone(&self) -> (r: Self)
        ensures
            r == *self,
    {
        StorageConfig {
            mode: self.mode.clone(),
            path: self.path.clone(),
            host: self.host.clone(),
            port: self.port,
            tenant: self.tenant.clone(),
            database: self.database.clone(),
            user: self.user.clone(),
            password: self.password.clone(),
            runtime_log_retention_days: self.runtime_log_retention_days,
            setup_completed: self.setup_completed,
        }
    }
}

/// The configuration of a first start.
pub open spec fn default_config() -> StorageConfigView {
    StorageConfigView {
        mode: "seekdb_embedded"@,
        path: seq![],
        host: seq![],
        port: 2881,
        tenant: seq![],
        database: "agentseek_desktop"@,
        user: "root"@,
        password: seq![],
        runtime_log_retention_days: 7,
        setup_completed: false,
    }
}

pub fn default_database_port() -> (port: u16)
    ensures
        port == 2881,
{
    2881
}

pub fn default_storage_database() -> (name: String)
    ensures
        name@ == "agentseek_desktop"@,
{
    owned("agentseek_desktop")
}

pub fn default_storage_user() -> (name: String)
    ensures
        name@ == "root"@,
{
    owned("root")
}

pub fn default_runtime_log_retention_days() -> (days: u32)
    ensures
        days == 7,
{
    7
}

impl Default for StorageConfig {
    fn default() -> (r: Self)
        ensures
            r@ == default_config(),
    {
        let r: StorageConfig = StorageConfig {
            mode: owned("seekdb_embedded"),
            path: String::new(),
            host: String::new(),
            port: default_database_port(),
            tenant: String::new(),
            database: default_storage_database(),
            user: default_storage_user(),
            password: String::new(),
            runtime_log_retention_days: default_runtime_log_retention_days(),
            setup_completed: false,
        };
        proof {
            assert(r@ =~= default_config());
        }
        r
    }
}

/// The storage lies in a directory of this machine.
pub open spec fn embedded_mode(mode: Seq<char>) -> bool {
    mode == "sqlite_embedded"@ || mode == "seekdb_embedded"@
}

/// The storage is reached over the network.
pub open spec fn server_mode(mode: Seq<char>) -> bool {
    mode == "seekdb_server"@ || mode == "oceanbase_server"@
}

fn is_embedded_mode(mode: &str) -> (r: bool)
    ensures
        r == embedded_mode(mode@),
{
    same(mode, "sqlite_embedded") || same(mode, "seekdb_embedded")
}

/// Whether the storage needs a password that is kept apart.
pub fn is_server_mode(mode: &str) -> (r: bool)
    ensures
        r == server_mode(mode@),
{
    same(mode, "seekdb_server") || same(mode, "oceanbase_server")
}

/// A configuration with the name of its database: fixed where the storage is embedded, and never
/// blank.
pub open spec fn with_database(config: StorageConfigView) -> StorageConfigView {
    if embedded_mode(config.mode) || trim(config.database).len() == 0 {
        StorageConfigView { database: "agentseek_desktop"@, ..config }
    } else {
        config
    }
}

/// Sets the name of the database where the storage is embedded or the name is blank.
pub fn normalize_storage_database(config: &mut StorageConfig)
    ensures
        final(config)@ == with_database(old(config)@),
{
    let database: String = trimmed(config.database.as_str());
    if is_embedded_mode(config.mode.as_str()) || database.as_str().is_empty() {
        config.database = default_storage_database();
    }
}

/// Naming the database a second time changes nothing.
pub proof fn law_database_name_is_stable(config: StorageConfigView)
    ensures
        with_database(with_database(config)) == with_database(config),
        embedded_mode(config.mode) ==> with_database(config).database == "agentseek_desktop"@,
{
}

/// The directory of an SQLite database.
pub open spec fn sqlite_directory(data_dir: Seq<char>, config: StorageConfigView) -> Seq<char> {
    if trim(config.path).len() == 0 {
        data_dir
    } else {
        trim(config.path)
    }
}

/// The directory of an SQLite database.
pub fn sqlite_storage_directory(data_dir: &str, config: &StorageConfig) -> (out: String)
    ensures
        out@ == sqlite_directory(data_dir@, config@),
{
    let path: String = trimmed(config.path.as_str());
    if path.as_str().is_empty() {
        owned(data_dir)
    } else {
        path
    }
}

/// The file of an SQLite database.
pub open spec fn sqlite_file(
    data_dir: Seq<char>,
    config: StorageConfigView,
    separator: char,
) -> Seq<char> {
    join_path(separator, sqlite_directory(data_dir, config), "agentseek-desktop.sqlite3"@)
}

/// The file of an SQLite database.
pub fn sqlite_database_path(
    data_dir: &str,
    config: &StorageConfig,
    separator: char,
) -> (out: String)
    ensures
        out@ == sqlite_file(data_dir@, config@, separator),
{
    let directory: String = sqlite_storage_directory(data_dir, config);
    path_below(separator, directory.as_str(), "agentseek-desktop.sqlite3")
}

// ---------------------------------------------------------------------------------------------
// What is written out
// ---------------------------------------------------------------------------------------------
/// The configuration as it is written to its file: without the password.
pub fn persisted_config(config: &StorageConfig) -> (out: StorageConfig)
    ensures
        out@ == (StorageConfigView { password: seq![], ..config@ }),
{
    let mut out: StorageConfig = config.clone();
    out.password = String::new();
    proof {
        assert(out@ =~= StorageConfigView { password: seq![], ..config@ });
    }
    out
}

/// A variable without its value.
pub open spec fn without_value(entry: EnvVariableView) -> EnvVariableView {
    EnvVariableView { value: seq![], modified: false, ..entry }
}

/// A store as it is written to a backup: without the values of the vault.
pub open spec fn sanitized(data: AppStoreView) -> AppStoreView {
    AppStoreView { vault: data.vault.map_values(|e: EnvVariableView| without_value(e)), ..data }
}

/// A copy of a store without the values of its vault.
pub fn sanitized_store(data: &AppStore) -> (out: AppStore)
    ensures
        out@ == sanitized(data@),
{
    let mut out: AppStore = data.clone();
    let mut vault: Vec<EnvVariable> = Vec::new();
    let mut i: usize = 0;
    while i < data.vault.len()
        invariant
            i <= data.vault@.len(),
            vault@.len() == i,
            forall|k: int| 0 <= k < i ==> (#[trigger] vault@[k])@ == without_value(data.vault@[k]@),
        decreases data.vault@.len() - i,
    {
        let mut entry: EnvVariable = data.vault[i].clone();
        entry.value = String::new();
        entry.modified = false;
        proof {
            assert(entry@ =~= without_value(data.vault@[i as int]@));
        }
        vault.push(entry);
        i += 1;
    }
    out.vault = vault;
    proof {
        assert(out@ =~= sanitized(data@));
    }
    out
}

/// A sanitized store has every key of the vault and none of its values; instances and log stay.
pub proof fn law_sanitized_store_has_no_values(data: AppStoreView, k: int)
    requires
        0 <= k < data.vault.len(),
    ensures
        sanitized(data).vault.len() == data.vault.len(),
        sanitized(data).vault[k].key == data.vault[k].key,
        sanitized(data).vault[k].value.len() == 0,
        sanitized(data).instances == data.instances,
        sanitized(data).logs == data.logs,
        sanitized(sanitized(data)) == sanitized(data),
{
    assert(sanitized(sanitized(data)).vault =~= sanitized(data).vault);
}

/// The name of a backup.
pub open spec fn backup_name(name: Seq<char>) -> bool {
    starts_with(name, "before-switch-"@) && ends_with(name, ".json"@)
}

pub open spec fn is_backup() -> spec_fn(Seq<char>) -> bool {
    |n: Seq<char>| backup_name(n)
}

/// The backups that go: all but the last five in the order of their names.
pub open spec fn old_backups(names: Seq<Seq<char>>) -> Seq<Seq<char>> {
    let backups = sorted_texts(names.filter(is_backup()));
    if backups.len() <= 5 {
        seq![]
    } else {
        backups.take(backups.len() - 5)
    }
}

/// The backups to remove from a directory with files of these names.
pub fn backups_to_remove(names: &Vec<String>) -> (out: Vec<String>)
    ensures
        texts(out@) == old_backups(texts(names@)),
{
    let ghost all = texts(names@);
    let mut backups: Vec<String> = Vec::new();
    let mut i: usize = 0;
    proof {
        reveal(Seq::filter);
        assert(all.take(0) =~= Seq::<Seq<char>>::empty());
        assert(texts(backups@) =~= all.take(0).filter(is_backup()));
    }
    while i < names.len()
        invariant
            i <= names@.len(),
            all == texts(names@),
            texts(backups@) == all.take(i as int).filter(is_backup()),
        decreases names@.len() - i,
    {
        let ghost before = texts(backups@);
        let ghost name = names@[i as int]@;
        proof {
            reveal(Seq::filter);
            assert(all.take(i + 1).drop_last() =~= all.take(i as int));
            assert(all.take(i + 1).last() == name);
            assert(is_backup()(name) == backup_name(name));
        }
        if has_prefix(names[i].as_str(), "before-switch-") && has_suffix(
            names[i].as_str(),
            ".json",
        ) {
            backups.push(names[i].clone());
            proof {
                assert(texts(backups@) =~= before.push(name));
            }
        }
        i += 1;
    }
    proof {
        assert(all.take(i as int) =~= all);
    }
    let mut sorted: Vec<String> = sort_texts(&backups);
    let ghost in_order = texts(sorted@);
    let n: usize = if sorted.len() > 5 {
        sorted.len() - 5
    } else {
        0
    };
    sorted.truncate(n);
    proof {
        assert(texts(sorted@) =~= in_order.take(n as int));
        assert(n == 0 ==> texts(sorted@) =~= Seq::<Seq<char>>::empty());
    }
    sorted
}

/// What is reported where no storage has been chosen yet.
pub fn storage_not_initialized() -> (message: String)
    ensures
        message@ == "Desktop storage has not been initialized"@,
{
    owned("Desktop storage has not been initialized")
}

// ---------------------------------------------------------------------------------------------
// Starting
// ---------------------------------------------------------------------------------------------
/// What reading the configuration file gave.
#[derive(Debug)]
pub enum ConfigFile {
    Parsed(StorageConfig),
    Malformed(String),
    Missing,
    Unreadable(String),
}

/// The configuration to start with.
pub open spec fn config_of_file(file: ConfigFile) -> StorageConfigView {
    with_database(
        match file {
            ConfigFile::Parsed(config) => config@,
            _ => default_config(),
        },
    )
}

/// What is reported of a configuration file that cannot be used.
pub open spec fn config_file_error(file: ConfigFile) -> Option<Seq<char>> {
    match file {
        ConfigFile::Malformed(error) => Some(
            "Storage config file format error, entered read-only protection mode: "@ + error@,
        ),
        ConfigFile::Unreadable(error) => Some(
            "Failed to read storage config file, entered read-only protection mode: "@ + error@,
        ),
        _ => None,
    }
}

/// The configuration to start with, and an error where its file cannot be used.
pub fn startup_config(file: ConfigFile) -> (r: (StorageConfig, Option<String>))
    ensures
        r.0@ == config_of_file(file),
        opt_text(r.1) == config_file_error(file),
{
    let (mut config, error): (StorageConfig, Option<String>) = match file {
        ConfigFile::Parsed(config) => (config, None),
        ConfigFile::Missing => (StorageConfig::default(), None),
        ConfigFile::Malformed(error) => (
            StorageConfig::default(),
            Some(
                owned(
                    "Storage config file format error, entered read-only protection mode: ",
                ).concat(error.as_str()),
            ),
        ),
        ConfigFile::Unreadable(error) => (
            StorageConfig::default(),
            Some(
                owned(
                    "Failed to read storage config file, entered read-only protection mode: ",
                ).concat(error.as_str()),
            ),
        ),
    };
    normalize_storage_database(&mut config);
    (config, error)
}

/// Whether the choice of a storage has to be confirmed first: there is no configuration file, or
/// one without the mark of a completed choice.
pub fn setup_is_required(config_file_exists: bool, config: &StorageConfig) -> (r: bool)
    ensures
        r == (!config_file_exists || !config@.setup_completed),
{
    !config_file_exists || !config.setup_completed
}

/// How the path of a configuration relates to the directories of the application.
#[derive(Debug)]
pub struct PathFacts {
    /// The path is the default directory of SeekDB.
    pub is_default_seekdb: bool,
    /// The default directory of SeekDB holds an SQLite database.
    pub default_seekdb_holds_sqlite: bool,
    /// The path is the directory that SeekDB had by default before.
    pub is_legacy_seekdb: bool,
    /// The directory that SeekDB had by default before exists.
    pub legacy_seekdb_exists: bool,
}

/// A configuration with the path that it starts with.
pub open spec fn with_startup_path(
    config: StorageConfigView,
    data_dir: Seq<char>,
    facts: PathFacts,
    separator: char,
) -> StorageConfigView {
    if config.mode == "sqlite_embedded"@ {
        if config.path.len() == 0 || (facts.is_default_seekdb
            && !facts.default_seekdb_holds_sqlite) {
            StorageConfigView { path: data_dir, ..config }
        } else {
            config
        }
    } else if config.path.len() == 0 || (facts.is_legacy_seekdb && !facts.legacy_seekdb_exists) {
        StorageConfigView { path: join_path(separator, data_dir, "seekdb"@), ..config }
    } else {
        config
    }
}

/// Gives a configuration the default path of its mode where it has none, or one that an earlier
/// release chose by mistake.
pub fn assign_startup_path(
    config: &mut StorageConfig,
    data_dir: &str,
    facts: &PathFacts,
    separator: char,
)
    ensures
        final(config)@ == with_startup_path(old(config)@, data_dir@, *facts, separator),
{
    if same(config.mode.as_str(), "sqlite_embedded") {
        if config.path.as_str().is_empty() || (facts.is_default_seekdb
            && !facts.default_seekdb_holds_sqlite) {
            config.path = owned(data_dir);
        }
    } else if config.path.as_str().is_empty() || (facts.is_legacy_seekdb
        && !facts.legacy_seekdb_exists) {
        config.path = path_below(separator, data_dir, "seekdb");
    }
}

/// Brings the password of a configuration and the one that is kept apart together: the one in the
/// configuration wins where there is one. Returns whether the kept one changed and is to be written.
pub fn adopt_password(config: &mut StorageConfig, kept: &mut String) -> (write: bool)
    ensures
        write == (old(config)@.password.len() > 0),
        final(config)@ == (StorageConfigView {
            password: if old(config)@.password.len() == 0 {
                old(kept)@
            } else {
                old(config)@.password
            },
            ..old(config)@
        }),
        final(kept)@ == final(config)@.password,
{
    if config.password.as_str().is_empty() {
        config.password = kept.clone();
        false
    } else {
        *kept = config.password.clone();
        true
    }
}

/// The engine that a start tries first.
#[derive(Debug)]
pub enum EngineChoice {
    /// No storage has been chosen yet.
    Pending,
    /// An SQLite database in this file.
    Sqlite(String),
    /// SeekDB, embedded or on a server.
    SeekDb,
}

/// The SQLite file of a start: that of the configuration, or the one of the application that stands
/// in for SeekDB.
pub open spec fn startup_sqlite_file(
    data_dir: Seq<char>,
    config: StorageConfigView,
    separator: char,
) -> Seq<char> {
    if config.mode == "sqlite_embedded"@ {
        sqlite_file(data_dir, config, separator)
    } else {
        join_path(separator, data_dir, "agentseek-desktop.sqlite3"@)
    }
}

/// The SQLite file of a start.
pub fn startup_sqlite_path(data_dir: &str, config: &StorageConfig, separator: char) -> (out: String)
    ensures
        out@ == startup_sqlite_file(data_dir@, config@, separator),
{
    if same(config.mode.as_str(), "sqlite_embedded") {
        sqlite_database_path(data_dir, config, separator)
    } else {
        path_below(separator, data_dir, "agentseek-desktop.sqlite3")
    }
}

/// The engine that a start tries first. A fresh start has none until a storage is chosen.
pub fn startup_engine(
    config_file_exists: bool,
    data_dir: &str,
    config: &StorageConfig,
    separator: char,
) -> (choice:
    EngineChoice)
    ensures
        match choice {
            EngineChoice::Pending => !config_file_exists,
            EngineChoice::Sqlite(path) => config_file_exists && config@.mode == "sqlite_embedded"@
                && path@ == sqlite_file(data_dir@, config@, separator),
            EngineChoice::SeekDb => config_file_exists && config@.mode != "sqlite_embedded"@,
        },
{
    if !config_file_exists {
        EngineChoice::Pending
    } else if same(config.mode.as_str(), "sqlite_embedded") {
        EngineChoice::Sqlite(sqlite_database_path(data_dir, config, separator))
    } else {
        EngineChoice::SeekDb
    }
}

/// The mode that is in effect once the engine was opened, and an error where SQLite stands in for
/// an engine that could not be opened.
pub fn effective_storage(config: &StorageConfig, failure: Option<String>) -> (r: (
    String,
    Option<String>,
))
    ensures
        match failure {
            None => r.0@ == config@.mode && r.1 is None,
            Some(error) => r.0@ == "sqlite_embedded"@ && opt_text(r.1) == Some(
                "Configured "@ + config@.mode
                    + " storage unavailable, degraded to embedded SQLite: "@ + error@,
            ),
        },
{
    match failure {
        None => (config.mode.clone(), None),
        Some(error) => (
            owned("sqlite_embedded"),
            Some(
                owned("Configured ").concat(config.mode.as_str()).concat(
                    " storage unavailable, degraded to embedded SQLite: ",
                ).concat(error.as_str()),
            ),
        ),
    }
}

/// Whether the storage can be written: a configuration file exists and could be used, the database
/// could be read, and the password that a server needs could be read.
pub fn storage_is_ready(
    config_file_exists: bool,
    config_ready: bool,
    database_ready: bool,
    credentials_ready: bool,
    config: &StorageConfig,
) -> (r: bool)
    ensures
        r == (config_file_exists && config_ready && database_ready && (!server_mode(config@.mode)
            || credentials_ready)),
{
    config_file_exists && database_ready && config_ready && (!is_server_mode(config.mode.as_str())
        || credentials_ready)
}

/// What a start writes to the storage.
#[derive(Debug, PartialEq, Eq, Structural, Clone, Copy)]
pub enum StartupWrite {
    /// Nothing: the storage is not writable.
    Nothing,
    /// Only the cleaning of the log.
    Cleanup,
    /// The repaired instances, then the cleaning of the log.
    Core,
    /// Everything that an earlier release kept in a file, then the cleaning of the log.
    Everything,
}

/// Decides what a start writes to the storage.
pub fn startup_write(storage_ready: bool, migrating: bool, repaired: bool) -> (r: StartupWrite)
    ensures
        r == (if !storage_ready {
            StartupWrite::Nothing
        } else if migrating {
            StartupWrite::Everything
        } else if repaired {
            StartupWrite::Core
        } else {
            StartupWrite::Cleanup
        }),
{
    if !storage_ready {
        StartupWrite::Nothing
    } else if migrating {
        StartupWrite::Everything
    } else if repaired {
        StartupWrite::Core
    } else {
        StartupWrite::Cleanup
    }
}

/// The greatest number among entries, or zero.
pub open spec fn greatest_sequence(logs: Seq<LogEntryView>) -> u64
    decreases logs.len(),
{
    if logs.len() == 0 {
        0
    } else {
        let n = greatest_sequence(logs.drop_last());
        if logs.last().sequence > n {
            logs.last().sequence
        } else {
            n
        }
    }
}

/// The number of the last entry: what the storage says where it is writable, else the greatest of
/// the entries at hand.
pub fn startup_sequence(stored: Option<u64>, logs: &Vec<LogEntry>) -> (n: u64)
    ensures
        n == (match stored {
            Some(sequence) => sequence,
            None => greatest_sequence(log_views(logs@)),
        }),
{
    match stored {
        Some(sequence) => sequence,
        None => {
            let ghost all = log_views(logs@);
            let mut n: u64 = 0;
            let mut i: usize = 0;
            proof {
                assert(all.take(0) =~= Seq::<LogEntryView>::empty());
            }
            while i < logs.len()
                invariant
                    i <= logs@.len(),
                    all == log_views(logs@),
                    n == greatest_sequence(all.take(i as int)),
                decreases logs@.len() - i,
            {
                proof {
                    assert(all.take(i + 1).drop_last() =~= all.take(i as int));
                    assert(all.take(i + 1).last() == logs@[i as int]@);
                }
                if logs[i].sequence > n {
                    n = logs[i].sequence;
                }
                i += 1;
            }
            proof {
                assert(all.take(i as int) =~= all);
            }
            n
        },
    }
}

/// The entries that are held after a start: none where the storage is writable, else the newest.
pub fn startup_logs(storage_ready: bool, logs: &mut Vec<LogEntry>)
    ensures
        final(logs)@ == (if storage_ready {
            seq![]
        } else {
            last_n(old(logs)@, MAX_PENDING_LOG_ENTRIES as nat)
        }),
{
    if storage_ready {
        logs.clear();
    } else {
        trim_pending_logs(logs);
    }
}

/// The errors of a start in one text.
pub fn startup_error(errors: &Vec<String>) -> (r: Option<String>)
    ensures
        opt_text(r) == (if errors@.len() == 0 {
            None
        } else {
            Some(join(texts(errors@), "\n"@))
        }),
{
    if errors.len() == 0 {
        None
    } else {
        Some(join_texts(errors, "\n"))
    }
}

// ---------------------------------------------------------------------------------------------
// Being ready
// ---------------------------------------------------------------------------------------------
/// Why the storage cannot be written.
pub open spec fn not_ready_message(error: Option<Seq<char>>) -> Seq<char> {
    match error {
        Some(message) => message,
        None => "Desktop storage not writable, please fix storage connection first"@,
    }
}

/// Refuses where the storage cannot be written.
pub fn ensure_storage_ready(ready: bool, error: Option<String>) -> (r: Result<(), String>)
    ensures
        match r {
            Ok(_) => ready,
            Err(message) => !ready && message@ == not_ready_message(opt_text(error)),
        },
{
    if ready {
        Ok(())
    } else {
        match error {
            Some(message) => Err(message),
            None => Err(owned("Desktop storage not writable, please fix storage connection first")),
        }
    }
}

/// Refuses where the storage can neither be written nor is still to be chosen.
pub fn ensure_storage_configurable(setup_required: bool, ready: bool, error: Option<String>) -> (r:
    Result<(), String>)
    ensures
        match r {
            Ok(_) => setup_required || ready,
            Err(message) => !setup_required && !ready && message@ == not_ready_message(
                opt_text(error),
            ),
        },
{
    if setup_required {
        Ok(())
    } else {
        ensure_storage_ready(ready, error)
    }
}

// ---------------------------------------------------------------------------------------------
// Changing the storage
// ---------------------------------------------------------------------------------------------
/// The days that runtime entries may stay.
pub open spec fn allowed_days(days: u32) -> bool {
    1 <= days <= 3_650
}

/// Refuses a number of days that is not allowed.
pub fn check_retention_days(days: u32) -> (r: Result<(), String>)
    ensures
        match r {
            Ok(_) => allowed_days(days),
            Err(message) => !allowed_days(days) && message@
                == "Runtime log retention days must be between 1 and 3650"@,
        },
{
    if 1 <= days && days <= 3_650 {
        Ok(())
    } else {
        Err(owned("Runtime log retention days must be between 1 and 3650"))
    }
}

/// A wanted configuration with the password of the current one, where it names none and is about
/// the same account.
pub open spec fn with_current_password(
    config: StorageConfigView,
    current: StorageConfigView,
) -> StorageConfigView {
    if config.password.len() == 0 && current.mode == config.mode && current.host == config.host
        && current.user == config.user {
        StorageConfigView { password: current.password, ..config }
    } else {
        config
    }
}

/// A wanted configuration, completed.
pub open spec fn completed_config(
    config: StorageConfigView,
    current: StorageConfigView,
    data_dir: Seq<char>,
    separator: char,
) -> StorageConfigView {
    let named = with_database(
        StorageConfigView { setup_completed: true, ..with_current_password(config, current) },
    );
    let kept = if allowed_days(named.runtime_log_retention_days) {
        named
    } else {
        StorageConfigView { runtime_log_retention_days: 7, ..named }
    };
    if embedded_mode(kept.mode) && trim(kept.path).len() == 0 {
        StorageConfigView {
            path: if kept.mode == "sqlite_embedded"@ {
                data_dir
            } else {
                join_path(separator, data_dir, "seekdb"@)
            },
            ..kept
        }
    } else {
        kept
    }
}

/// Completes a wanted configuration: password, name of the database, days and path. Refuses a mode
/// that does not exist.
pub fn complete_config(
    config: &StorageConfig,
    current: &StorageConfig,
    data_dir: &str,
    separator: char,
) -> (r:
    Result<StorageConfig, String>)
    ensures
        match r {
            Ok(out) => (embedded_mode(config@.mode) || server_mode(config@.mode)) && out@
                == completed_config(config@, current@, data_dir@, separator),
            Err(message) => !embedded_mode(config@.mode) && !server_mode(config@.mode) && message@
                == "Unsupported desktop storage type"@,
        },
{
    let mut out: StorageConfig = config.clone();
    if out.password.as_str().is_empty() && same(current.mode.as_str(), config.mode.as_str())
        && same(current.host.as_str(), config.host.as_str()) && same(
        current.user.as_str(),
        config.user.as_str(),
    ) {
        out.password = current.password.clone();
    }
    if !is_embedded_mode(out.mode.as_str()) && !is_server_mode(out.mode.as_str()) {
        return Err(owned("Unsupported desktop storage type"));
    }
    out.setup_completed = true;
    normalize_storage_database(&mut out);
    if !(1 <= out.runtime_log_retention_days && out.runtime_log_retention_days <= 3_650) {
        out.runtime_log_retention_days = default_runtime_log_retention_days();
    }
    if is_embedded_mode(out.mode.as_str()) {
        let path: String = trimmed(out.path.as_str());
        if path.as_str().is_empty() {
            out.path = if same(out.mode.as_str(), "sqlite_embedded") {
                owned(data_dir)
            } else {
                path_below(separator, data_dir, "seekdb")
            };
        }
    }
    proof {
        assert(out@ =~= completed_config(config@, current@, data_dir@, separator));
    }
    Ok(out)
}

/// Refuses a completed configuration whose directory is not absolute, or whose server is not named.
pub fn check_config(config: &StorageConfig, path_is_absolute: bool) -> (r: Result<(), String>)
    ensures
        match r {
            Ok(_) => (embedded_mode(config@.mode) ==> path_is_absolute) && (server_mode(
                config@.mode,
            ) ==> trim(config@.host).len() > 0),
            Err(message) => (embedded_mode(config@.mode) && !path_is_absolute && message@
                == "Embedded storage data directory must use an absolute path"@) || (server_mode(
                config@.mode,
            ) && trim(config@.host).len() == 0 && message@
                == "Server mode requires a host address"@),
        },
{
    if is_embedded_mode(config.mode.as_str()) && !path_is_absolute {
        return Err(owned("Embedded storage data directory must use an absolute path"));
    }
    if is_server_mode(config.mode.as_str()) {
        let host: String = trimmed(config.host.as_str());
        if host.as_str().is_empty() {
            return Err(owned("Server mode requires a host address"));
        }
    }
    Ok(())
}

/// Two configurations mean the same storage, given the mode that is in effect.
pub open spec fn same_target(
    current: StorageConfigView,
    effective_mode: Seq<char>,
    config: StorageConfigView,
) -> bool {
    effective_mode == config.mode && (if config.mode == "sqlite_embedded"@ {
        current.path == config.path
    } else if config.mode == "seekdb_embedded"@ {
        current.path == config.path && current.database == config.database
    } else {
        current.host == config.host && current.port == config.port && current.tenant
            == config.tenant && current.database == config.database && current.user == config.user
    })
}

/// Whether two configurations mean the same storage.
pub fn is_same_target(current: &StorageConfig, effective_mode: &str, config: &StorageConfig) -> (r:
    bool)
    ensures
        r == same_target(current@, effective_mode@, config@),
{
    if !same(effective_mode, config.mode.as_str()) {
        return false;
    }
    let same_path: bool = same(current.path.as_str(), config.path.as_str());
    let same_database: bool = same(current.database.as_str(), config.database.as_str());
    if same(config.mode.as_str(), "sqlite_embedded") {
        same_path
    } else if same(config.mode.as_str(), "seekdb_embedded") {
        same_path && same_database
    } else {
        same(current.host.as_str(), config.host.as_str()) && current.port == config.port && same(
            current.tenant.as_str(),
            config.tenant.as_str(),
        ) && same_database && same(current.user.as_str(), config.user.as_str())
    }
}

/// How much a storage holds.
#[derive(Debug)]
pub struct StoreCounts {
    pub instances: usize,
    pub vault: usize,
    pub logs: usize,
}

pub open spec fn counts_agree(a: StoreCounts, b: StoreCounts) -> bool {
    a.instances == b.instances && a.vault == b.vault && a.logs == b.logs
}

/// What is reported where a storage does not hold what was written to it.
pub open spec fn counts_message(expected: StoreCounts, actual: StoreCounts) -> Seq<char> {
    "Instances "@ + decimal(expected.instances as nat) + " -> "@ + decimal(actual.instances as nat)
        + ", Vault "@ + decimal(expected.vault as nat) + " -> "@ + decimal(actual.vault as nat)
        + ", Logs "@ + decimal(expected.logs as nat) + " -> "@ + decimal(actual.logs as nat)
}

/// What follows an attempt to read back what was written.
#[derive(Debug)]
pub enum VerifyStep {
    /// The storage holds what was written.
    Verified,
    /// Try again after so many milliseconds.
    RetryAfter(u64),
    /// Give up.
    Failed(String),
}

/// The milliseconds before the next attempt: each wait is twice as long as the one before.
pub open spec fn retry_delay(attempt: u32) -> u64
    decreases attempt,
{
    if attempt <= 1 {
        250
    } else {
        (2 * retry_delay((attempt - 1) as u32)) as u64
    }
}

/// Decides what follows attempt number `attempt`, counted from one, to read back what was written.
/// A server may confirm a write before a read shows it, so there are five attempts.
pub fn verify_storage_snapshot(
    attempt: u32,
    expected: &StoreCounts,
    read: Result<StoreCounts, String>,
) -> (step: VerifyStep)
    requires
        1 <= attempt <= 5,
    ensures
        match (step, read) {
            (VerifyStep::Verified, Ok(actual)) => counts_agree(*expected, actual),
            (VerifyStep::Verified, Err(_)) => false,
            (VerifyStep::RetryAfter(delay), Ok(actual)) => attempt < 5 && delay == retry_delay(
                attempt,
            ) && !counts_agree(*expected, actual),
            (VerifyStep::RetryAfter(delay), Err(_)) => attempt < 5 && delay == retry_delay(attempt),
            (VerifyStep::Failed(message), Ok(actual)) => attempt == 5 && !counts_agree(
                *expected,
                actual,
            ) && message@ == "Target storage validation failed: "@ + counts_message(
                *expected,
                actual,
            ),
            (VerifyStep::Failed(message), Err(error)) => attempt == 5 && message@
                == "Target storage validation failed: "@ + error@,
        },
{
    let problem: String = match read {
        Ok(actual) => {
            if actual.instances == expected.instances && actual.vault == expected.vault
                && actual.logs == expected.logs {
                return VerifyStep::Verified;
            }
            let mut text: String = owned("Instances ");
            text.append(decimal_text(expected.instances as u64).as_str());
            text.append(" -> ");
            text.append(decimal_text(actual.instances as u64).as_str());
            text.append(", Vault ");
            text.append(decimal_text(expected.vault as u64).as_str());
            text.append(" -> ");
            text.append(decimal_text(actual.vault as u64).as_str());
            text.append(", Logs ");
            text.append(decimal_text(expected.logs as u64).as_str());
            text.append(" -> ");
            text.append(decimal_text(actual.logs as u64).as_str());
            text
        },
        Err(error) => error,
    };
    if attempt < 5 {
        proof {
            reveal_with_fuel(retry_delay, 5);
        }
        let delay: u64 = if attempt == 1 {
            250
        } else if attempt == 2 {
            500
        } else if attempt == 3 {
            1_000
        } else {
            2_000
        };
        return VerifyStep::RetryAfter(delay);
    }
    VerifyStep::Failed(owned("Target storage validation failed: ").concat(problem.as_str()))
}

// ---------------------------------------------------------------------------------------------
// Reports
// ---------------------------------------------------------------------------------------------
/// The state of the storage, as it is shown.
#[derive(Debug)]
pub struct StorageStatus {
    pub mode: String,
    pub effective_mode: String,
    pub path: String,
    pub default_sqlite_path: String,
    pub default_seekdb_path: String,
    pub host: String,
    pub port: u16,
    pub tenant: String,
    pub database: String,
    pub default_database: String,
    pub user: String,
    pub password_configured: bool,
    pub runtime_log_retention_days: u32,
    pub setup_required: bool,
    pub writable: bool,
    pub error: Option<String>,
}

/// Describes the state of the storage. The password itself is not shown.
pub fn storage_status_value(
    config: &StorageConfig,
    effective_mode: &str,
    data_dir: &str,
    setup_required: bool,
    writable: bool,
    error: Option<String>,
    separator: char,
) -> (r: StorageStatus)
    ensures
        r.mode@ == config@.mode,
        r.effective_mode@ == effective_mode@,
        r.path@ == config@.path,
        r.default_sqlite_path@ == data_dir@,
        r.default_seekdb_path@ == join_path(separator, data_dir@, "seekdb"@),
        r.host@ == config@.host,
        r.port == config@.port,
        r.tenant@ == config@.tenant,
        r.database@ == config@.database,
        r.default_database@ == "agentseek_desktop"@,
        r.user@ == config@.user,
        r.password_configured == (config@.password.len() > 0),
        r.runtime_log_retention_days == config@.runtime_log_retention_days,
        r.setup_required == setup_required,
        r.writable == writable,
        r.error == error,
{
    let copy: StorageConfig = config.clone();
    StorageStatus {
        mode: copy.mode,
        effective_mode: owned(effective_mode),
        path: copy.path,
        default_sqlite_path: owned(data_dir),
        default_seekdb_path: path_below(separator, data_dir, "seekdb"),
        host: copy.host,
        port: copy.port,
        tenant: copy.tenant,
        database: copy.database,
        default_database: default_storage_database(),
        user: copy.user,
        password_configured: !config.password.as_str().is_empty(),
        runtime_log_retention_days: copy.runtime_log_retention_days,
        setup_required,
        writable,
        error,
    }
}

/// Where the data lies, and what kind of storage holds it.
pub open spec fn described_storage(
    effective_mode: Seq<char>,
    config: StorageConfigView,
    data_dir: Seq<char>,
    separator: char,
) -> (Seq<char>, Seq<char>) {
    if effective_mode == "seekdb_embedded"@ {
        (config.path, "Embedded SeekDB"@)
    } else if server_mode(effective_mode) {
        (
            config.host + ":"@ + decimal(config.port as nat) + " / "@ + config.database,
            "SeekDB / OceanBase Server"@,
        )
    } else {
        (sqlite_file(data_dir, config, separator), "Embedded SQLite"@)
    }
}

/// Describes where the data lies, and what kind of storage holds it.
pub fn describe_storage(
    effective_mode: &str,
    config: &StorageConfig,
    data_dir: &str,
    separator: char,
) -> (r: (
    String,
    String,
))
    ensures
        (r.0@, r.1@) == (
            described_storage(effective_mode@, config@, data_dir@, separator).0,
            described_storage(effective_mode@, config@, data_dir@, separator).1
                + " (desktop state only; isolated from template instances)"@,
        ),
{
    let (path, kind): (String, &str) = if same(effective_mode, "seekdb_embedded") {
        (config.path.clone(), "Embedded SeekDB")
    } else if is_server_mode(effective_mode) {
        let mut text: String = config.host.clone();
        text.append(":");
        text.append(decimal_text(config.port as u64).as_str());
        text.append(" / ");
        text.append(config.database.as_str());
        (text, "SeekDB / OceanBase Server")
    } else {
        (sqlite_database_path(data_dir, config, separator), "Embedded SQLite")
    };
    (path, owned(kind).concat(" (desktop state only; isolated from template instances)"))
}

// ---------------------------------------------------------------------------------------------
// The private runtime of SeekDB
// ---------------------------------------------------------------------------------------------
/// The arguments of `uv` that make the Python environment of SeekDB.
pub open spec fn environment_args(directory: Seq<char>) -> Seq<Seq<char>> {
    seq!["venv"@, directory, "--python"@, "3.12"@]
}

/// The arguments of `uv` that make the Python environment of SeekDB; none where its interpreter is
/// there.
pub fn seekdb_environment_command(python_exists: bool, directory: &str) -> (r: Option<Vec<String>>)
    ensures
        match r {
            Some(args) => !python_exists && texts(args@) == environment_args(directory@),
            None => python_exists,
        },
{
    if python_exists {
        return None;
    }
    let mut args: Vec<String> = Vec::new();
    args.push(owned("venv"));
    args.push(owned(directory));
    args.push(owned("--python"));
    args.push(owned("3.12"));
    proof {
        assert(texts(args@) =~= environment_args(directory@));
    }
    Some(args)
}

/// The arguments of `uv` that install the client of SeekDB for an interpreter.
pub open spec fn client_args(python: Seq<char>) -> Seq<Seq<char>> {
    seq!["pip"@, "install"@, "--python"@, python, "pyseekdb==1.4.0"@]
}

/// The arguments of `uv` that install the client of SeekDB; none where the mark says that it is
/// there.
pub fn seekdb_client_command(mark_exists: bool, python: &str) -> (r: Option<Vec<String>>)
    ensures
        match r {
            Some(args) => !mark_exists && texts(args@) == client_args(python@),
            None => mark_exists,
        },
{
    if mark_exists {
        return None;
    }
    let mut args: Vec<String> = Vec::new();
    args.push(owned("pip"));
    args.push(owned("install"));
    args.push(owned("--python"));
    args.push(owned(python));
    args.push(owned("pyseekdb==1.4.0"));
    proof {
        assert(texts(args@) =~= client_args(python@));
    }
    Some(args)
}

} // verus!
