//! The log: its entries, what they may show, and how long they stay.
use vstd::prelude::*;
use vstd::string::*;

use crate::env::{env_views, is_secret_env_key, secret_key, EnvVariable, EnvVariableView};
use crate::model::{
    instance_views, log_views, AppStore, AppStoreView, InstanceRecord, InstanceRecordView, LogEntry,
    LogEntryView,
};
use crate::number::{decimal, decimal_text};
use crate::search::{at, contains, find, lemma_find};
use crate::split::{replace_all, replaced};
use crate::text::{
    byte_len, chars_of, list_has_text, opt_text, owned, same, text_of_range, texts, utf8_length,
    width_of,
};

verus! {

/// The number of entries above which old ones are removed.
pub const MAX_LOG_ENTRIES: usize = 100_000;

/// The days that the log of a deleted instance stays.
pub const DELETED_INSTANCE_LOG_RETENTION_DAYS: u32 = 7;

pub const SECONDS_PER_DAY: u64 = 86_400;

/// How many entries more than needed are removed at a time.
pub const LOG_CLEANUP_BATCH_SIZE: usize = 1_000;

/// The number of entries that are held while the storage is not writable.
pub const MAX_PENDING_LOG_ENTRIES: usize = 1_000;

/// The number of bytes above which a text of the log is cut.
pub const MAX_LOG_TEXT_BYTES: usize = 65_536;

// ---------------------------------------------------------------------------------------------
// The length of a text
// ---------------------------------------------------------------------------------------------
/// The longest start of `s`, in whole characters, that takes at most `max` bytes.
pub open spec fn fitting_start(s: Seq<char>, max: nat) -> Seq<char>
    decreases s.len(),
{
    if s.len() == 0 || byte_len(s) <= max {
        s
    } else {
        fitting_start(s.drop_last(), max)
    }
}

/// A text of the log, cut where it is too long.
pub open spec fn capped(s: Seq<char>) -> Seq<char> {
    if byte_len(s) <= MAX_LOG_TEXT_BYTES {
        s
    } else {
        fitting_start(s, MAX_LOG_TEXT_BYTES as nat) + "\n...[log content truncated]"@
    }
}

/// Cuts a text of the log at a character boundary where it is too long.
pub fn truncate_log_text(value: String) -> (out: String)
    ensures
        out@ == capped(value@),
{
    let mut n: u128 = utf8_length(value.as_str());
    if n <= MAX_LOG_TEXT_BYTES as u128 {
        return value;
    }
    let s: Vec<char> = chars_of(value.as_str());
    let mut end: usize = s.len();
    proof {
        assert(s@.take(end as int) =~= s@);
    }
    while end > 0 && n > MAX_LOG_TEXT_BYTES as u128
        invariant
            end <= s@.len(),
            s@ == value@,
            n == byte_len(s@.take(end as int)),
            fitting_start(s@, MAX_LOG_TEXT_BYTES as nat) == fitting_start(
                s@.take(end as int),
                MAX_LOG_TEXT_BYTES as nat,
            ),
        decreases end,
    {
        proof {
            assert(s@.take(end as int).drop_last() =~= s@.take(end - 1));
            assert(s@.take(end as int).last() == s@[end - 1]);
        }
        n = n - width_of(s[end - 1]) as u128;
        end -= 1;
    }
    let mut out: String = text_of_range(&s, 0, end);
    proof {
        assert(out@ =~= s@.take(end as int));
    }
    out.append("\n...[log content truncated]");
    out
}

/// The start that is kept of a long text takes at most `max` bytes, is a start of the text in whole
/// characters, and the next character would not have fitted.
pub proof fn lemma_fitting_start(s: Seq<char>, max: nat)
    ensures
        byte_len(fitting_start(s, max)) <= max,
        fitting_start(s, max).len() <= s.len(),
        fitting_start(s, max) == s.take(fitting_start(s, max).len() as int),
        fitting_start(s, max).len() < s.len() ==> byte_len(
            s.take(fitting_start(s, max).len() as int + 1),
        ) > max,
    decreases s.len(),
{
    if s.len() == 0 || byte_len(s) <= max {
        assert(s.take(s.len() as int) =~= s);
    } else {
        lemma_fitting_start(s.drop_last(), max);
        let n = fitting_start(s, max).len() as int;
        assert(s.drop_last().take(n) =~= s.take(n));
        if n + 1 < s.len() {
            assert(s.drop_last().take(n + 1) =~= s.take(n + 1));
        } else {
            assert(s.take(n + 1) =~= s);
        }
    }
}

/// No text of the log takes more bytes than the limit and the note behind a cut text.
pub proof fn law_capped_length(s: Seq<char>)
    ensures
        byte_len(capped(s)) <= MAX_LOG_TEXT_BYTES + byte_len("\n...[log content truncated]"@),
{
    lemma_fitting_start(s, MAX_LOG_TEXT_BYTES as nat);
    lemma_byte_len_concat(
        fitting_start(s, MAX_LOG_TEXT_BYTES as nat),
        "\n...[log content truncated]"@,
    );
}

pub proof fn lemma_byte_len_concat(a: Seq<char>, b: Seq<char>)
    ensures
        byte_len(a + b) == byte_len(a) + byte_len(b),
    decreases b.len(),
{
    if b.len() == 0 {
        assert(a + b =~= a);
    } else {
        assert((a + b).drop_last() =~= a + b.drop_last());
        lemma_byte_len_concat(a, b.drop_last());
    }
}

// ---------------------------------------------------------------------------------------------
// Secrets
// ---------------------------------------------------------------------------------------------
/// A variable whose value may not stand in the log.
pub open spec fn hidden(entry: EnvVariableView) -> bool {
    secret_key(entry.key) && byte_len(entry.value) >= 4
}

/// A text in which stars stand for the secrets of the vault.
pub open spec fn redacted(vault: Seq<EnvVariableView>, text: Seq<char>) -> Seq<char>
    decreases vault.len(),
{
    if vault.len() == 0 {
        text
    } else {
        let before = redacted(vault.drop_last(), text);
        if hidden(vault.last()) {
            replace_all(before, vault.last().value, "******"@)
        } else {
            before
        }
    }
}

/// Replaces the secrets of the vault in a text by stars, and cuts the text where it is too long.
pub fn redact_log_text(vault: &Vec<EnvVariable>, value: String) -> (out: String)
    ensures
        out@ == capped(redacted(env_views(vault@), value@)),
{
    let ghost all = env_views(vault@);
    let mut text: String = value.clone();
    let mut i: usize = 0;
    proof {
        assert(all.take(0) =~= Seq::<EnvVariableView>::empty());
    }
    while i < vault.len()
        invariant
            i <= vault@.len(),
            all == env_views(vault@),
            text@ == redacted(all.take(i as int), value@),
        decreases vault@.len() - i,
    {
        proof {
            assert(all.take(i + 1).drop_last() =~= all.take(i as int));
            assert(all.take(i + 1).last() == vault@[i as int]@);
        }
        if is_secret_env_key(vault[i].key.as_str()) && utf8_length(vault[i].value.as_str()) >= 4 {
            text = replaced(text.as_str(), vault[i].value.as_str(), "******");
        }
        i += 1;
    }
    proof {
        assert(all.take(i as int) =~= all);
    }
    truncate_log_text(text)
}

/// `a` and `b` have no character in common.
pub open spec fn disjoint(a: Seq<char>, b: Seq<char>) -> bool {
    forall|i: int, j: int| 0 <= i < a.len() && 0 <= j < b.len() ==> a[i] != b[j]
}

/// An occurrence across the parts of `left + to + right` lies in `left` or in `right` where `to`
/// has no character of the pattern.
proof fn lemma_occurrence_beside(
    left: Seq<char>,
    to: Seq<char>,
    right: Seq<char>,
    pat: Seq<char>,
    p: int,
)
    requires
        pat.len() > 0,
        to.len() > 0,
        disjoint(pat, to),
        at(left + to + right, pat, p),
    ensures
        at(left, pat, p) || at(right, pat, p - left.len() - to.len()),
{
    let whole = left + to + right;
    assert forall|k: int| 0 <= k < pat.len() implies whole[p + k] == pat[k] by {
        assert(whole.subrange(p, p + pat.len())[k] == pat[k]);
    }
    let i = left.len() as int;
    if p + pat.len() <= i {
        assert(left.subrange(p, p + pat.len()) =~= pat);
    } else if p >= i + to.len() {
        let q = p - i - to.len();
        assert(right.subrange(q, q + pat.len()) =~= pat);
    } else {
        let j = if p < i {
            i
        } else {
            p
        };
        assert(whole[j] == to[j - i]);
        assert(whole[p + (j - p)] == pat[j - p]);
        assert(false);
    }
}

/// What stands behind position `k` of a text stands in the text.
proof fn lemma_contains_skip(s: Seq<char>, pat: Seq<char>, k: int)
    requires
        0 <= k <= s.len(),
        contains(s.skip(k), pat),
    ensures
        contains(s, pat),
{
    let i = choose|i: int| at(s.skip(k), pat, i);
    assert(s.subrange(i + k, i + k + pat.len()) =~= s.skip(k).subrange(i, i + pat.len()));
    assert(at(s, pat, i + k));
}

/// Replacing one text brings up no other text that shares no character with the replacement.
pub proof fn lemma_replace_brings_up_nothing(
    s: Seq<char>,
    from: Seq<char>,
    to: Seq<char>,
    pat: Seq<char>,
)
    requires
        pat.len() > 0,
        from.len() > 0,
        to.len() > 0,
        disjoint(pat, to),
        !contains(s, pat),
    ensures
        !contains(replace_all(s, from, to), pat),
    decreases s.len(),
{
    lemma_find(s, from);
    match find(s, from) {
        None => {},
        Some(i) => {
            let rest = s.skip(i + from.len());
            if contains(rest, pat) {
                lemma_contains_skip(s, pat, i + from.len());
            }
            lemma_replace_brings_up_nothing(rest, from, to, pat);
            let r = replace_all(rest, from, to);
            if contains(s.take(i) + to + r, pat) {
                let p = choose|p: int| at(s.take(i) + to + r, pat, p);
                lemma_occurrence_beside(s.take(i), to, r, pat, p);
                if at(s.take(i), pat, p) {
                    assert(s.subrange(p, p + pat.len()) =~= s.take(i).subrange(p, p + pat.len()));
                    assert(at(s, pat, p));
                }
            }
        },
    }
}

/// A text that was replaced is gone where the replacement shares no character with it.
pub proof fn lemma_replaced_is_gone(s: Seq<char>, from: Seq<char>, to: Seq<char>)
    requires
        from.len() > 0,
        to.len() > 0,
        disjoint(from, to),
    ensures
        !contains(replace_all(s, from, to), from),
    decreases s.len(),
{
    lemma_find(s, from);
    match find(s, from) {
        None => {},
        Some(i) => {
            let rest = s.skip(i + from.len());
            lemma_replaced_is_gone(rest, from, to);
            let r = replace_all(rest, from, to);
            if contains(s.take(i) + to + r, from) {
                let p = choose|p: int| at(s.take(i) + to + r, from, p);
                lemma_occurrence_beside(s.take(i), to, r, from, p);
                if at(s.take(i), from, p) {
                    assert(s.subrange(p, p + from.len()) =~= s.take(i).subrange(p, p + from.len()));
                    assert(at(s, from, p));
                }
            }
        },
    }
}

/// No secret of the vault stands in a redacted text, nor in any start of it, unless the secret
/// itself holds a star.
pub proof fn law_redacted_text_holds_no_secret(
    vault: Seq<EnvVariableView>,
    text: Seq<char>,
    k: int,
    n: int,
)
    requires
        0 <= k < vault.len(),
        hidden(vault[k]),
        !vault[k].value.contains('*'),
        0 <= n <= redacted(vault, text).len(),
    ensures
        !contains(redacted(vault, text), vault[k].value),
        !contains(redacted(vault, text).take(n), vault[k].value),
    decreases vault.len(),
{
    reveal_strlit("******");
    let secret = vault[k].value;
    let stars = "******"@;
    assert(secret.len() > 0) by {
        if secret.len() == 0 {
            assert(byte_len(secret) == 0);
        }
    }
    assert forall|i: int, j: int| 0 <= i < secret.len() && 0 <= j < stars.len() implies secret[i]
        != stars[j] by {
        assert(secret.contains(secret[i]));
    }
    let before = redacted(vault.drop_last(), text);
    if k == vault.len() - 1 {
        lemma_replaced_is_gone(before, secret, stars);
    } else {
        law_redacted_text_holds_no_secret(vault.drop_last(), text, k, 0);
        if hidden(vault.last()) {
            assert(vault.last().value.len() > 0) by {
                if vault.last().value.len() == 0 {
                    assert(byte_len(vault.last().value) == 0);
                }
            }
            lemma_replace_brings_up_nothing(before, vault.last().value, stars, secret);
        }
    }
    let whole = redacted(vault, text);
    if contains(whole.take(n), secret) {
        let p = choose|p: int| at(whole.take(n), secret, p);
        assert(whole.subrange(p, p + secret.len()) =~= whole.take(n).subrange(p, p + secret.len()));
        assert(at(whole, secret, p));
    }
}

// ---------------------------------------------------------------------------------------------
// New entries
// ---------------------------------------------------------------------------------------------
/// The next number in the log.
pub open spec fn next_sequence(sequence: u64) -> u64 {
    if sequence == u64::MAX {
        sequence
    } else {
        (sequence + 1) as u64
    }
}

/// The entry that a message makes: its texts are redacted, its id is made of its time and number.
pub open spec fn entry_view(
    vault: Seq<EnvVariableView>,
    instance_id: Option<Seq<char>>,
    instance_name: Seq<char>,
    category: Seq<char>,
    level: Seq<char>,
    message: Seq<char>,
    command: Option<Seq<char>>,
    now: u64,
    sequence: u64,
) -> LogEntryView {
    LogEntryView {
        id: "log-"@ + decimal(now as nat) + "-"@ + decimal(sequence as nat),
        instance_id,
        instance_name,
        category,
        level,
        message: capped(redacted(vault, message)),
        command: match command {
            Some(c) => Some(capped(redacted(vault, c))),
            None => None,
        },
        created_at: now,
        sequence,
    }
}

/// Makes the next entry of the log.
pub fn log(
    vault: &Vec<EnvVariable>,
    last_sequence: &mut u64,
    instance_id: Option<String>,
    instance_name: &str,
    category: &str,
    level: &str,
    message: String,
    command: Option<String>,
    now: u64,
) -> (entry: LogEntry)
    ensures
        *final(last_sequence) == next_sequence(*old(last_sequence)),
        entry@ == entry_view(
            env_views(vault@),
            opt_text(instance_id),
            instance_name@,
            category@,
            level@,
            message@,
            opt_text(command),
            now,
            next_sequence(*old(last_sequence)),
        ),
{
    if *last_sequence < u64::MAX {
        *last_sequence = *last_sequence + 1;
    }
    let sequence: u64 = *last_sequence;
    let id: String = owned("log-").concat(decimal_text(now).as_str()).concat("-").concat(
        decimal_text(sequence).as_str(),
    );
    let redacted_command: Option<String> = match command {
        Some(c) => Some(redact_log_text(vault, c)),
        None => None,
    };
    LogEntry {
        id,
        instance_id,
        instance_name: owned(instance_name),
        category: owned(category),
        level: owned(level),
        message: redact_log_text(vault, message),
        command: redacted_command,
        created_at: now,
        sequence,
    }
}

/// Whether the log is cleaned up after this entry was stored.
pub fn cleanup_is_due(sequence: u64) -> (r: bool)
    ensures
        r == (sequence % 100 == 0),
{
    sequence % 100 == 0
}

/// The last `n` elements of a list.
pub open spec fn last_n<T>(list: Seq<T>, n: nat) -> Seq<T> {
    if list.len() <= n {
        list
    } else {
        list.skip(list.len() - n)
    }
}

/// What is done with an entry once the storage was asked to take it.
#[derive(Debug, PartialEq, Eq, Structural, Clone, Copy)]
pub enum StoreStep {
    /// It is stored.
    Stored,
    /// It is stored, and a cleanup follows.
    StoredAndCleanUp,
    /// The storage is asked once more.
    AskAgain,
    /// It waits with the entries that are not stored.
    Keep,
}

/// What is done with an entry once the storage was asked to take it, for the first time or again.
/// A storage that says that it is ready is asked twice.
pub fn store_step(stored: bool, again: bool, ready: bool, sequence: u64) -> (step: StoreStep)
    ensures
        step == (if stored && !again && sequence % 100 == 0 {
            StoreStep::StoredAndCleanUp
        } else if stored {
            StoreStep::Stored
        } else if !again && ready {
            StoreStep::AskAgain
        } else {
            StoreStep::Keep
        }),
{
    if stored && !again && cleanup_is_due(sequence) {
        StoreStep::StoredAndCleanUp
    } else if stored {
        StoreStep::Stored
    } else if !again && ready {
        StoreStep::AskAgain
    } else {
        StoreStep::Keep
    }
}

/// Holds on to the newest entries only.
pub fn trim_pending_logs(logs: &mut Vec<LogEntry>)
    ensures
        final(logs)@ == last_n(old(logs)@, MAX_PENDING_LOG_ENTRIES as nat),
{
    if logs.len() > MAX_PENDING_LOG_ENTRIES {
        let start: usize = logs.len() - MAX_PENDING_LOG_ENTRIES;
        let rest: Vec<LogEntry> = logs.split_off(start);
        proof {
            assert(rest@ =~= old(logs)@.skip(start as int));
        }
        *logs = rest;
    }
}

/// Holds on to an entry that could not be stored, and to the newest of the others.
pub fn push_pending_log(logs: &mut Vec<LogEntry>, entry: LogEntry)
    ensures
        final(logs)@ == last_n(old(logs)@.push(entry), MAX_PENDING_LOG_ENTRIES as nat),
{
    logs.push(entry);
    trim_pending_logs(logs);
}

// ---------------------------------------------------------------------------------------------
// Old entries
// ---------------------------------------------------------------------------------------------
/// The ids of instances.
pub open spec fn instance_ids(instances: Seq<InstanceRecordView>) -> Seq<Seq<char>> {
    instances.map_values(|i: InstanceRecordView| i.id)
}

/// The ids of log entries.
pub open spec fn log_ids(logs: Seq<LogEntryView>) -> Seq<Seq<char>> {
    logs.map_values(|l: LogEntryView| l.id)
}

/// The time before which something that stays for `days` has expired.
pub open spec fn cutoff(now: u64, days: nat) -> int {
    if now >= days * SECONDS_PER_DAY {
        now - days * SECONDS_PER_DAY
    } else {
        0
    }
}

/// The days that runtime entries stay: at least one.
pub open spec fn runtime_days(days: u32) -> nat {
    if days < 1 {
        1
    } else {
        days as nat
    }
}

/// The instance of an entry is not among the active ones.
pub open spec fn of_deleted_instance(log: LogEntryView, active: Seq<Seq<char>>) -> bool {
    match log.instance_id {
        Some(id) => !active.contains(id),
        None => false,
    }
}

/// An entry that time has not removed: not one of a deleted instance past its days, nor a runtime
/// entry past its days.
pub open spec fn within_retention(
    log: LogEntryView,
    active: Seq<Seq<char>>,
    days: u32,
    now: u64,
) -> bool {
    &&& !(of_deleted_instance(log, active) && log.created_at < cutoff(
        now,
        DELETED_INSTANCE_LOG_RETENTION_DAYS as nat,
    ))
    &&& log.category == "runtime"@ ==> log.created_at >= cutoff(now, runtime_days(days))
}

/// An entry that may go when there are too many: one of a runtime or of a deleted instance.
pub open spec fn expendable(log: LogEntryView, active: Seq<Seq<char>>) -> bool {
    log.category == "runtime"@ || of_deleted_instance(log, active)
}

pub open spec fn retained(active: Seq<Seq<char>>, days: u32, now: u64) -> spec_fn(
    LogEntryView,
) -> bool {
    |l: LogEntryView| within_retention(l, active, days, now)
}

pub open spec fn expired(active: Seq<Seq<char>>, days: u32, now: u64) -> spec_fn(
    LogEntryView,
) -> bool {
    |l: LogEntryView| !within_retention(l, active, days, now)
}

pub open spec fn expendables(active: Seq<Seq<char>>) -> spec_fn(LogEntryView) -> bool {
    |l: LogEntryView| expendable(l, active)
}

pub open spec fn id_in(ids: Seq<Seq<char>>) -> spec_fn(LogEntryView) -> bool {
    |l: LogEntryView| ids.contains(l.id)
}

pub open spec fn id_not_in(ids: Seq<Seq<char>>) -> spec_fn(LogEntryView) -> bool {
    |l: LogEntryView| !ids.contains(l.id)
}

/// The ids of the entries that go because there are too many: those of the oldest expendable ones.
pub open spec fn surplus_ids(logs: Seq<LogEntryView>, active: Seq<Seq<char>>) -> Seq<Seq<char>> {
    let n = surplus_of_count(logs.len());
    let candidates = log_ids(logs.filter(expendables(active)));
    if n == 0 {
        seq![]
    } else if candidates.len() <= n {
        candidates
    } else {
        candidates.take(n as int)
    }
}

/// The entries that stay, and the ids of those that go.
pub open spec fn pruned(
    logs: Seq<LogEntryView>,
    active: Seq<Seq<char>>,
    days: u32,
    now: u64,
) -> (Seq<LogEntryView>, Seq<Seq<char>>) {
    let first = logs.filter(retained(active, days, now));
    let gone = log_ids(logs.filter(expired(active, days, now)));
    let surplus = surplus_ids(first, active);
    (first.filter(id_not_in(surplus)), gone + log_ids(first.filter(id_in(surplus))))
}

/// The ids of a list of instances.
pub fn ids_of_instances(instances: &Vec<InstanceRecord>) -> (out: Vec<String>)
    ensures
        texts(out@) == instance_ids(instance_views(instances@)),
{
    let mut out: Vec<String> = Vec::new();
    let mut i: usize = 0;
    while i < instances.len()
        invariant
            i <= instances@.len(),
            out@.len() == i,
            forall|k: int| 0 <= k < i ==> (#[trigger] out@[k])@ == instances@[k].id@,
        decreases instances@.len() - i,
    {
        out.push(instances[i].id.clone());
        i += 1;
    }
    proof {
        assert(texts(out@) =~= instance_ids(instance_views(instances@)));
    }
    out
}

fn is_of_deleted_instance(log: &LogEntry, active: &Vec<String>) -> (r: bool)
    ensures
        r == of_deleted_instance(log@, texts(active@)),
{
    match &log.instance_id {
        Some(id) => !list_has_text(active, id),
        None => false,
    }
}

fn time_before(now: u64, days: u64) -> (r: u64)
    requires
        days <= u32::MAX,
    ensures
        r == cutoff(now, days as nat),
{
    let span: u64 = days * SECONDS_PER_DAY;
    if now >= span {
        now - span
    } else {
        0
    }
}

/// The times before which entries have expired.
#[derive(Debug, PartialEq, Eq, Structural, Clone, Copy)]
pub struct LogCutoffs {
    /// The one of runtime entries.
    pub runtime: u64,
    /// The one of the entries of deleted instances.
    pub deleted: u64,
}

/// The cutoffs of a cleanup at the time `now`.
pub fn log_cutoffs(runtime_retention_days: u32, now: u64) -> (r: LogCutoffs)
    ensures
        r.runtime == cutoff(now, runtime_days(runtime_retention_days)),
        r.deleted == cutoff(now, DELETED_INSTANCE_LOG_RETENTION_DAYS as nat),
{
    let days: u64 = if runtime_retention_days < 1 {
        1
    } else {
        runtime_retention_days as u64
    };
    LogCutoffs {
        runtime: time_before(now, days),
        deleted: time_before(now, DELETED_INSTANCE_LOG_RETENTION_DAYS as u64),
    }
}

/// How many expendable entries go at most when `count` entries are kept.
pub open spec fn surplus_of_count(count: nat) -> nat {
    if count > MAX_LOG_ENTRIES {
        (count - MAX_LOG_ENTRIES + LOG_CLEANUP_BATCH_SIZE) as nat
    } else {
        0
    }
}

/// How many expendable entries go at most when `count` entries are kept.
pub fn surplus_entries(count: usize) -> (n: usize)
    ensures
        n == surplus_of_count(count as nat),
{
    if count > MAX_LOG_ENTRIES {
        count - MAX_LOG_ENTRIES + LOG_CLEANUP_BATCH_SIZE
    } else {
        0
    }
}

/// A cleanup that removed this many entries is followed by a full compaction of the database.
pub fn compacts_after(removed: usize) -> (r: bool)
    ensures
        r == (removed >= 10_000),
{
    removed >= 10_000
}

/// Removes the entries that have expired and, where too many are left, the oldest expendable ones.
/// Returns the ids of what was removed.
pub fn prune_logs(data: &mut AppStore, runtime_retention_days: u32, now: u64) -> (removed: Vec<
    String,
>)
    ensures
        final(data)@ == (AppStoreView {
            logs: pruned(
                old(data)@.logs,
                instance_ids(old(data)@.instances),
                runtime_retention_days,
                now,
            ).0,
            ..old(data)@
        }),
        texts(removed@) == pruned(
            old(data)@.logs,
            instance_ids(old(data)@.instances),
            runtime_retention_days,
            now,
        ).1,
{
    let active: Vec<String> = ids_of_instances(&data.instances);
    let ghost ids = texts(active@);
    let ghost all = data@.logs;
    let cutoffs: LogCutoffs = log_cutoffs(runtime_retention_days, now);
    let runtime_cutoff: u64 = cutoffs.runtime;
    let deleted_cutoff: u64 = cutoffs.deleted;
    let ghost keep = retained(ids, runtime_retention_days, now);
    let ghost drop = expired(ids, runtime_retention_days, now);
    let mut kept: Vec<LogEntry> = Vec::new();
    let mut removed: Vec<String> = Vec::new();
    let mut i: usize = 0;
    proof {
        reveal(Seq::filter);
        assert(all.take(0) =~= Seq::<LogEntryView>::empty());
        assert(log_views(kept@) =~= all.take(0).filter(keep));
        assert(texts(removed@) =~= log_ids(all.take(0).filter(drop)));
    }
    while i < data.logs.len()
        invariant
            *data == *old(data),
            all == log_views(data.logs@),
            i <= data.logs@.len(),
            ids == texts(active@),
            keep == retained(ids, runtime_retention_days, now),
            drop == expired(ids, runtime_retention_days, now),
            runtime_cutoff == cutoff(now, runtime_days(runtime_retention_days)),
            deleted_cutoff == cutoff(now, DELETED_INSTANCE_LOG_RETENTION_DAYS as nat),
            log_views(kept@) == all.take(i as int).filter(keep),
            texts(removed@) == log_ids(all.take(i as int).filter(drop)),
        decreases data.logs@.len() - i,
    {
        let ghost entry = data.logs@[i as int]@;
        let ghost before_kept = log_views(kept@);
        let ghost before_gone = all.take(i as int).filter(drop);
        proof {
            reveal(Seq::filter);
            assert(all.take(i + 1).drop_last() =~= all.take(i as int));
            assert(all.take(i + 1).last() == entry);
        }
        let is_runtime: bool = same(data.logs[i].category.as_str(), "runtime");
        let stays: bool = !(is_of_deleted_instance(&data.logs[i], &active)
            && data.logs[i].created_at < deleted_cutoff) && (!is_runtime || data.logs[i].created_at
            >= runtime_cutoff);
        if stays {
            kept.push(data.logs[i].clone());
            proof {
                assert(log_views(kept@) =~= before_kept.push(entry));
                assert(keep(entry) && !drop(entry));
            }
        } else {
            let ghost gone = texts(removed@);
            removed.push(data.logs[i].id.clone());
            proof {
                assert(!keep(entry) && drop(entry));
                assert(texts(removed@) =~= gone.push(entry.id));
                assert(log_ids(before_gone.push(entry)) =~= log_ids(before_gone).push(entry.id));
            }
        }
        i += 1;
    }
    proof {
        assert(all.take(i as int) =~= all);
    }
    let ghost gone = texts(removed@);
    let surplus: Vec<String> = surplus_of(&kept, &active);
    let kept_logs: Vec<LogEntry> = without_ids(kept, &surplus, &mut removed);
    data.logs = kept_logs;
    proof {
        assert(data@ =~= AppStoreView {
            logs: pruned(all, ids, runtime_retention_days, now).0,
            ..old(data)@
        });
    }
    removed
}

fn surplus_of(logs: &Vec<LogEntry>, active: &Vec<String>) -> (out: Vec<String>)
    ensures
        texts(out@) == surplus_ids(log_views(logs@), texts(active@)),
{
    let ghost all = log_views(logs@);
    let ghost wanted = expendables(texts(active@));
    let mut out: Vec<String> = Vec::new();
    proof {
        assert(texts(out@) =~= Seq::<Seq<char>>::empty());
    }
    let n: usize = surplus_entries(logs.len());
    if n == 0 {
        return out;
    }
    let mut i: usize = 0;
    proof {
        reveal(Seq::filter);
        assert(all.take(0) =~= Seq::<LogEntryView>::empty());
        assert(texts(out@) =~= log_ids(all.take(0).filter(wanted)));
    }
    while i < logs.len() && out.len() < n
        invariant
            i <= logs@.len(),
            all == log_views(logs@),
            wanted == expendables(texts(active@)),
            out@.len() <= n,
            texts(out@) == log_ids(all.take(i as int).filter(wanted)),
        decreases logs@.len() - i,
    {
        let ghost entry = logs@[i as int]@;
        let ghost before = all.take(i as int).filter(wanted);
        proof {
            reveal(Seq::filter);
            assert(all.take(i + 1).drop_last() =~= all.take(i as int));
            assert(all.take(i + 1).last() == entry);
        }
        if same(logs[i].category.as_str(), "runtime") || is_of_deleted_instance(&logs[i], active) {
            let ghost found = texts(out@);
            out.push(logs[i].id.clone());
            proof {
                assert(wanted(entry));
                assert(texts(out@) =~= found.push(entry.id));
                assert(log_ids(before.push(entry)) =~= log_ids(before).push(entry.id));
            }
        } else {
            proof {
                assert(!wanted(entry));
            }
        }
        i += 1;
    }
    proof {
        let k = i as int;
        assert(all =~= all.take(k) + all.skip(k));
        Seq::filter_distributes_over_add(all.take(k), all.skip(k), wanted);
        let found = all.take(k).filter(wanted);
        let candidates = log_ids(all.filter(wanted));
        assert(out@.len() == found.len());
        if i == logs@.len() {
            assert(all.take(k) =~= all);
            if candidates.len() <= n {
            } else {
                assert(false);
            }
        } else {
            assert(found.len() == n);
            assert(candidates.take(n as int) =~= log_ids(found));
            if candidates.len() <= n {
                assert(candidates =~= candidates.take(n as int));
            }
        }
    }
    out
}

/// Parts the entries with one of `ids` from the others; the ids of the former join `removed`.
fn without_ids(logs: Vec<LogEntry>, ids: &Vec<String>, removed: &mut Vec<String>) -> (out: Vec<
    LogEntry,
>)
    ensures
        log_views(out@) == log_views(logs@).filter(id_not_in(texts(ids@))),
        texts(final(removed)@) == texts(old(removed)@) + log_ids(
            log_views(logs@).filter(id_in(texts(ids@))),
        ),
{
    let ghost all = log_views(logs@);
    let ghost keep = id_not_in(texts(ids@));
    let ghost drop = id_in(texts(ids@));
    let mut out: Vec<LogEntry> = Vec::new();
    let mut i: usize = 0;
    proof {
        reveal(Seq::filter);
        assert(all.take(0) =~= Seq::<LogEntryView>::empty());
        assert(log_views(out@) =~= all.take(0).filter(keep));
        assert(texts(removed@) =~= texts(old(removed)@) + log_ids(all.take(0).filter(drop)));
    }
    while i < logs.len()
        invariant
            i <= logs@.len(),
            all == log_views(logs@),
            keep == id_not_in(texts(ids@)),
            drop == id_in(texts(ids@)),
            log_views(out@) == all.take(i as int).filter(keep),
            texts(removed@) == texts(old(removed)@) + log_ids(all.take(i as int).filter(drop)),
        decreases logs@.len() - i,
    {
        let ghost entry = logs@[i as int]@;
        let ghost before_out = log_views(out@);
        let ghost before_gone = all.take(i as int).filter(drop);
        proof {
            reveal(Seq::filter);
            assert(all.take(i + 1).drop_last() =~= all.take(i as int));
            assert(all.take(i + 1).last() == entry);
        }
        if list_has_text(ids, &logs[i].id) {
            let ghost gone = texts(removed@);
            removed.push(logs[i].id.clone());
            proof {
                assert(drop(entry) && !keep(entry));
                assert(texts(removed@) =~= gone.push(entry.id));
                assert(log_ids(before_gone.push(entry)) =~= log_ids(before_gone).push(entry.id));
                assert(texts(removed@) =~= texts(old(removed)@) + log_ids(before_gone.push(entry)));
            }
        } else {
            out.push(logs[i].clone());
            proof {
                assert(!drop(entry) && keep(entry));
                assert(log_views(out@) =~= before_out.push(entry));
            }
        }
        i += 1;
    }
    proof {
        assert(all.take(i as int) =~= all);
    }
    out
}

/// Filtering by a predicate and by its opposite shares out the elements.
proof fn lemma_filter_shares_out<T>(list: Seq<T>, p: spec_fn(T) -> bool, q: spec_fn(T) -> bool)
    requires
        forall|x: T| #[trigger] p(x) == !q(x),
    ensures
        list.filter(p).len() + list.filter(q).len() == list.len(),
    decreases list.len(),
{
    reveal(Seq::filter);
    if list.len() > 0 {
        lemma_filter_shares_out(list.drop_last(), p, q);
        assert(p(list.last()) == !q(list.last()));
    }
}

/// Every entry either stays or is reported as removed.
pub proof fn law_prune_accounts_for_every_entry(
    logs: Seq<LogEntryView>,
    active: Seq<Seq<char>>,
    days: u32,
    now: u64,
)
    ensures
        pruned(logs, active, days, now).0.len() + pruned(logs, active, days, now).1.len()
            == logs.len(),
{
    let first = logs.filter(retained(active, days, now));
    let surplus = surplus_ids(first, active);
    lemma_filter_shares_out(logs, retained(active, days, now), expired(active, days, now));
    lemma_filter_shares_out(first, id_not_in(surplus), id_in(surplus));
}

/// What stays is within its days.
pub proof fn law_prune_keeps_nothing_expired(
    logs: Seq<LogEntryView>,
    active: Seq<Seq<char>>,
    days: u32,
    now: u64,
    k: int,
)
    requires
        0 <= k < pruned(logs, active, days, now).0.len(),
    ensures
        logs.contains(pruned(logs, active, days, now).0[k]),
        within_retention(pruned(logs, active, days, now).0[k], active, days, now),
{
    broadcast use Seq::lemma_filter_contains_rev;

    let first = logs.filter(retained(active, days, now));
    let surplus = surplus_ids(first, active);
    let entry = first.filter(id_not_in(surplus))[k];
    assert(first.filter(id_not_in(surplus)).contains(entry));
    assert(first.contains(entry));
    let j = choose|j: int| 0 <= j < first.len() && first[j] == entry;
    logs.lemma_filter_pred(retained(active, days, now), j);
}

/// An entry of an active instance, or of none, that is no runtime entry always stays.
pub proof fn law_prune_keeps_lifecycle_entries(
    logs: Seq<LogEntryView>,
    active: Seq<Seq<char>>,
    days: u32,
    now: u64,
    k: int,
)
    requires
        0 <= k < logs.len(),
        !expendable(logs[k], active),
        forall|i: int, j: int| 0 <= i < j < logs.len() ==> (#[trigger] logs[i]).id != (#[trigger] logs[j]).id,
    ensures
        pruned(logs, active, days, now).0.contains(logs[k]),
{
    broadcast use Seq::lemma_filter_contains_rev;

    let keep = retained(active, days, now);
    let first = logs.filter(keep);
    let surplus = surplus_ids(first, active);
    let entry = logs[k];
    assert(keep(entry));
    logs.lemma_filter_contains(keep, k);
    let m = choose|m: int| 0 <= m < first.len() && first[m] == entry;
    assert(!surplus.contains(entry.id)) by {
        if surplus.contains(entry.id) {
            let spare = first.filter(expendables(active));
            let candidates = log_ids(spare);
            let q = choose|q: int| 0 <= q < surplus.len() && surplus[q] == entry.id;
            assert(candidates[q] == entry.id);
            let other = spare[q];
            assert(other.id == entry.id);
            assert(spare.contains(other));
            assert(first.contains(other));
            assert(logs.contains(other));
            first.lemma_filter_pred(expendables(active), q);
            let i = choose|i: int| 0 <= i < logs.len() && logs[i] == other;
            if i < k {
                assert(logs[i].id != logs[k].id);
            } else if k < i {
                assert(logs[k].id != logs[i].id);
            }
            assert(false);
        }
    }
    assert(id_not_in(surplus)(first[m]));
    first.lemma_filter_contains(id_not_in(surplus), m);
}

// ---------------------------------------------------------------------------------------------
// Pages
// ---------------------------------------------------------------------------------------------
/// Which entries are wanted.
#[derive(Debug)]
pub struct LogQuery {
    pub before_sequence: Option<u64>,
    pub after_sequence: Option<u64>,
    pub limit: usize,
}

/// Some of the entries.
#[derive(Debug)]
pub struct LogPage {
    pub entries: Vec<LogEntry>,
    pub has_more: bool,
    pub group_count: usize,
}

/// The number of entries of a page where a query names none.
pub fn default_log_page_size() -> (n: usize)
    ensures
        n == 500,
{
    500
}

/// The number of entries that a page may hold: from 1 to 1000.
pub open spec fn page_size(limit: usize) -> usize {
    if limit < 1 {
        1
    } else if limit > 1_000 {
        1_000
    } else {
        limit
    }
}

/// The number of entries that a page may hold.
pub fn page_limit(query: &LogQuery) -> (n: usize)
    ensures
        n == page_size(query.limit),
{
    if query.limit < 1 {
        1
    } else if query.limit > 1_000 {
        1_000
    } else {
        query.limit
    }
}

/// The first `n` members of a list, or all of them where it has fewer.
pub open spec fn first_of<A>(list: Seq<A>, n: nat) -> Seq<A> {
    if list.len() > n {
        list.take(n as int)
    } else {
        list
    }
}

/// Makes a page of the entries that a query found. One entry more than the page may hold tells that
/// there are more.
pub fn log_page(query: &LogQuery, found: Vec<LogEntry>, group_count: usize) -> (page: LogPage)
    ensures
        page.entries@ == first_of(found@, page_size(query.limit) as nat),
        log_views(page.entries@) == first_of(log_views(found@), page_size(query.limit) as nat),
        page.has_more == (found@.len() > page_size(query.limit)),
        page.group_count == group_count,
{
    let limit: usize = page_limit(query);
    let has_more: bool = found.len() > limit;
    let mut entries: Vec<LogEntry> = found;
    if has_more {
        entries.truncate(limit);
        proof {
            assert(entries@ =~= found@.take(limit as int));
            assert(log_views(entries@) =~= log_views(found@).take(limit as int));
        }
    }
    LogPage { entries, has_more, group_count }
}

/// The least number among entries.
pub open spec fn least_sequence(logs: Seq<LogEntryView>) -> Option<u64>
    decreases logs.len(),
{
    if logs.len() == 0 {
        None
    } else {
        match least_sequence(logs.drop_last()) {
            Some(n) => if n <= logs.last().sequence {
                Some(n)
            } else {
                Some(logs.last().sequence)
            },
            None => Some(logs.last().sequence),
        }
    }
}

/// What to do with a page while the log moves to another storage.
#[derive(Debug)]
pub enum MigrationStep {
    /// Nothing was left.
    Done,
    /// The entries of the page are the last ones.
    AppendLast,
    /// More entries follow, with numbers below this one.
    AppendAndContinue(u64),
}

/// Decides what to do with a page while the log moves to another storage.
pub fn migration_step(page: &LogPage) -> (step: MigrationStep)
    ensures
        match step {
            MigrationStep::Done => page.entries@.len() == 0,
            MigrationStep::AppendLast => page.entries@.len() > 0 && !page.has_more,
            MigrationStep::AppendAndContinue(n) => page.entries@.len() > 0 && page.has_more
                && least_sequence(log_views(page.entries@)) == Some(n),
        },
{
    if page.entries.len() == 0 {
        return MigrationStep::Done;
    }
    if !page.has_more {
        return MigrationStep::AppendLast;
    }
    let ghost all = log_views(page.entries@);
    let mut least: u64 = page.entries[0].sequence;
    let mut i: usize = 1;
    proof {
        reveal_with_fuel(least_sequence, 2);
        assert(all.take(1).last() == page.entries@[0]@);
    }
    while i < page.entries.len()
        invariant
            1 <= i <= page.entries@.len(),
            all == log_views(page.entries@),
            least_sequence(all.take(i as int)) == Some(least),
        decreases page.entries@.len() - i,
    {
        proof {
            assert(all.take(i + 1).drop_last() =~= all.take(i as int));
            assert(all.take(i + 1).last() == page.entries@[i as int]@);
        }
        if page.entries[i].sequence < least {
            least = page.entries[i].sequence;
        }
        i += 1;
    }
    proof {
        assert(all.take(i as int) =~= all);
    }
    MigrationStep::AppendAndContinue(least)
}

} // verus!
