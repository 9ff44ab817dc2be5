//! The vault: variables that are kept across instances.
use vstd::prelude::*;
use vstd::string::*;

use crate::env::{
    env_views, index_with_key, position_of_key, EnvVariable, EnvVariableView,
};
use crate::search::{lemma_trim_is_trimmed, trim, trimmed};
use crate::text::{owned, same};

verus! {

// ---------------------------------------------------------------------------------------------
// Replacing
// ---------------------------------------------------------------------------------------------
/// Why a list of variables cannot be the vault.
pub enum VaultFault {
    EmptyKey,
    DuplicateKey(Seq<char>),
}

/// The list as it goes into the vault: trimmed keys, no two alike, nothing marked as modified.
pub open spec fn vault_list(entries: Seq<EnvVariableView>) -> Result<
    Seq<EnvVariableView>,
    VaultFault,
>
    decreases entries.len(),
{
    if entries.len() == 0 {
        Ok(seq![])
    } else {
        match vault_list(entries.drop_last()) {
            Err(fault) => Err(fault),
            Ok(list) => {
                let key = trim(entries.last().key);
                if key.len() == 0 {
                    Err(VaultFault::EmptyKey)
                } else if index_with_key(list, key, 0) is Some {
                    Err(VaultFault::DuplicateKey(key))
                } else {
                    Ok(list.push(EnvVariableView { key, modified: false, ..entries.last() }))
                }
            },
        }
    }
}

/// What a fault is reported as.
pub open spec fn fault_message(fault: VaultFault) -> Seq<char> {
    match fault {
        VaultFault::EmptyKey => "Environment variable name cannot be empty"@,
        VaultFault::DuplicateKey(key) => "Duplicate environment variable name: "@ + key,
    }
}

proof fn lemma_vault_list_fails_early(entries: Seq<EnvVariableView>, k: int)
    requires
        0 <= k <= entries.len(),
        vault_list(entries.take(k)) is Err,
    ensures
        vault_list(entries) == vault_list(entries.take(k)),
    decreases entries.len() - k,
{
    if k == entries.len() {
        assert(entries.take(k) =~= entries);
    } else {
        assert(entries.take(k + 1).drop_last() =~= entries.take(k));
        lemma_vault_list_fails_early(entries, k + 1);
    }
}

/// Checks and cleans a list of variables that is to replace the vault.
pub fn replace_vault_entries(entries: &Vec<EnvVariable>) -> (r: Result<Vec<EnvVariable>, String>)
    ensures
        match (r, vault_list(env_views(entries@))) {
            (Ok(list), Ok(expected)) => env_views(list@) == expected,
            (Err(message), Err(fault)) => message@ == fault_message(fault),
            _ => false,
        },
{
    let ghost all = env_views(entries@);
    let mut list: Vec<EnvVariable> = Vec::new();
    let mut i: usize = 0;
    proof {
        assert(all.take(0) =~= Seq::<EnvVariableView>::empty());
        assert(env_views(list@) =~= Seq::<EnvVariableView>::empty());
    }
    while i < entries.len()
        invariant
            i <= entries@.len(),
            all == env_views(entries@),
            vault_list(all.take(i as int)) == Ok::<Seq<EnvVariableView>, VaultFault>(
                env_views(list@),
            ),
        decreases entries@.len() - i,
    {
        let ghost before = env_views(list@);
        proof {
            assert(all.take(i + 1).drop_last() =~= all.take(i as int));
            assert(all.take(i + 1).last() == entries@[i as int]@);
        }
        let key: String = trimmed(entries[i].key.as_str());
        if key.as_str().is_empty() {
            proof {
                lemma_vault_list_fails_early(all, i + 1);
            }
            return Err(owned("Environment variable name cannot be empty"));
        }
        match position_of_key(&list, key.as_str()) {
            Some(_) => {
                proof {
                    lemma_vault_list_fails_early(all, i + 1);
                }
                return Err(owned("Duplicate environment variable name: ").concat(key.as_str()));
            },
            None => {},
        }
        let mut entry: EnvVariable = entries[i].clone();
        entry.key = key;
        entry.modified = false;
        list.push(entry);
        proof {
            assert(env_views(list@) =~= before.push(entry@));
        }
        i += 1;
    }
    proof {
        assert(all.take(i as int) =~= all);
    }
    Ok(list)
}

/// Every key of the list is trimmed and not empty, and no two are alike.
pub open spec fn keys_are_clean(list: Seq<EnvVariableView>) -> bool {
    &&& forall|i: int|
        0 <= i < list.len() ==> (#[trigger] list[i]).key.len() > 0 && trim(list[i].key)
            == list[i].key && !list[i].modified
    &&& forall|i: int, j: int|
        0 <= i < j < list.len() ==> (#[trigger] list[i]).key != (#[trigger] list[j]).key
}

proof fn lemma_no_index(list: Seq<EnvVariableView>, key: Seq<char>, i: int)
    requires
        0 <= i,
        index_with_key(list, key, i) is None,
    ensures
        forall|k: int| i <= k < list.len() ==> (#[trigger] list[k]).key != key,
    decreases list.len() - i,
{
    if i < list.len() {
        lemma_no_index(list, key, i + 1);
    }
}

/// The vault holds each key once, trimmed and not empty.
pub proof fn law_vault_keys_are_unique(entries: Seq<EnvVariableView>)
    requires
        vault_list(entries) is Ok,
    ensures
        keys_are_clean(vault_list(entries)->Ok_0),
        vault_list(entries)->Ok_0.len() == entries.len(),
    decreases entries.len(),
{
    if entries.len() > 0 {
        law_vault_keys_are_unique(entries.drop_last());
        let list = vault_list(entries.drop_last())->Ok_0;
        let key = trim(entries.last().key);
        lemma_trim_is_trimmed(entries.last().key);
        lemma_no_index(list, key, 0);
    }
}

/// A clean list goes into the vault as it is.
pub proof fn law_clean_list_is_kept(entries: Seq<EnvVariableView>)
    requires
        keys_are_clean(entries),
    ensures
        vault_list(entries) == Ok::<Seq<EnvVariableView>, VaultFault>(entries),
    decreases entries.len(),
{
    if entries.len() == 0 {
        assert(entries =~= seq![]);
    } else {
        let rest = entries.drop_last();
        assert forall|i: int| 0 <= i < rest.len() implies (#[trigger] rest[i]).key.len() > 0
            && trim(rest[i].key) == rest[i].key && !rest[i].modified by {
            assert(rest[i] == entries[i]);
        }
        assert forall|i: int, j: int| 0 <= i < j < rest.len() implies (#[trigger] rest[i]).key != (
        #[trigger] rest[j]).key by {
            assert(rest[i] == entries[i] && rest[j] == entries[j]);
        }
        law_clean_list_is_kept(rest);
        let last = entries.last();
        assert(last == entries[entries.len() - 1]);
        assert forall|i: int| 0 <= i < rest.len() implies (#[trigger] rest[i]).key != last.key by {
            assert(rest[i] == entries[i]);
        }
        lemma_index_none(rest, last.key, 0);
        assert(rest.push(EnvVariableView { key: last.key, modified: false, ..last }) =~= entries);
    }
}

proof fn lemma_index_none(list: Seq<EnvVariableView>, key: Seq<char>, i: int)
    requires
        0 <= i,
        forall|k: int| 0 <= k < list.len() ==> (#[trigger] list[k]).key != key,
    ensures
        index_with_key(list, key, i) is None,
    decreases list.len() - i,
{
    if i < list.len() {
        assert(list[i].key != key);
        lemma_index_none(list, key, i + 1);
    }
}

// ---------------------------------------------------------------------------------------------
// Importing
// ---------------------------------------------------------------------------------------------
/// The vault with one imported variable: in the place of the one with the same key, or at the end.
pub open spec fn with_imported(vault: Seq<EnvVariableView>, entry: EnvVariableView) -> Seq<
    EnvVariableView,
> {
    let saved = EnvVariableView { source: "import"@, modified: false, ..entry };
    match index_with_key(vault, entry.key, 0) {
        Some(i) => vault.update(i, saved),
        None => vault.push(saved),
    }
}

/// The vault with imported variables, from the first to the last.
pub open spec fn imported(vault: Seq<EnvVariableView>, entries: Seq<EnvVariableView>) -> Seq<
    EnvVariableView,
>
    decreases entries.len(),
{
    if entries.len() == 0 {
        vault
    } else {
        with_imported(imported(vault, entries.drop_last()), entries.last())
    }
}

/// Imports variables into the vault. Returns how many there were.
pub fn import_entries(vault: &mut Vec<EnvVariable>, entries: &Vec<EnvVariable>) -> (count: usize)
    ensures
        env_views(final(vault)@) == imported(env_views(old(vault)@), env_views(entries@)),
        count == entries@.len(),
{
    let ghost start = env_views(vault@);
    let ghost all = env_views(entries@);
    let mut i: usize = 0;
    proof {
        assert(all.take(0) =~= Seq::<EnvVariableView>::empty());
    }
    while i < entries.len()
        invariant
            i <= entries@.len(),
            all == env_views(entries@),
            env_views(vault@) == imported(start, all.take(i as int)),
        decreases entries@.len() - i,
    {
        let ghost before = env_views(vault@);
        proof {
            assert(all.take(i + 1).drop_last() =~= all.take(i as int));
            assert(all.take(i + 1).last() == entries@[i as int]@);
        }
        let mut entry: EnvVariable = entries[i].clone();
        entry.source = owned("import");
        entry.modified = false;
        let ghost saved = entry@;
        match position_of_key(vault, entries[i].key.as_str()) {
            Some(k) => {
                vault.set(k, entry);
                proof {
                    assert(env_views(vault@) =~= before.update(k as int, saved));
                }
            },
            None => {
                vault.push(entry);
                proof {
                    assert(env_views(vault@) =~= before.push(saved));
                }
            },
        }
        i += 1;
    }
    proof {
        assert(all.take(i as int) =~= all);
    }
    entries.len()
}

// ---------------------------------------------------------------------------------------------
// Taking over what an instance changed
// ---------------------------------------------------------------------------------------------
/// The vault with a variable of an instance, where it was modified.
pub open spec fn with_modified(vault: Seq<EnvVariableView>, entry: EnvVariableView) -> Seq<
    EnvVariableView,
> {
    if !entry.modified {
        vault
    } else {
        match index_with_key(vault, entry.key, 0) {
            Some(i) => vault.update(
                i,
                EnvVariableView {
                    value: entry.value,
                    comment: entry.comment,
                    source: "instance"@,
                    modified: false,
                    ..vault[i]
                },
            ),
            None => vault.push(EnvVariableView { source: "instance"@, modified: false, ..entry }),
        }
    }
}

/// The vault with the modified variables of an instance, from the first to the last.
pub open spec fn taken_over(vault: Seq<EnvVariableView>, entries: Seq<EnvVariableView>) -> Seq<
    EnvVariableView,
>
    decreases entries.len(),
{
    if entries.len() == 0 {
        vault
    } else {
        with_modified(taken_over(vault, entries.drop_last()), entries.last())
    }
}

/// The number of modified variables.
pub open spec fn modified_count(entries: Seq<EnvVariableView>) -> nat
    decreases entries.len(),
{
    if entries.len() == 0 {
        0
    } else {
        modified_count(entries.drop_last()) + (if entries.last().modified {
            1nat
        } else {
            0nat
        })
    }
}

/// Takes the modified variables of an instance over into the vault. Returns how many there were.
pub fn take_over_modified(vault: &mut Vec<EnvVariable>, entries: &Vec<EnvVariable>) -> (count:
    usize)
    ensures
        env_views(final(vault)@) == taken_over(env_views(old(vault)@), env_views(entries@)),
        count == modified_count(env_views(entries@)),
{
    let ghost start = env_views(vault@);
    let ghost all = env_views(entries@);
    let mut count: usize = 0;
    let mut i: usize = 0;
    proof {
        assert(all.take(0) =~= Seq::<EnvVariableView>::empty());
    }
    while i < entries.len()
        invariant
            i <= entries@.len(),
            count <= i,
            all == env_views(entries@),
            count == modified_count(all.take(i as int)),
            env_views(vault@) == taken_over(start, all.take(i as int)),
        decreases entries@.len() - i,
    {
        let ghost before = env_views(vault@);
        proof {
            assert(all.take(i + 1).drop_last() =~= all.take(i as int));
            assert(all.take(i + 1).last() == entries@[i as int]@);
        }
        if entries[i].modified {
            count += 1;
            match position_of_key(vault, entries[i].key.as_str()) {
                Some(k) => {
                    let entry: EnvVariable = EnvVariable {
                        key: vault[k].key.clone(),
                        value: entries[i].value.clone(),
                        comment: entries[i].comment.clone(),
                        source: owned("instance"),
                        modified: false,
                    };
                    let ghost saved = entry@;
                    vault.set(k, entry);
                    proof {
                        assert(env_views(vault@) =~= before.update(k as int, saved));
                    }
                },
                None => {
                    let mut entry: EnvVariable = entries[i].clone();
                    entry.source = owned("instance");
                    entry.modified = false;
                    let ghost saved = entry@;
                    vault.push(entry);
                    proof {
                        assert(env_views(vault@) =~= before.push(saved));
                    }
                },
            }
        }
        i += 1;
    }
    proof {
        assert(all.take(i as int) =~= all);
    }
    count
}

// ---------------------------------------------------------------------------------------------
// Exporting
// ---------------------------------------------------------------------------------------------
/// How many variables were filled from the vault, and how many have no value.
pub open spec fn filled_and_missing(entries: Seq<EnvVariableView>) -> (nat, nat)
    decreases entries.len(),
{
    if entries.len() == 0 {
        (0, 0)
    } else {
        let (filled, missing) = filled_and_missing(entries.drop_last());
        let e = entries.last();
        if trim(e.value).len() == 0 {
            (filled, missing + 1)
        } else if e.source == "vault"@ {
            (filled + 1, missing)
        } else {
            (filled, missing)
        }
    }
}

/// Counts the variables that were filled from the vault and those that have no value.
pub fn count_filled_and_missing(entries: &Vec<EnvVariable>) -> (r: (usize, usize))
    ensures
        (r.0 as nat, r.1 as nat) == filled_and_missing(env_views(entries@)),
{
    let ghost all = env_views(entries@);
    let mut filled: usize = 0;
    let mut missing: usize = 0;
    let mut i: usize = 0;
    proof {
        assert(all.take(0) =~= Seq::<EnvVariableView>::empty());
    }
    while i < entries.len()
        invariant
            i <= entries@.len(),
            all == env_views(entries@),
            filled <= i,
            missing <= i,
            (filled as nat, missing as nat) == filled_and_missing(all.take(i as int)),
        decreases entries@.len() - i,
    {
        proof {
            assert(all.take(i + 1).drop_last() =~= all.take(i as int));
            assert(all.take(i + 1).last() == entries@[i as int]@);
        }
        let value: String = trimmed(entries[i].value.as_str());
        if value.as_str().is_empty() {
            missing += 1;
        } else if same(entries[i].source.as_str(), "vault") {
            filled += 1;
        }
        i += 1;
    }
    proof {
        assert(all.take(i as int) =~= all);
    }
    (filled, missing)
}

// ---------------------------------------------------------------------------------------------
// Laws
// ---------------------------------------------------------------------------------------------
/// No two variables of a list have the same name.
pub open spec fn keys_are_apart(list: Seq<EnvVariableView>) -> bool {
    forall|i: int, j: int|
        0 <= i < j < list.len() ==> (#[trigger] list[i]).key != (#[trigger] list[j]).key
}

proof fn lemma_index(list: Seq<EnvVariableView>, key: Seq<char>, i: int)
    requires
        0 <= i,
    ensures
        index_with_key(list, key, i) matches Some(k) ==> i <= k < list.len() && list[k].key == key,
        index_with_key(list, key, i) is None ==> forall|k: int|
            i <= k < list.len() ==> (#[trigger] list[k]).key != key,
    decreases list.len() - i,
{
    if i < list.len() && list[i].key != key {
        lemma_index(list, key, i + 1);
    }
}

proof fn lemma_set_keeps_keys_apart(
    list: Seq<EnvVariableView>,
    entry: EnvVariableView,
    out: Seq<EnvVariableView>,
)
    requires
        keys_are_apart(list),
        match index_with_key(list, entry.key, 0) {
            Some(i) => out == list.update(i, entry),
            None => out == list.push(entry),
        },
    ensures
        keys_are_apart(out),
        exists|k: int| 0 <= k < out.len() && #[trigger] out[k] == entry,
{
    lemma_index(list, entry.key, 0);
    match index_with_key(list, entry.key, 0) {
        Some(i) => {
            assert(out[i] == entry);
            assert forall|a: int, b: int| 0 <= a < b < out.len() implies (#[trigger] out[a]).key
                != (#[trigger] out[b]).key by {
                assert(list[a].key != list[b].key);
            }
        },
        None => {
            assert(out[list.len() as int] == entry);
        },
    }
}

/// Importing keeps the names of the vault apart.
pub proof fn law_import_keeps_keys_apart(vault: Seq<EnvVariableView>, entries: Seq<EnvVariableView>)
    requires
        keys_are_apart(vault),
    ensures
        keys_are_apart(imported(vault, entries)),
    decreases entries.len(),
{
    if entries.len() > 0 {
        law_import_keeps_keys_apart(vault, entries.drop_last());
        let list = imported(vault, entries.drop_last());
        let saved = EnvVariableView { source: "import"@, modified: false, ..entries.last() };
        lemma_set_keeps_keys_apart(list, saved, imported(vault, entries));
    }
}

/// What was imported last under a name is what the vault holds under it.
pub proof fn law_last_import_is_held(vault: Seq<EnvVariableView>, entries: Seq<EnvVariableView>)
    requires
        keys_are_apart(vault),
        entries.len() > 0,
    ensures
        exists|k: int|
            0 <= k < imported(vault, entries).len() && #[trigger] imported(vault, entries)[k] == (
            EnvVariableView { source: "import"@, modified: false, ..entries.last() }),
{
    law_import_keeps_keys_apart(vault, entries.drop_last());
    let list = imported(vault, entries.drop_last());
    let saved = EnvVariableView { source: "import"@, modified: false, ..entries.last() };
    lemma_set_keeps_keys_apart(list, saved, imported(vault, entries));
}

/// Taking the modified variables of an instance over keeps the names of the vault apart.
pub proof fn law_take_over_keeps_keys_apart(
    vault: Seq<EnvVariableView>,
    entries: Seq<EnvVariableView>,
)
    requires
        keys_are_apart(vault),
    ensures
        keys_are_apart(taken_over(vault, entries)),
    decreases entries.len(),
{
    if entries.len() > 0 {
        law_take_over_keeps_keys_apart(vault, entries.drop_last());
        let list = taken_over(vault, entries.drop_last());
        let entry = entries.last();
        lemma_index(list, entry.key, 0);
        if entry.modified {
            let saved = match index_with_key(list, entry.key, 0) {
                Some(i) => EnvVariableView {
                    value: entry.value,
                    comment: entry.comment,
                    source: "instance"@,
                    modified: false,
                    ..list[i]
                },
                None => EnvVariableView { source: "instance"@, modified: false, ..entry },
            };
            lemma_set_keeps_keys_apart(list, saved, taken_over(vault, entries));
        }
    }
}

} // verus!
