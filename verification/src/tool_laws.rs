//! What holds of versions, of the tools that are needed, and of the vault.
use vstd::prelude::*;

use crate::env::{index_with_key, EnvVariableView};
use crate::model::{InstanceRecordView, LogEntryView, TemplateInfoView};
use crate::number::{all_digits, decimal, digit_run, lemma_decimal_value};
use crate::repair::{deployed_by_log, numbered, refiled, without_early_restart};
use crate::search::{contains, starts_with, trim};
use crate::text::is_digit;
use crate::tools::{
    description_line, family, first_fault, needed_tools, requirement_faults, template_line,
    template_name, template_scan, CliStatus, RuntimeRequirements,
};
use crate::vault::{
    filled_and_missing, imported, taken_over, vault_list, with_imported, with_modified,
};
use crate::versions::{
    at_least, dotted_numbers, first_digit, lemma_numbers_order, major_of, newest_name, not_below,
    not_below_from, numbers_before, package_version, update_at_hand, version_of, version_part,
};

verus! {

// ---------------------------------------------------------------------------------------------
// Versions
// ---------------------------------------------------------------------------------------------
proof fn lemma_run(digits: Seq<char>, rest: Seq<char>)
    requires
        all_digits(digits),
        rest.len() == 0 || !is_digit(rest[0]),
    ensures
        digit_run(digits + rest) == digits.len(),
    decreases digits.len(),
{
    if digits.len() == 0 {
        assert(digits + rest =~= rest);
    } else {
        assert((digits + rest)[0] == digits[0]);
        assert((digits + rest).skip(1) =~= digits.skip(1) + rest);
        lemma_run(digits.skip(1), rest);
    }
}

proof fn lemma_first_digit(before: Seq<char>, rest: Seq<char>)
    requires
        forall|k: int| 0 <= k < before.len() ==> !is_digit(#[trigger] before[k]),
        rest.len() == 0 || is_digit(rest[0]),
    ensures
        first_digit(before + rest) == before.len(),
    decreases before.len(),
{
    if before.len() == 0 {
        assert(before + rest =~= rest);
    } else {
        assert((before + rest)[0] == before[0]);
        assert((before + rest).skip(1) =~= before.skip(1) + rest);
        assert forall|k: int| 0 <= k < before.skip(1).len() implies !is_digit(
            #[trigger] before.skip(1)[k],
        ) by {
            assert(before.skip(1)[k] == before[k + 1]);
        }
        lemma_first_digit(before.skip(1), rest);
    }
}

/// The version in a text starts at its first digit: each number, then one character, then the next
/// number, up to what does not go on with a digit. What stands before it does not matter.
pub proof fn law_versions_are_read(before: Seq<char>, number: u64, between: char, rest: Seq<char>)
    requires
        forall|k: int| 0 <= k < before.len() ==> !is_digit(#[trigger] before[k]),
        !is_digit(between),
    ensures
        dotted_numbers(decimal(number as nat)) == seq![number],
        dotted_numbers(decimal(number as nat) + seq![between] + rest) == seq![number]
            + dotted_numbers(rest),
        rest.len() == 0 || !is_digit(rest[0]) ==> dotted_numbers(rest) == Seq::<u64>::empty(),
        version_of(before + decimal(number as nat) + seq![between] + rest) == seq![number]
            + dotted_numbers(rest),
        version_of(before + decimal(number as nat)) == seq![number],
        version_of(before).len() == 0,
{
    let d = decimal(number as nat);
    let none = Seq::<char>::empty();
    lemma_decimal_value(number as nat);
    assert(is_digit(d[0]));
    lemma_run(d, none);
    assert(d + none =~= d);
    assert(d.take(d.len() as int) =~= d);
    assert(dotted_numbers(d) =~= seq![number]);
    let tail = seq![between] + rest;
    assert(d + seq![between] + rest =~= d + tail);
    lemma_run(d, tail);
    assert((d + tail).take(d.len() as int) =~= d);
    assert((d + tail).skip(d.len() as int + 1) =~= rest);
    if rest.len() > 0 && !is_digit(rest[0]) {
        assert(digit_run(rest) == 0);
    }
    lemma_first_digit(before, d + tail);
    assert(before + d + seq![between] + rest =~= before + (d + tail));
    assert((before + (d + tail)).skip(before.len() as int) =~= d + tail);
    lemma_first_digit(before, d);
    assert((before + d).skip(before.len() as int) =~= d);
    lemma_first_digit(before, none);
    assert(before + none =~= before);
    assert(before.skip(before.len() as int) =~= none);
}

/// The first number in which two versions differ decides which one is lower; numbers that are not
/// written are zero, and versions that differ in none are equal.
pub proof fn law_first_difference_decides(a: Seq<u64>, b: Seq<u64>, k: int)
    ensures
        0 <= k && version_part(a, k) > version_part(b, k) && (forall|i: int|
            0 <= i < k ==> version_part(a, i) == #[trigger] version_part(b, i)) ==> not_below(a, b)
            && !not_below(b, a),
        (forall|i: int| 0 <= i ==> version_part(a, i) == #[trigger] version_part(b, i))
            ==> not_below(a, b) && not_below(b, a),
        forall|i: int|
            #![trigger version_part(a, i)]
            version_part(a, i) == (if 0 <= i < a.len() {
                a[i]
            } else {
                0
            }),
{
    if 0 <= k && version_part(a, k) > version_part(b, k) && (forall|i: int|
        0 <= i < k ==> version_part(a, i) == #[trigger] version_part(b, i)) {
        lemma_difference(a, b, k, 0);
    }
    if forall|i: int| 0 <= i ==> version_part(a, i) == #[trigger] version_part(b, i) {
        lemma_no_difference(a, b, 0);
    }
}

proof fn lemma_difference(a: Seq<u64>, b: Seq<u64>, k: int, i: int)
    requires
        0 <= i <= k,
        version_part(a, k) > version_part(b, k),
        forall|j: int| i <= j < k ==> version_part(a, j) == #[trigger] version_part(b, j),
    ensures
        not_below_from(a, b, i),
        !not_below_from(b, a, i),
    decreases k - i,
{
    assert(k < a.len());
    if i < k {
        assert(version_part(a, i) == version_part(b, i));
        lemma_difference(a, b, k, i + 1);
    }
}

proof fn lemma_no_difference(a: Seq<u64>, b: Seq<u64>, i: int)
    requires
        0 <= i,
        forall|j: int| i <= j ==> version_part(a, j) == #[trigger] version_part(b, j),
    ensures
        not_below_from(a, b, i),
        not_below_from(b, a, i),
    decreases a.len() + b.len() - i,
{
    if i < a.len() || i < b.len() {
        assert(version_part(a, i) == version_part(b, i));
        lemma_no_difference(a, b, i + 1);
    }
}

/// A tool meets a requirement exactly where it tells a version that is not below it. An update is at
/// hand exactly where the tool is there, the latest version is known, and the tool does not meet it.
pub proof fn law_requirements_and_updates(
    installed: Seq<char>,
    latest: Seq<char>,
    minimum: Seq<u64>,
)
    ensures
        at_least(installed, minimum) <==> version_of(installed).len() > 0 && not_below(
            version_of(installed),
            minimum,
        ),
        update_at_hand(installed, Some(latest), true) <==> version_of(installed).len() == 0
            || !not_below(version_of(installed), version_of(latest)),
        !update_at_hand(installed, Some(latest), false),
        !update_at_hand(installed, None, true),
{
}

/// Of several versions with one first number the newest is chosen: none of the others is newer, and
/// one is chosen wherever there is any.
pub proof fn law_newest_of_its_kind(names: Seq<Seq<char>>, major: Option<u64>)
    ensures
        match newest_name(names, major) {
            Some(name) => names.contains(name) && major_of(name) == major && forall|i: int|
                0 <= i < names.len() && major_of(#[trigger] names[i]) == major ==> !numbers_before(
                    version_of(name),
                    version_of(names[i]),
                ),
            None => forall|i: int|
                0 <= i < names.len() ==> major_of(#[trigger] names[i]) != major,
        },
    decreases names.len(),
{
    if names.len() > 0 {
        let rest = names.drop_last();
        let last = names[names.len() - 1];
        law_newest_of_its_kind(rest, major);
        assert forall|i: int| 0 <= i < rest.len() implies rest[i] == names[i] by {}
        match newest_name(names, major) {
            Some(name) => {
                match newest_name(rest, major) {
                    Some(other) => {
                        let k = choose|k: int| 0 <= k < rest.len() && rest[k] == other;
                        assert(names[k] == other);
                        if name == last {
                            assert(names[names.len() - 1] == name);
                        }
                        assert forall|i: int|
                            0 <= i < names.len() && major_of(#[trigger] names[i]) == major implies
                            !numbers_before(version_of(name), version_of(names[i])) by {
                            lemma_numbers_order(
                                version_of(name),
                                version_of(names[i]),
                                version_of(other),
                            );
                            lemma_numbers_order(
                                version_of(other),
                                version_of(name),
                                version_of(names[i]),
                            );
                            lemma_numbers_order(
                                version_of(last),
                                version_of(other),
                                version_of(last),
                            );
                            if i < rest.len() {
                                assert(major_of(rest[i]) == major);
                                assert(!numbers_before(version_of(other), version_of(rest[i])));
                            }
                        }
                    },
                    None => {
                        assert(names[names.len() - 1] == name);
                        assert forall|i: int|
                            0 <= i < names.len() && major_of(#[trigger] names[i]) == major implies
                            !numbers_before(version_of(name), version_of(names[i])) by {
                            if i < rest.len() {
                                assert(major_of(rest[i]) != major);
                            }
                            lemma_numbers_order(
                                version_of(name),
                                version_of(name),
                                version_of(name),
                            );
                        }
                    },
                }
            },
            None => {
                assert forall|i: int| 0 <= i < names.len() implies major_of(#[trigger] names[i])
                    != major by {
                    if i < rest.len() {
                        assert(major_of(rest[i]) != major);
                    }
                }
            },
        }
    }
}

/// The metadata of a package give its version exactly where they can be read and name one.
pub proof fn law_version_of_a_package(fault: Option<Seq<char>>, version: Seq<char>)
    ensures
        fault is Some ==> package_version(fault, Some(version)) is Err,
        fault is None && version_of(trim(version)).len() > 0 ==> package_version(
            fault,
            Some(version),
        ) == Ok::<Seq<char>, Seq<char>>(trim(version)),
        fault is None && version_of(trim(version)).len() == 0 ==> package_version(
            fault,
            Some(version),
        ) is Err,
{
}

// ---------------------------------------------------------------------------------------------
// Requirements
// ---------------------------------------------------------------------------------------------
proof fn lemma_no_fault(faults: Seq<Option<Seq<char>>>)
    ensures
        first_fault(faults) is None <==> forall|i: int|
            0 <= i < faults.len() ==> (#[trigger] faults[i]) is None,
    decreases faults.len(),
{
    if faults.len() > 0 {
        let rest = faults.skip(1);
        lemma_no_fault(rest);
        if faults[0] is None {
            if first_fault(rest) is None {
                assert forall|i: int| 0 <= i < faults.len() implies (#[trigger] faults[i]) is None by {
                    if i > 0 {
                        assert(rest[i - 1] == faults[i]);
                        assert(rest[i - 1] is None);
                    }
                }
            } else {
                let i = choose|i: int| 0 <= i < rest.len() && (#[trigger] rest[i]) is Some;
                assert(faults[i + 1] is Some);
            }
        } else {
            assert(faults[0] is Some);
        }
    }
}

/// Requirements are good exactly where every field of a version names one, the address of the
/// installer of nvm has a place for its version, and every other address is one of HTTPS.
pub proof fn law_good_requirements(r: RuntimeRequirements)
    ensures
        first_fault(requirement_faults(r)) is None <==> {
            &&& version_of(r.versions.uv.minimum@).len() > 0
            &&& version_of(r.versions.node.minimum@).len() > 0
            &&& version_of(r.versions.node.managed@).len() > 0
            &&& version_of(r.versions.npm.minimum@).len() > 0
            &&& version_of(r.versions.npm.managed@).len() > 0
            &&& version_of(r.versions.git.minimum@).len() > 0
            &&& version_of(r.versions.agentseek.minimum@).len() > 0
            &&& version_of(r.versions.nvm.managed@).len() > 0
            &&& contains(r.sources.nvm_installer_template@, "{version}"@)
            &&& starts_with(r.sources.uv_installer@, "https://"@)
            &&& starts_with(r.sources.node_distribution@, "https://"@)
            &&& starts_with(r.sources.agentseek_package_metadata@, "https://"@)
            &&& r.sources.uv_installer_windows matches Some(address) ==> starts_with(
                address@,
                "https://"@,
            )
        },
{
    let faults = requirement_faults(r);
    lemma_no_fault(faults);
    assert(faults.len() == 13);
    if forall|i: int| 0 <= i < faults.len() ==> (#[trigger] faults[i]) is None {
        assert(faults[0] is None && faults[1] is None && faults[2] is None && faults[3] is None
            && faults[4] is None && faults[5] is None && faults[6] is None && faults[7] is None
            && faults[8] is None && faults[9] is None && faults[10] is None && faults[11] is None
            && faults[12] is None);
    }
}

/// Each tool is installed exactly where it does not meet its requirement; Node.js with npm where one
/// of the two does not, and AgentSeek also where an update is at hand.
pub proof fn law_needed_tools(s: CliStatus)
    ensures
        needed_tools(s).contains("uv"@) <==> !s.uv_compatible,
        needed_tools(s).contains("node/npm"@) <==> !s.node_compatible || !s.npm_compatible,
        needed_tools(s).contains("agentseek"@) <==> !s.cli_compatible || s.cli_update_available,
{
    reveal_strlit("uv");
    reveal_strlit("node/npm");
    reveal_strlit("agentseek");
    assert("uv"@.len() == 2 && "node/npm"@.len() == 8 && "agentseek"@.len() == 9);
    let list = needed_tools(s);
    let uv = !s.uv_compatible;
    let node = !s.node_compatible || !s.npm_compatible;
    let cli = !s.cli_compatible || s.cli_update_available;
    let n = if uv {
        1int
    } else {
        0
    };
    let m = if node {
        n + 1
    } else {
        n
    };
    if uv {
        assert(list[0] == "uv"@);
    }
    if node {
        assert(list[n] == "node/npm"@);
    }
    if cli {
        assert(list[m] == "agentseek"@);
    }
}

/// The family of a distribution decides how tools are installed: these ten belong to two families,
/// and any other to none.
pub proof fn law_families(name: Seq<char>)
    ensures
        family(name) == "debian"@ <==> name == "ubuntu"@ || name == "debian"@ || name
            == "linuxmint"@ || name == "pop"@,
        family(name) == "rhel"@ <==> name == "centos"@ || name == "rhel"@ || name == "fedora"@
            || name == "rocky"@ || name == "almalinux"@ || name == "ol"@,
        family(name) == "debian"@ || family(name) == "rhel"@ || family(name) == "linux"@,
{
    reveal_strlit("debian");
    reveal_strlit("rhel");
    reveal_strlit("linux");
    reveal_strlit("ubuntu");
    reveal_strlit("linuxmint");
    reveal_strlit("pop");
    reveal_strlit("centos");
    reveal_strlit("fedora");
    reveal_strlit("rocky");
    reveal_strlit("almalinux");
    reveal_strlit("ol");
    assert("debian"@.len() == 6 && "rhel"@.len() == 4 && "linux"@.len() == 5 && "ubuntu"@.len() == 6
        && "linuxmint"@.len() == 9 && "pop"@.len() == 3 && "centos"@.len() == 6 && "fedora"@.len()
        == 6 && "rocky"@.len() == 5 && "almalinux"@.len() == 9 && "ol"@.len() == 2);
    assert("debian"@[0] == 'd' && "ubuntu"@[0] == 'u' && "centos"@[0] == 'c' && "fedora"@[0] == 'f'
        && "linuxmint"@[0] == 'l' && "almalinux"@[0] == 'a' && "rocky"@[0] == 'r');
}

// ---------------------------------------------------------------------------------------------
// Templates
// ---------------------------------------------------------------------------------------------
/// A line with the id of a template adds a template of that id, and the next line that describes
/// something is its description. Any other line changes nothing.
pub proof fn law_templates_are_read(rows: Seq<Seq<char>>, row: Seq<char>)
    ensures
        ({
            let before = template_scan(rows);
            let after = template_scan(rows.push(row));
            let t = trim(row);
            &&& template_line(t) ==> after.open && after.templates.len() == before.templates.len()
                + 1 && after.templates.take(before.templates.len() as int) == before.templates
                && after.templates.last().id == t && after.templates.last().name == template_name(t)
                && after.templates.last().description.len() == 0
            &&& !template_line(t) && before.open && before.templates.len() > 0 && description_line(
                t,
            ) ==> !after.open && after.templates.len() == before.templates.len()
                && after.templates.last() == (TemplateInfoView {
                description: t,
                ..before.templates.last()
            }) && after.templates.drop_last() == before.templates.drop_last()
            &&& !template_line(t) && !(before.open && before.templates.len() > 0
                && description_line(t)) ==> after == before
        }),
{
    let all = rows.push(row);
    assert(all.drop_last() =~= rows);
    assert(all.last() == row);
    let before = template_scan(rows);
    let after = template_scan(all);
    assert(template_line(trim(row)) ==> after.templates.take(before.templates.len() as int)
        =~= before.templates);
    assert(!template_line(trim(row)) && before.open && before.templates.len() > 0
        && description_line(trim(row)) ==> after.templates.drop_last()
        =~= before.templates.drop_last());
}

// ---------------------------------------------------------------------------------------------
// The vault
// ---------------------------------------------------------------------------------------------
/// The variable at `i` is the first with this key.
pub open spec fn is_first_with_key(list: Seq<EnvVariableView>, key: Seq<char>, i: int) -> bool {
    &&& 0 <= i < list.len()
    &&& list[i].key == key
    &&& forall|j: int| 0 <= j < i ==> (#[trigger] list[j]).key != key
}

proof fn lemma_key(list: Seq<EnvVariableView>, key: Seq<char>, i: int)
    requires
        0 <= i,
        forall|j: int| 0 <= j < i && j < list.len() ==> (#[trigger] list[j]).key != key,
    ensures
        match index_with_key(list, key, i) {
            Some(k) => is_first_with_key(list, key, k),
            None => forall|j: int| 0 <= j < list.len() ==> (#[trigger] list[j]).key != key,
        },
    decreases list.len() - i,
{
    if i < list.len() && list[i].key != key {
        lemma_key(list, key, i + 1);
    }
}

/// An imported variable takes the place of the first one of its name, or comes behind all others; it
/// has its value and its comment, comes from an import, and is not marked as modified. No other
/// variable of the vault changes.
pub proof fn law_import_touches_its_name_only(
    vault: Seq<EnvVariableView>,
    entry: EnvVariableView,
    i: int,
)
    ensures
        ({
            let out = with_imported(vault, entry);
            let saved = EnvVariableView { source: "import"@, modified: false, ..entry };
            &&& is_first_with_key(vault, entry.key, i) ==> out.len() == vault.len() && out[i]
                == saved && forall|j: int|
                0 <= j < vault.len() && j != i ==> #[trigger] out[j] == vault[j]
            &&& (forall|j: int| 0 <= j < vault.len() ==> (#[trigger] vault[j]).key != entry.key)
                ==> out == vault.push(saved)
        }),
{
    lemma_key(vault, entry.key, 0);
    if is_first_with_key(vault, entry.key, i) {
        match index_with_key(vault, entry.key, 0) {
            Some(k) => {
                if k < i {
                    assert(vault[k].key != entry.key);
                } else if i < k {
                    assert(vault[i].key != entry.key);
                }
            },
            None => {
                assert(vault[i].key != entry.key);
            },
        }
    } else if forall|j: int| 0 <= j < vault.len() ==> (#[trigger] vault[j]).key != entry.key {
        match index_with_key(vault, entry.key, 0) {
            Some(k) => {
                assert(vault[k].key != entry.key);
            },
            None => {},
        }
    }
}

/// Only a variable that was modified goes into the vault, with its value and its comment, in the
/// place of the first one of its name or behind all others. No other variable of the vault changes.
pub proof fn law_only_modified_variables_are_taken_over(
    vault: Seq<EnvVariableView>,
    entry: EnvVariableView,
    i: int,
)
    ensures
        ({
            let out = with_modified(vault, entry);
            &&& !entry.modified ==> out == vault
            &&& entry.modified && is_first_with_key(vault, entry.key, i) ==> out.len()
                == vault.len() && out[i].key == entry.key && out[i].value == entry.value
                && out[i].comment == entry.comment && out[i].source == "instance"@
                && !out[i].modified && forall|j: int|
                0 <= j < vault.len() && j != i ==> #[trigger] out[j] == vault[j]
            &&& entry.modified && (forall|j: int|
                0 <= j < vault.len() ==> (#[trigger] vault[j]).key != entry.key) ==> out
                == vault.push(
                EnvVariableView { source: "instance"@, modified: false, ..entry },
            )
        }),
{
    lemma_key(vault, entry.key, 0);
    if is_first_with_key(vault, entry.key, i) {
        match index_with_key(vault, entry.key, 0) {
            Some(k) => {
                if k < i {
                    assert(vault[k].key != entry.key);
                } else if i < k {
                    assert(vault[i].key != entry.key);
                }
            },
            None => {
                assert(vault[i].key != entry.key);
            },
        }
    } else if forall|j: int| 0 <= j < vault.len() ==> (#[trigger] vault[j]).key != entry.key {
        match index_with_key(vault, entry.key, 0) {
            Some(k) => {
                assert(vault[k].key != entry.key);
            },
            None => {},
        }
    }
}

/// Variables are imported, and taken over, one after the other, all of them.
pub proof fn law_every_variable_is_taken_in(
    vault: Seq<EnvVariableView>,
    entries: Seq<EnvVariableView>,
    entry: EnvVariableView,
)
    ensures
        imported(vault, Seq::<EnvVariableView>::empty()) == vault,
        imported(vault, entries.push(entry)) == with_imported(imported(vault, entries), entry),
        taken_over(vault, Seq::<EnvVariableView>::empty()) == vault,
        taken_over(vault, entries.push(entry)) == with_modified(taken_over(vault, entries), entry),
{
    assert(entries.push(entry).drop_last() =~= entries);
}

/// What is counted after a fill: the variables without a value, and those that have one from the
/// vault.
pub proof fn law_fills_are_counted(entries: Seq<EnvVariableView>)
    ensures
        filled_and_missing(entries).1 == entries.filter(
            |e: EnvVariableView| trim(e.value).len() == 0,
        ).len(),
        filled_and_missing(entries).0 == entries.filter(
            |e: EnvVariableView| trim(e.value).len() > 0 && e.source == "vault"@,
        ).len(),
    decreases entries.len(),
{
    reveal(Seq::filter);
    if entries.len() > 0 {
        law_fills_are_counted(entries.drop_last());
    }
}

/// A list is refused for the vault exactly where a name is blank or two names are alike once they
/// are trimmed.
pub proof fn law_lists_that_the_vault_refuses(entries: Seq<EnvVariableView>)
    ensures
        vault_list(entries) is Ok <==> (forall|i: int|
            0 <= i < entries.len() ==> trim((#[trigger] entries[i]).key).len() > 0) && (forall|
            i: int,
            j: int,
        |
            0 <= i < j < entries.len() ==> trim((#[trigger] entries[i]).key) != trim(
                (#[trigger] entries[j]).key,
            )),
        vault_list(entries) matches Ok(list) ==> list.len() == entries.len() && forall|i: int|
            0 <= i < entries.len() ==> #[trigger] list[i] == (EnvVariableView {
                key: trim(entries[i].key),
                modified: false,
                ..entries[i]
            }),
    decreases entries.len(),
{
    if entries.len() > 0 {
        let rest = entries.drop_last();
        let last = entries[entries.len() - 1];
        law_lists_that_the_vault_refuses(rest);
        assert forall|i: int| 0 <= i < rest.len() implies rest[i] == entries[i] by {}
        let good = (forall|i: int|
            0 <= i < entries.len() ==> trim((#[trigger] entries[i]).key).len() > 0) && (forall|
            i: int,
            j: int,
        |
            0 <= i < j < entries.len() ==> trim((#[trigger] entries[i]).key) != trim(
                (#[trigger] entries[j]).key,
            ));
        if good {
            assert forall|i: int| 0 <= i < rest.len() implies trim((#[trigger] rest[i]).key).len()
                > 0 by {
                assert(trim(entries[i].key).len() > 0);
            }
            assert forall|i: int, j: int| 0 <= i < j < rest.len() implies trim(
                (#[trigger] rest[i]).key,
            ) != trim((#[trigger] rest[j]).key) by {
                assert(trim(entries[i].key) != trim(entries[j].key));
            }
            let list = vault_list(rest)->Ok_0;
            lemma_key(list, trim(last.key), 0);
            if index_with_key(list, trim(last.key), 0) is Some {
                let k = index_with_key(list, trim(last.key), 0)->0;
                assert(list[k].key == trim(rest[k].key));
                assert(trim(entries[k].key) != trim(entries[entries.len() - 1].key));
            }
            assert(trim(entries[entries.len() - 1].key).len() > 0);
        }
        if vault_list(entries) is Ok {
            let list = vault_list(rest)->Ok_0;
            lemma_key(list, trim(last.key), 0);
            assert forall|i: int| 0 <= i < entries.len() implies trim(
                (#[trigger] entries[i]).key,
            ).len() > 0 by {
                if i < rest.len() {
                    assert(trim(rest[i].key).len() > 0);
                }
            }
            assert forall|i: int, j: int| 0 <= i < j < entries.len() implies trim(
                (#[trigger] entries[i]).key,
            ) != trim((#[trigger] entries[j]).key) by {
                assert(rest[i] == entries[i]);
                if j < rest.len() {
                    assert(trim(rest[i].key) != trim(rest[j].key));
                } else {
                    assert(list[i].key != trim(last.key));
                    assert(list[i].key == trim(rest[i].key));
                }
            }
        }
    }
}

// ---------------------------------------------------------------------------------------------
// Repairs
// ---------------------------------------------------------------------------------------------
/// A request to restart is taken back exactly where the instance runs nothing and was never
/// deployed: an instance with variables is then ready to be installed, another is being configured.
/// Nothing else of it changes but the time of its change and the wish for a check.
pub proof fn law_early_restarts_are_taken_back(
    instance: InstanceRecordView,
    deployed: bool,
    now: u64,
)
    ensures
        ({
            let out = without_early_restart(instance, deployed, now);
            let early = instance.status == "needs-restart"@ && instance.pid is None && !deployed;
            &&& !early ==> out == instance
            &&& early && instance.env_path is Some ==> out == (InstanceRecordView {
                status: "ready-to-install"@,
                needs_doctor: false,
                updated_at: now,
                ..instance
            })
            &&& early && instance.env_path is None ==> out == (InstanceRecordView {
                status: "configuring"@,
                needs_doctor: false,
                updated_at: now,
                ..instance
            })
        }),
{
}

/// An instance counts as deployed exactly where an entry of its own tells so.
pub proof fn law_the_log_tells_deployments(logs: Seq<LogEntryView>, id: Seq<char>)
    ensures
        deployed_by_log(logs, id) <==> exists|k: int|
            0 <= k < logs.len() && (#[trigger] logs[k]).instance_id == Some(id) && logs[k].category
                == "install"@ && logs[k].level == "success"@ && logs[k].message
                == "Instance deployment completed"@,
{
    if exists|k: int|
        0 <= k < logs.len() && (#[trigger] logs[k]).instance_id == Some(id) && logs[k].category
            == "install"@ && logs[k].level == "success"@ && logs[k].message
            == "Instance deployment completed"@ {
        let k = choose|k: int|
            0 <= k < logs.len() && (#[trigger] logs[k]).instance_id == Some(id) && logs[k].category
                == "install"@ && logs[k].level == "success"@ && logs[k].message
                == "Instance deployment completed"@;
        assert(crate::repair::deployment_completed(logs[k]));
    }
}

/// Only runtime entries are filed anew, and nothing of an entry but its category changes. Numbering
/// keeps the entries and their order, and gives each its place as its number.
pub proof fn law_entries_are_filed_and_numbered(
    entry: LogEntryView,
    logs: Seq<LogEntryView>,
    k: int,
)
    ensures
        entry.category != "runtime"@ ==> refiled(entry) == entry,
        refiled(entry) == entry || refiled(entry) == (LogEntryView {
            category: "install"@,
            ..entry
        }),
        entry.category == "runtime"@ && entry.message == "Instance stopped"@ ==> refiled(
            entry,
        ).category == "install"@,
        numbered(logs).len() == logs.len(),
        0 <= k < logs.len() && k <= u64::MAX ==> numbered(logs)[k] == (LogEntryView {
            sequence: k as u64,
            ..logs[k]
        }),
{
}

} // verus!
