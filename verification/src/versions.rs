//! Version numbers.
use vstd::prelude::*;
use vstd::string::*;

use crate::json::{json_error, json_fault, json_string, json_string_at};
use crate::number::{decimal_value, digit_run, digit_run_len, parse_up_to, unsigned_digits};
use crate::search::{
    has_prefix, head, starts_with, tail, trim, trim_start_of, trimmed, trimmed_start_of,
};
use crate::split::{lines, text_lines, text_words, words};
use crate::text::{
    ascii_lower, chars_of, is_digit, opt_text, owned, same, texts, to_ascii_lower,
};

verus! {

// ---------------------------------------------------------------------------------------------
// Reading
// ---------------------------------------------------------------------------------------------
/// The position of the first digit.
pub open spec fn first_digit(s: Seq<char>) -> nat
    decreases s.len(),
{
    if s.len() == 0 || is_digit(s[0]) {
        0
    } else {
        1 + first_digit(s.skip(1))
    }
}

/// The numbers at the start of `s`, with one character between neighbours. A number that does not
/// fit in sixty-four bits is left out.
pub open spec fn dotted_numbers(s: Seq<char>) -> Seq<u64>
    decreases s.len(),
{
    let n = digit_run(s) as int;
    if n == 0 || n > s.len() {
        seq![]
    } else {
        let value = decimal_value(s.take(n));
        let rest = if n < s.len() {
            dotted_numbers(s.skip(n + 1))
        } else {
            seq![]
        };
        if value <= u64::MAX {
            seq![value as u64] + rest
        } else {
            rest
        }
    }
}

/// The numbers of the first version in a text.
pub open spec fn version_of(s: Seq<char>) -> Seq<u64> {
    dotted_numbers(s.skip(first_digit(s) as int))
}

fn first_digit_position(text: &str) -> (n: usize)
    ensures
        n == first_digit(text@),
        n <= text@.len(),
{
    let s: Vec<char> = chars_of(text);
    let mut i: usize = 0;
    proof {
        assert(s@.skip(0) =~= s@);
    }
    while i < s.len() && !('0' <= s[i] && s[i] <= '9')
        invariant
            i <= s@.len(),
            s@ == text@,
            first_digit(s@) == i + first_digit(s@.skip(i as int)),
        decreases s@.len() - i,
    {
        proof {
            assert(s@.skip(i as int).skip(1) =~= s@.skip(i + 1));
        }
        i += 1;
    }
    i
}

proof fn lemma_digit_run(s: Seq<char>)
    ensures
        digit_run(s) <= s.len(),
        forall|k: int| 0 <= k < digit_run(s) ==> is_digit(#[trigger] s[k]),
    decreases s.len(),
{
    if s.len() == 0 || !is_digit(s[0]) {
    } else {
        lemma_digit_run(s.skip(1));
        assert forall|k: int| 0 <= k < digit_run(s) implies is_digit(#[trigger] s[k]) by {
            if k > 0 {
                assert(s.skip(1)[k - 1] == s[k]);
            }
        }
    }
}

/// The numbers of the first version in a text.
pub fn numeric_version(value: &str) -> (out: Vec<u64>)
    ensures
        out@ == version_of(value@),
{
    let start: usize = first_digit_position(value);
    let mut rest: String = tail(value, start);
    let mut out: Vec<u64> = Vec::new();
    proof {
        assert(out@ + dotted_numbers(rest@) =~= dotted_numbers(rest@));
    }
    loop
        invariant
            version_of(value@) == out@ + dotted_numbers(rest@),
        decreases rest@.len(),
    {
        let ghost before = out@;
        let ghost all = rest@;
        let n: usize = digit_run_len(rest.as_str());
        proof {
            lemma_digit_run(all);
        }
        if n == 0 {
            proof {
                assert(out@ + Seq::<u64>::empty() =~= out@);
            }
            return out;
        }
        let part: String = head(rest.as_str(), n);
        proof {
            assert(is_digit(part@[0]));
            assert(unsigned_digits(part@) == part@);
        }
        match parse_up_to(part.as_str(), u64::MAX) {
            Some(number) => {
                out.push(number);
            },
            None => {},
        }
        let size: usize = chars_of(rest.as_str()).len();
        if n == size {
            proof {
                assert(out@ =~= before + dotted_numbers(all));
            }
            return out;
        }
        rest = tail(rest.as_str(), n + 1);
        proof {
            assert(out@ + dotted_numbers(rest@) =~= before + dotted_numbers(all));
        }
    }
}

// ---------------------------------------------------------------------------------------------
// Comparing
// ---------------------------------------------------------------------------------------------
/// A number of a version; numbers that are not written are zero.
pub open spec fn version_part(version: Seq<u64>, i: int) -> u64 {
    if 0 <= i < version.len() {
        version[i]
    } else {
        0
    }
}

/// From the number at `i` on, the first number in which the versions differ is greater in `a`, or
/// there is none.
pub open spec fn not_below_from(a: Seq<u64>, b: Seq<u64>, i: int) -> bool
    decreases a.len() + b.len() - i,
{
    if i >= a.len() && i >= b.len() {
        true
    } else if version_part(a, i) != version_part(b, i) {
        version_part(a, i) > version_part(b, i)
    } else {
        not_below_from(a, b, i + 1)
    }
}

/// Version `a` is not below version `b`.
pub open spec fn not_below(a: Seq<u64>, b: Seq<u64>) -> bool {
    not_below_from(a, b, 0)
}

/// A text names a version, and that version is not below `minimum`.
pub open spec fn at_least(value: Seq<char>, minimum: Seq<u64>) -> bool {
    version_of(value).len() > 0 && not_below(version_of(value), minimum)
}

fn part_at(version: &[u64], i: usize) -> (n: u64)
    ensures
        n == version_part(version@, i as int),
{
    if i < version.len() {
        version[i]
    } else {
        0
    }
}

/// Whether a text names a version that is not below `minimum`.
pub fn version_at_least(value: &str, minimum: &[u64]) -> (r: bool)
    ensures
        r == at_least(value@, minimum@),
{
    let current: Vec<u64> = numeric_version(value);
    if current.len() == 0 {
        return false;
    }
    let wanted: usize = minimum.len();
    let mut i: usize = 0;
    while i < current.len() || i < wanted
        invariant
            current@ == version_of(value@),
            i <= current@.len() || i <= wanted,
            wanted == minimum@.len(),
            not_below(current@, minimum@) == not_below_from(current@, minimum@, i as int),
        decreases current@.len() + minimum@.len() - i,
    {
        let a: u64 = part_at(current.as_slice(), i);
        let b: u64 = part_at(minimum, i);
        if a != b {
            return a > b;
        }
        i += 1;
    }
    true
}

/// Whether a text names a version that is not below the one that `minimum` names.
pub fn meets_requirement(value: &str, minimum: &str) -> (r: bool)
    ensures
        r == at_least(value@, version_of(minimum@)),
{
    let wanted: Vec<u64> = numeric_version(minimum);
    version_at_least(value, wanted.as_slice())
}

proof fn lemma_not_below(a: Seq<u64>, b: Seq<u64>, c: Seq<u64>, i: int)
    requires
        0 <= i,
    ensures
        not_below_from(a, a, i),
        not_below_from(a, b, i) || not_below_from(b, a, i),
        not_below_from(a, b, i) && not_below_from(b, c, i) ==> not_below_from(a, c, i),
    decreases a.len() + b.len() + c.len() - i,
{
    if i < a.len() || i < b.len() || i < c.len() {
        lemma_not_below(a, b, c, i + 1);
    }
}

/// Versions are ordered: each is not below itself, of two one is not below the other, and the order
/// passes on.
pub proof fn law_versions_are_ordered(a: Seq<u64>, b: Seq<u64>, c: Seq<u64>)
    ensures
        not_below(a, a),
        not_below(a, b) || not_below(b, a),
        not_below(a, b) && not_below(b, c) ==> not_below(a, c),
{
    lemma_not_below(a, b, c, 0);
}

/// What meets a requirement meets every lower one.
pub proof fn law_requirements_pass_down(value: Seq<char>, high: Seq<u64>, low: Seq<u64>)
    requires
        at_least(value, high),
        not_below(high, low),
    ensures
        at_least(value, low),
{
    law_versions_are_ordered(version_of(value), high, low);
}

/// A newer version is at hand than the one that is installed.
pub open spec fn update_at_hand(
    installed: Seq<char>,
    latest: Option<Seq<char>>,
    available: bool,
) -> bool {
    available && (match latest {
        Some(version) => !at_least(installed, version_of(version)),
        None => false,
    })
}

/// Whether a newer version is at hand than the one that is installed.
pub fn agentseek_update_available(installed: &str, latest: Option<&str>, available: bool) -> (r:
    bool)
    ensures
        r == update_at_hand(
            installed@,
            match latest {
                Some(version) => Some(version@),
                None => None,
            },
            available,
        ),
{
    available && (match latest {
        Some(version) => !meets_requirement(installed, version),
        None => false,
    })
}

/// A version that is at hand as an update is above the installed one, and it meets every minimum
/// that the installed one meets.
pub proof fn law_update_keeps_requirements(
    installed: Seq<char>,
    latest: Seq<char>,
    minimum: Seq<u64>,
)
    requires
        at_least(installed, minimum),
        update_at_hand(installed, Some(latest), true),
    ensures
        !not_below(version_of(installed), version_of(latest)),
        not_below(version_of(latest), minimum),
{
    law_versions_are_ordered(version_of(installed), version_of(latest), minimum);
    law_versions_are_ordered(version_of(latest), version_of(installed), minimum);
}

// ---------------------------------------------------------------------------------------------
// Sorting
// ---------------------------------------------------------------------------------------------
/// `a` stands before `b` number by number; a list stands behind each of its starts.
pub open spec fn numbers_before(a: Seq<u64>, b: Seq<u64>) -> bool
    decreases a.len(),
{
    if b.len() == 0 {
        false
    } else if a.len() == 0 {
        true
    } else if a[0] != b[0] {
        a[0] < b[0]
    } else {
        numbers_before(a.skip(1), b.skip(1))
    }
}

/// Lists of numbers are in one order: of two different ones, one stands before the other.
pub proof fn lemma_numbers_order(a: Seq<u64>, b: Seq<u64>, c: Seq<u64>)
    ensures
        !numbers_before(a, a),
        numbers_before(a, b) ==> !numbers_before(b, a),
        numbers_before(a, b) && numbers_before(b, c) ==> numbers_before(a, c),
        a != b ==> numbers_before(a, b) || numbers_before(b, a),
    decreases a.len(),
{
    if a.len() > 0 {
        if b.len() > 0 {
            lemma_numbers_order(
                a.skip(1),
                b.skip(1),
                if c.len() > 0 {
                    c.skip(1)
                } else {
                    c
                },
            );
            if a != b && a[0] == b[0] {
                if a.skip(1) == b.skip(1) {
                    assert(a =~= seq![a[0]] + a.skip(1));
                    assert(b =~= seq![b[0]] + b.skip(1));
                }
            }
        } else {
            lemma_numbers_order(a.skip(1), a.skip(1), a.skip(1));
        }
    } else if b.len() == 0 {
        assert(a =~= b);
    }
}

pub fn is_numbers_before(a: &Vec<u64>, b: &Vec<u64>) -> (r: bool)
    ensures
        r == numbers_before(a@, b@),
{
    let mut i: usize = 0;
    proof {
        assert(a@.skip(0) =~= a@);
        assert(b@.skip(0) =~= b@);
    }
    while i < a.len() && i < b.len()
        invariant
            i <= a@.len(),
            i <= b@.len(),
            numbers_before(a@, b@) == numbers_before(a@.skip(i as int), b@.skip(i as int)),
        decreases a@.len() - i,
    {
        if a[i] != b[i] {
            return a[i] < b[i];
        }
        proof {
            assert(a@.skip(i as int).skip(1) =~= a@.skip(i + 1));
            assert(b@.skip(i as int).skip(1) =~= b@.skip(i + 1));
        }
        i += 1;
    }
    i < b.len()
}

/// The name with the greatest version among those that pass; of equal versions the last.
pub open spec fn newest_name(names: Seq<Seq<char>>, major: Option<u64>) -> Option<Seq<char>>
    decreases names.len(),
{
    if names.len() == 0 {
        None
    } else {
        let best = newest_name(names.drop_last(), major);
        let name = names.last();
        if major_of(name) != major {
            best
        } else {
            match best {
                Some(other) => if numbers_before(version_of(name), version_of(other)) {
                    best
                } else {
                    Some(name)
                },
                None => Some(name),
            }
        }
    }
}

/// The first number of a version.
pub open spec fn major_of(s: Seq<char>) -> Option<u64> {
    if version_of(s).len() == 0 {
        None
    } else {
        Some(version_of(s)[0])
    }
}

/// The first number of a version.
pub fn major_version(value: &str) -> (r: Option<u64>)
    ensures
        r == major_of(value@),
{
    let version: Vec<u64> = numeric_version(value);
    if version.len() == 0 {
        None
    } else {
        Some(version[0])
    }
}

fn same_major(a: Option<u64>, b: Option<u64>) -> (r: bool)
    ensures
        r == (a == b),
{
    match (a, b) {
        (Some(x), Some(y)) => x == y,
        (None, None) => true,
        _ => false,
    }
}

/// The name with the greatest version among those whose version has the same first number as
/// `wanted`.
pub fn newest_with_major(names: &Vec<String>, wanted: &str) -> (r: Option<String>)
    ensures
        opt_text(r) == newest_name(texts(names@), major_of(wanted@)),
{
    let ghost all = texts(names@);
    let major: Option<u64> = major_version(wanted);
    let mut best: Option<usize> = None;
    let mut i: usize = 0;
    proof {
        assert(all.take(0) =~= Seq::<Seq<char>>::empty());
    }
    while i < names.len()
        invariant
            i <= names@.len(),
            all == texts(names@),
            major == major_of(wanted@),
            match best {
                Some(k) => k < i && newest_name(all.take(i as int), major) == Some(all[k as int]),
                None => newest_name(all.take(i as int), major) is None,
            },
        decreases names@.len() - i,
    {
        proof {
            assert(all.take(i + 1).drop_last() =~= all.take(i as int));
            assert(all.take(i + 1).last() == names@[i as int]@);
        }
        if same_major(major_version(names[i].as_str()), major) {
            match best {
                Some(k) => {
                    let version: Vec<u64> = numeric_version(names[i].as_str());
                    let other: Vec<u64> = numeric_version(names[k].as_str());
                    if !is_numbers_before(&version, &other) {
                        best = Some(i);
                    }
                },
                None => {
                    best = Some(i);
                },
            }
        }
        i += 1;
    }
    proof {
        assert(all.take(i as int) =~= all);
    }
    match best {
        Some(k) => Some(names[k].clone()),
        None => None,
    }
}

// ---------------------------------------------------------------------------------------------
// Versions in the output of programs
// ---------------------------------------------------------------------------------------------
/// The version of a tool in one line of `uv tool list`.
pub open spec fn tool_version_in_line(line: Seq<char>, tool: Seq<char>) -> Option<Seq<char>> {
    let parts = words(line);
    if parts.len() >= 2 && parts[0] == tool && starts_with(parts[1], "v"@) {
        Some(tool + " "@ + trim_start_of(parts[1], "v"@))
    } else {
        None
    }
}

/// What the first line that tells it says.
pub open spec fn first_told(rows: Seq<Seq<char>>, tell: spec_fn(Seq<char>) -> Option<Seq<char>>) -> Option<
    Seq<char>,
>
    decreases rows.len(),
{
    if rows.len() == 0 {
        None
    } else {
        match tell(rows[0]) {
            Some(answer) => Some(answer),
            None => first_told(rows.skip(1), tell),
        }
    }
}

pub open spec fn tool_version(tool: Seq<char>) -> spec_fn(Seq<char>) -> Option<Seq<char>> {
    |line: Seq<char>| tool_version_in_line(line, tool)
}

/// The version of a tool in the output of `uv tool list`.
pub fn parse_uv_tool_version(content: &str, tool_name: &str) -> (r: Option<String>)
    ensures
        opt_text(r) == first_told(lines(content@), tool_version(tool_name@)),
{
    let rows: Vec<String> = text_lines(content);
    let ghost all = texts(rows@);
    let ghost tell = tool_version(tool_name@);
    let mut i: usize = 0;
    proof {
        assert(all.skip(0) =~= all);
    }
    while i < rows.len()
        invariant
            i <= rows@.len(),
            all == texts(rows@),
            all == lines(content@),
            tell == tool_version(tool_name@),
            first_told(all, tell) == first_told(all.skip(i as int), tell),
        decreases rows@.len() - i,
    {
        proof {
            assert(all.skip(i as int)[0] == rows@[i as int]@);
            assert(all.skip(i as int).skip(1) =~= all.skip(i + 1));
        }
        let parts: Vec<String> = text_words(rows[i].as_str());
        if parts.len() >= 2 {
            proof {
                assert(texts(parts@)[0] == parts@[0]@);
                assert(texts(parts@)[1] == parts@[1]@);
            }
            if same(parts[0].as_str(), tool_name) && has_prefix(parts[1].as_str(), "v") {
                let number: String = trimmed_start_of(parts[1].as_str(), "v");
                return Some(owned(tool_name).concat(" ").concat(number.as_str()));
            }
        }
        i += 1;
    }
    None
}

/// The version of AgentSeek in one line of its output.
pub open spec fn agentseek_version_in_line(line: Seq<char>) -> Option<Seq<char>> {
    let t = trim(line);
    if starts_with(ascii_lower(t), "agentseek v"@) && version_of(t).len() > 0 {
        Some(t)
    } else {
        None
    }
}

pub open spec fn agentseek_version() -> spec_fn(Seq<char>) -> Option<Seq<char>> {
    |line: Seq<char>| agentseek_version_in_line(line)
}

/// The version of AgentSeek in its output, behind whatever banner it prints.
pub fn parse_agentseek_version(content: &str) -> (r: Option<String>)
    ensures
        opt_text(r) == first_told(lines(content@), agentseek_version()),
{
    let rows: Vec<String> = text_lines(content);
    let ghost all = texts(rows@);
    let ghost tell = agentseek_version();
    let mut i: usize = 0;
    proof {
        assert(all.skip(0) =~= all);
    }
    while i < rows.len()
        invariant
            i <= rows@.len(),
            all == texts(rows@),
            all == lines(content@),
            tell == agentseek_version(),
            first_told(all, tell) == first_told(all.skip(i as int), tell),
        decreases rows@.len() - i,
    {
        proof {
            assert(all.skip(i as int)[0] == rows@[i as int]@);
            assert(all.skip(i as int).skip(1) =~= all.skip(i + 1));
        }
        let t: String = trimmed(rows[i].as_str());
        let lower: String = to_ascii_lower(t.as_str());
        if has_prefix(lower.as_str(), "agentseek v") {
            let version: Vec<u64> = numeric_version(t.as_str());
            if version.len() > 0 {
                return Some(t);
            }
        }
        i += 1;
    }
    None
}

/// The first line that is not blank.
pub open spec fn nonblank_line() -> spec_fn(Seq<char>) -> Option<Seq<char>> {
    |line: Seq<char>|
        if trim(line).len() == 0 {
            None
        } else {
            Some(trim(line))
        }
}

/// What a program that was asked for its version says: the first line of its output that is not
/// blank, where it succeeded.
pub fn command_version(success: bool, stdout: &str, stderr: &str) -> (r: Option<String>)
    ensures
        opt_text(r) == (if success {
            first_told(lines(stdout@ + stderr@), nonblank_line())
        } else {
            None
        }),
{
    if !success {
        return None;
    }
    let content: String = owned(stdout).concat(stderr);
    let rows: Vec<String> = text_lines(content.as_str());
    let ghost all = texts(rows@);
    let ghost tell = nonblank_line();
    let mut i: usize = 0;
    proof {
        assert(all.skip(0) =~= all);
    }
    while i < rows.len()
        invariant
            i <= rows@.len(),
            all == texts(rows@),
            all == lines(stdout@ + stderr@),
            success,
            tell == nonblank_line(),
            first_told(all, tell) == first_told(all.skip(i as int), tell),
        decreases rows@.len() - i,
    {
        proof {
            assert(all.skip(i as int)[0] == rows@[i as int]@);
            assert(all.skip(i as int).skip(1) =~= all.skip(i + 1));
        }
        let t: String = trimmed(rows[i].as_str());
        if !t.as_str().is_empty() {
            return Some(t);
        }
        i += 1;
    }
    None
}

/// The version that `agentseek version` printed, where it succeeded.
pub fn agentseek_command_version(success: bool, stdout: &str, stderr: &str) -> (r: Option<String>)
    ensures
        opt_text(r) == (if success {
            first_told(lines(stdout@ + stderr@), agentseek_version())
        } else {
            None
        }),
{
    if !success {
        return None;
    }
    let content: String = owned(stdout).concat(stderr);
    parse_agentseek_version(content.as_str())
}

/// The version of a tool that `uv tool list` printed, where it succeeded.
pub fn uv_tool_version(success: bool, stdout: &str, stderr: &str, tool_name: &str) -> (r: Option<
    String,
>)
    ensures
        opt_text(r) == (if success {
            first_told(lines(stdout@ + stderr@), tool_version(tool_name@))
        } else {
            None
        }),
{
    if !success {
        return None;
    }
    let content: String = owned(stdout).concat(stderr);
    parse_uv_tool_version(content.as_str(), tool_name)
}

/// The version in the metadata of a package, given what its document says.
pub open spec fn package_version(fault: Option<Seq<char>>, version: Option<Seq<char>>) -> Result<
    Seq<char>,
    Seq<char>,
> {
    match fault {
        Some(message) => Err("AgentSeek package metadata format error: "@ + message),
        None => {
            let text = match version {
                Some(v) => trim(v),
                None => trim(seq![]),
            };
            if version_of(text).len() == 0 {
                Err("AgentSeek package metadata has no valid latest version"@)
            } else {
                Ok(text)
            }
        },
    }
}

/// The version in the metadata of a package, given what its document says.
pub fn check_package_version(fault: Option<String>, version: Option<String>) -> (r: Result<
    String,
    String,
>)
    ensures
        match (r, package_version(opt_text(fault), opt_text(version))) {
            (Ok(text), Ok(expected)) => text@ == expected,
            (Err(message), Err(expected)) => message@ == expected,
            _ => false,
        },
{
    match fault {
        Some(message) => Err(
            owned("AgentSeek package metadata format error: ").concat(message.as_str()),
        ),
        None => {
            let text: String = match version {
                Some(v) => trimmed(v.as_str()),
                None => trimmed(String::new().as_str()),
            };
            let numbers: Vec<u64> = numeric_version(text.as_str());
            if numbers.len() == 0 {
                Err(owned("AgentSeek package metadata has no valid latest version"))
            } else {
                Ok(text)
            }
        },
    }
}

/// The latest version in the metadata of the AgentSeek package.
pub fn parse_agentseek_package_version(content: &[u8]) -> (r: Result<String, String>)
    ensures
        match (
            r,
            package_version(json_fault(content@), json_string(content@, "/info/version"@)),
        ) {
            (Ok(text), Ok(expected)) => text@ == expected,
            (Err(message), Err(expected)) => message@ == expected,
            _ => false,
        },
{
    check_package_version(json_error(content), json_string_at(content, "/info/version"))
}

} // verus!
