//! Environment files: reading, writing and merging variables.
use vstd::prelude::*;
use vstd::string::*;

use crate::search::{
    contains, ends_with, has_prefix, has_suffix, lemma_trim_is_trimmed, starts_with, text_has, trim,
    trim_end, trim_start, trim_start_of, trimmed, trimmed_end, trimmed_start_of, without_prefix,
};
use crate::split::{lines, split_once, split_text_once, text_lines};
use crate::text::{
    ascii_upper, char_is_space, chars_of, is_space, join, join_texts, owned, same, text_of_range,
    texts, to_ascii_upper,
};

verus! {

/// One variable of an environment file or of the vault.
#[derive(Debug)]
pub struct EnvVariable {
    pub key: String,
    pub value: String,
    pub comment: String,
    pub source: String,
    pub modified: bool,
}

/// What an [`EnvVariable`] holds.
#[verifier::ext_equal]
pub struct EnvVariableView {
    pub key: Seq<char>,
    pub value: Seq<char>,
    pub comment: Seq<char>,
    pub source: Seq<char>,
    pub modified: bool,
}

impl View for EnvVariable {
    type V = EnvVariableView;

    open spec fn view(&self) -> EnvVariableView {
        EnvVariableView {
            key: self.key@,
            value: self.value@,
            comment: self.comment@,
            source: self.source@,
            modified: self.modified,
        }
    }
}

impl Clone for EnvVariable {
    fn clone(&self) -> (r: Self)
        ensures
            r == *self,
    {
        EnvVariable {
            key: self.key.clone(),
            value: self.value.clone(),
            comment: self.comment.clone(),
            source: self.source.clone(),
            modified: self.modified,
        }
    }
}

/// The variables of a list.
pub open spec fn env_views(list: Seq<EnvVariable>) -> Seq<EnvVariableView> {
    list.map_values(|e: EnvVariable| e@)
}

/// A copy of a list of variables.
pub fn copy_entries(list: &Vec<EnvVariable>) -> (out: Vec<EnvVariable>)
    ensures
        out@ == list@,
{
    let mut out: Vec<EnvVariable> = Vec::new();
    let mut i: usize = 0;
    while i < list.len()
        invariant
            i <= list@.len(),
            out@ == list@.take(i as int),
        decreases list@.len() - i,
    {
        out.push(list[i].clone());
        i += 1;
        proof {
            assert(out@ =~= list@.take(i as int));
        }
    }
    proof {
        assert(list@.take(i as int) =~= list@);
    }
    out
}

// ---------------------------------------------------------------------------------------------
// Values and comments behind them
// ---------------------------------------------------------------------------------------------
/// Where a comment behind a value starts: at the first `#` that follows white space and stands
/// outside quotes. Inside double quotes a backslash makes the next character an ordinary one.
pub open spec fn comment_start(
    raw: Seq<char>,
    i: int,
    quote: Option<char>,
    escaped: bool,
) -> Option<int>
    decreases raw.len() - i,
{
    if i < 0 || i >= raw.len() {
        None
    } else if escaped {
        comment_start(raw, i + 1, quote, false)
    } else if raw[i] == '\\' && quote == Some('"') {
        comment_start(raw, i + 1, quote, true)
    } else if raw[i] == '\'' || raw[i] == '"' {
        if quote == Some(raw[i]) {
            comment_start(raw, i + 1, None, false)
        } else if quote is None {
            comment_start(raw, i + 1, Some(raw[i]), false)
        } else {
            comment_start(raw, i + 1, quote, false)
        }
    } else if raw[i] == '#' && quote is None && i > 0 && is_space(raw[i - 1]) {
        Some(i)
    } else {
        comment_start(raw, i + 1, quote, false)
    }
}

/// The value in front of a comment, and the comment where it is not blank.
pub open spec fn value_and_comment(raw: Seq<char>) -> (Seq<char>, Option<Seq<char>>) {
    match comment_start(raw, 0, None, false) {
        Some(i) => (
            trim_end(raw.take(i)),
            if trim(raw.skip(i + 1)).len() == 0 {
                None
            } else {
                Some(trim(raw.skip(i + 1)))
            },
        ),
        None => (raw, None),
    }
}

/// Separates a value from the comment behind it.
pub fn split_env_value(raw: &str) -> (r: (String, Option<String>))
    ensures
        r.0@ == value_and_comment(raw@).0,
        match r.1 {
            Some(comment) => value_and_comment(raw@).1 == Some(comment@),
            None => value_and_comment(raw@).1 is None,
        },
{
    let s: Vec<char> = chars_of(raw);
    let mut quote: Option<char> = None;
    let mut escaped: bool = false;
    let mut i: usize = 0;
    while i < s.len()
        invariant
            i <= s@.len(),
            s@ == raw@,
            comment_start(raw@, 0, None, false) == comment_start(raw@, i as int, quote, escaped),
        decreases s@.len() - i,
    {
        let c: char = s[i];
        if escaped {
            escaped = false;
        } else if c == '\\' && is_quote(quote, '"') {
            escaped = true;
        } else if c == '\'' || c == '"' {
            if is_quote(quote, c) {
                quote = None;
            } else if quote.is_none() {
                quote = Some(c);
            }
        } else if c == '#' && quote.is_none() && i > 0 && char_is_space(s[i - 1]) {
            let before: String = text_of_range(&s, 0, i);
            let behind: String = text_of_range(&s, i + 1, s.len());
            proof {
                assert(before@ =~= raw@.take(i as int));
                assert(behind@ =~= raw@.skip(i + 1));
            }
            let value: String = trimmed_end(before.as_str());
            let comment: String = trimmed(behind.as_str());
            if comment.as_str().is_empty() {
                return (value, None);
            }
            return (value, Some(comment));
        }
        i += 1;
    }
    (owned(raw), None)
}

fn is_quote(quote: Option<char>, c: char) -> (r: bool)
    ensures
        r == (quote == Some(c)),
{
    match quote {
        Some(q) => q == c,
        None => false,
    }
}

// ---------------------------------------------------------------------------------------------
// Reading
// ---------------------------------------------------------------------------------------------
/// What has been read of an environment file: its variables, and the comment lines that wait for
/// the next variable.
#[verifier::ext_equal]
pub struct EnvProgress {
    pub entries: Seq<EnvVariableView>,
    pub comments: Seq<Seq<char>>,
}

/// The assignment on a line, without the word `export` before it.
pub open spec fn assignment(line: Seq<char>) -> Seq<char> {
    if starts_with(line, "export "@) {
        line.skip("export "@.len() as int)
    } else {
        line
    }
}

/// The comment lines once the comment behind a value has joined them.
pub open spec fn with_inline(comments: Seq<Seq<char>>, inline: Option<Seq<char>>) -> Seq<Seq<char>> {
    match inline {
        Some(comment) => comments.push(comment),
        None => comments,
    }
}

/// The variable that an assignment makes.
pub open spec fn assigned(
    key: Seq<char>,
    raw: Seq<char>,
    comments: Seq<Seq<char>>,
) -> EnvVariableView {
    let parts = value_and_comment(trim(raw));
    EnvVariableView {
        key: trim(key),
        value: parts.0,
        comment: trim(join(with_inline(comments, parts.1), "\n"@)),
        source: "template"@,
        modified: false,
    }
}

/// Reads one more line.
pub open spec fn env_step(progress: EnvProgress, line: Seq<char>) -> EnvProgress {
    let t = trim(line);
    if starts_with(t, "#"@) {
        EnvProgress {
            entries: progress.entries,
            comments: progress.comments.push(trim(trim_start_of(t, "#"@))),
        }
    } else if t.len() == 0 {
        EnvProgress {
            entries: progress.entries,
            comments: if progress.comments.len() == 0 {
                progress.comments
            } else {
                progress.comments.push(Seq::<char>::empty())
            },
        }
    } else {
        match split_once(assignment(t), "="@) {
            Some((key, raw)) => if trim(key).len() == 0 {
                progress
            } else {
                EnvProgress {
                    entries: progress.entries.push(assigned(key, raw, progress.comments)),
                    comments: seq![],
                }
            },
            None => progress,
        }
    }
}

/// Reads lines from the first to the last.
pub open spec fn env_fold(rows: Seq<Seq<char>>) -> EnvProgress
    decreases rows.len(),
{
    if rows.len() == 0 {
        EnvProgress { entries: seq![], comments: seq![] }
    } else {
        env_step(env_fold(rows.drop_last()), rows.last())
    }
}

/// The variables of an environment file.
pub open spec fn env_entries(content: Seq<char>) -> Seq<EnvVariableView> {
    env_fold(lines(content)).entries
}

/// Reads an environment file.
pub fn parse_env(content: &str) -> (entries: Vec<EnvVariable>)
    ensures
        env_views(entries@) == env_entries(content@),
{
    let rows: Vec<String> = text_lines(content);
    let mut entries: Vec<EnvVariable> = Vec::new();
    let mut comments: Vec<String> = Vec::new();
    let mut i: usize = 0;
    proof {
        assert(env_views(entries@) =~= Seq::<EnvVariableView>::empty());
        assert(texts(comments@) =~= Seq::<Seq<char>>::empty());
    }
    while i < rows.len()
        invariant
            i <= rows@.len(),
            texts(rows@) == lines(content@),
            env_views(entries@) == env_fold(texts(rows@).take(i as int)).entries,
            texts(comments@) == env_fold(texts(rows@).take(i as int)).comments,
        decreases rows@.len() - i,
    {
        let ghost before = env_fold(texts(rows@).take(i as int));
        proof {
            assert(texts(rows@).take(i + 1).drop_last() =~= texts(rows@).take(i as int));
            assert(texts(rows@).take(i + 1).last() == rows@[i as int]@);
        }
        let line: String = trimmed(rows[i].as_str());
        i += 1;
        if has_prefix(line.as_str(), "#") {
            let body: String = trimmed_start_of(line.as_str(), "#");
            let comment: String = trimmed(body.as_str());
            comments.push(comment);
            proof {
                assert(texts(comments@) =~= before.comments.push(comment@));
            }
            continue;
        }
        if line.as_str().is_empty() {
            if comments.len() > 0 {
                let blank: String = String::new();
                comments.push(blank);
                proof {
                    assert(texts(comments@) =~= before.comments.push(blank@));
                }
            }
            continue;
        }
        let text: String = match without_prefix(line.as_str(), "export ") {
            Some(rest) => rest,
            None => line,
        };
        match split_text_once(text.as_str(), "=") {
            Some((name, raw)) => {
                let key: String = trimmed(name.as_str());
                if !key.as_str().is_empty() {
                    let value_text: String = trimmed(raw.as_str());
                    let (value, inline) = split_env_value(value_text.as_str());
                    match inline {
                        Some(comment) => {
                            comments.push(comment);
                            proof {
                                assert(texts(comments@) =~= before.comments.push(comment@));
                            }
                        },
                        None => {},
                    }
                    let joined: String = join_texts(&comments, "\n");
                    let entry: EnvVariable = EnvVariable {
                        key,
                        value,
                        comment: trimmed(joined.as_str()),
                        source: owned("template"),
                        modified: false,
                    };
                    proof {
                        assert(entry@ =~= assigned(name@, raw@, before.comments));
                    }
                    entries.push(entry);
                    comments.clear();
                    proof {
                        assert(env_views(entries@) =~= before.entries.push(entry@));
                        assert(texts(comments@) =~= Seq::<Seq<char>>::empty());
                    }
                }
            },
            None => {},
        }
    }
    proof {
        assert(texts(rows@).take(rows@.len() as int) =~= texts(rows@));
    }
    entries
}

// ---------------------------------------------------------------------------------------------
// Writing
// ---------------------------------------------------------------------------------------------
/// Each line as a comment line of an environment file.
pub open spec fn comment_block(rows: Seq<Seq<char>>) -> Seq<char>
    decreases rows.len(),
{
    if rows.len() == 0 {
        seq![]
    } else {
        comment_block(rows.drop_last()) + "# "@ + trim(rows.last()) + "\n"@
    }
}

/// One variable as it is written to an environment file.
pub open spec fn env_block(entry: EnvVariableView) -> Seq<char> {
    (if trim(entry.comment).len() == 0 {
        seq![]
    } else {
        comment_block(lines(entry.comment))
    }) + entry.key + "="@ + entry.value + "\n\n"@
}

/// The variables as they are written to an environment file.
pub open spec fn env_file(entries: Seq<EnvVariableView>) -> Seq<char>
    decreases entries.len(),
{
    if entries.len() == 0 {
        seq![]
    } else {
        env_file(entries.drop_last()) + env_block(entries.last())
    }
}

/// Writes variables, each below its comment.
pub fn render_env(entries: &Vec<EnvVariable>) -> (output: String)
    ensures
        output@ == env_file(env_views(entries@)),
{
    let mut output: String = String::new();
    let mut i: usize = 0;
    proof {
        assert(env_views(entries@).take(0) =~= Seq::<EnvVariableView>::empty());
    }
    while i < entries.len()
        invariant
            i <= entries@.len(),
            output@ == env_file(env_views(entries@).take(i as int)),
        decreases entries@.len() - i,
    {
        let ghost before = output@;
        let ghost entry = entries@[i as int]@;
        proof {
            assert(env_views(entries@).take(i + 1).drop_last() =~= env_views(entries@).take(
                i as int,
            ));
            assert(env_views(entries@).take(i + 1).last() == entry);
        }
        let comment: String = trimmed(entries[i].comment.as_str());
        let ghost mut block: Seq<char> = Seq::<char>::empty();
        proof {
            assert(before + block =~= before);
        }
        if !comment.as_str().is_empty() {
            let rows: Vec<String> = text_lines(entries[i].comment.as_str());
            let mut k: usize = 0;
            proof {
                assert(texts(rows@).take(0) =~= Seq::<Seq<char>>::empty());
            }
            while k < rows.len()
                invariant
                    k <= rows@.len(),
                    output@ == before + comment_block(texts(rows@).take(k as int)),
                decreases rows@.len() - k,
            {
                proof {
                    assert(texts(rows@).take(k + 1).drop_last() =~= texts(rows@).take(k as int));
                    assert(texts(rows@).take(k + 1).last() == rows@[k as int]@);
                }
                let row: String = trimmed(rows[k].as_str());
                output.append("# ");
                output.append(row.as_str());
                output.append("\n");
                proof {
                    assert(output@ =~= before + (comment_block(texts(rows@).take(k as int)) + "# "@
                        + row@ + "\n"@));
                }
                k += 1;
            }
            proof {
                assert(texts(rows@).take(k as int) =~= texts(rows@));
                block = comment_block(texts(rows@));
            }
        }
        output.append(entries[i].key.as_str());
        output.append("=");
        output.append(entries[i].value.as_str());
        output.append("\n\n");
        i += 1;
        proof {
            assert(output@ =~= before + (block + entry.key + "="@ + entry.value + "\n\n"@));
        }
    }
    proof {
        assert(env_views(entries@).take(i as int) =~= env_views(entries@));
    }
    output
}

// ---------------------------------------------------------------------------------------------
// Names
// ---------------------------------------------------------------------------------------------
/// `marker` stands in `key` as a word: between underscores or the ends of the key.
pub open spec fn has_marker(key: Seq<char>, marker: Seq<char>) -> bool {
    ||| key == marker
    ||| starts_with(key, marker + "_"@)
    ||| ends_with(key, "_"@ + marker)
    ||| contains(key, "_"@ + marker + "_"@)
}

/// A variable holds a secret when its name, in any case, has one of these words.
pub open spec fn secret_key(key: Seq<char>) -> bool {
    let k = ascii_upper(key);
    ||| has_marker(k, "KEY"@)
    ||| has_marker(k, "TOKEN"@)
    ||| has_marker(k, "SECRET"@)
    ||| has_marker(k, "PASSWORD"@)
    ||| has_marker(k, "CREDENTIAL"@)
}

fn marker_in(key: &str, marker: &str) -> (r: bool)
    ensures
        r == has_marker(key@, marker@),
{
    let behind: String = owned(marker).concat("_");
    let before: String = owned("_").concat(marker);
    let inside: String = owned("_").concat(marker).concat("_");
    same(key, marker) || has_prefix(key, behind.as_str()) || has_suffix(key, before.as_str())
        || text_has(key, inside.as_str())
}

/// Whether the name of a variable says that it holds a secret.
pub fn is_secret_env_key(key: &str) -> (r: bool)
    ensures
        r == secret_key(key@),
{
    let upper: String = to_ascii_upper(key);
    let k: &str = upper.as_str();
    marker_in(k, "KEY") || marker_in(k, "TOKEN") || marker_in(k, "SECRET") || marker_in(
        k,
        "PASSWORD",
    ) || marker_in(k, "CREDENTIAL")
}

/// Whether a file name is that of an environment file.
pub fn is_env_file_name(name: &str) -> (r: bool)
    ensures
        r == starts_with(name@, ".env"@),
{
    has_prefix(name, ".env")
}

// ---------------------------------------------------------------------------------------------
// Values for a process
// ---------------------------------------------------------------------------------------------
/// A value between two equal quotes stands for what the quotes hold.
pub open spec fn unquoted(raw: Seq<char>) -> Seq<char> {
    let v = trim(raw);
    if v.len() >= 2 && v[0] == v.last() && (v[0] == '\'' || v[0] == '"') {
        v.subrange(1, v.len() - 1)
    } else {
        v
    }
}

/// Quotes round a value are taken off, whichever of the two kinds they are and whatever they hold:
/// white space and other quotes in them stay.
pub proof fn law_quotes_are_taken_off(text: Seq<char>, quote: char)
    requires
        quote == '\'' || quote == '"',
    ensures
        unquoted(seq![quote] + text + seq![quote]) == text,
{
    let v = seq![quote] + text + seq![quote];
    assert(v[0] == quote && v.last() == quote);
    assert(!is_space(quote));
    assert(trim_start(v) == v);
    assert(trim_end(v) == v);
    assert(v.subrange(1, v.len() - 1) =~= text);
}

/// A value without white space at its ends that is not between two equal quotes is taken as it is,
/// a single quote among them; white space at the ends of a value does not matter.
pub proof fn law_bare_value_is_kept(value: Seq<char>)
    ensures
        trim(value) == value && !(value.len() >= 2 && value[0] == value.last() && (value[0] == '\''
            || value[0] == '"')) ==> unquoted(value) == value,
        unquoted(trim(value)) == unquoted(value),
{
    lemma_trim_is_trimmed(value);
}

/// The value that a process gets for a value of an environment file.
pub fn process_env_value(raw: &str) -> (value: String)
    ensures
        value@ == unquoted(raw@),
{
    let trimmed_raw: String = trimmed(raw);
    let v: Vec<char> = chars_of(trimmed_raw.as_str());
    if v.len() >= 2 {
        let first: char = v[0];
        let last: char = v[v.len() - 1];
        if (first == '\'' && last == '\'') || (first == '"' && last == '"') {
            return text_of_range(&v, 1, v.len() - 1);
        }
    }
    trimmed_raw
}

// ---------------------------------------------------------------------------------------------
// Merging
// ---------------------------------------------------------------------------------------------
/// The last entry of a list with this key.
pub open spec fn last_with_key(list: Seq<EnvVariableView>, key: Seq<char>) -> Option<EnvVariableView>
    decreases list.len(),
{
    if list.len() == 0 {
        None
    } else if list.last().key == key {
        Some(list.last())
    } else {
        last_with_key(list.drop_last(), key)
    }
}

/// The first entry of a list with this key.
pub open spec fn index_with_key(list: Seq<EnvVariableView>, key: Seq<char>, i: int) -> Option<int>
    decreases list.len() - i,
{
    if i < 0 || i >= list.len() {
        None
    } else if list[i].key == key {
        Some(i)
    } else {
        index_with_key(list, key, i + 1)
    }
}

/// An entry with what the vault has saved under its key: the comment where it has none, and the
/// value where the saved one is not blank.
pub open spec fn merged_entry(entry: EnvVariableView, vault: Seq<EnvVariableView>) -> EnvVariableView {
    match last_with_key(vault, entry.key) {
        Some(saved) => {
            let comment = if entry.comment.len() == 0 {
                saved.comment
            } else {
                entry.comment
            };
            if trim(saved.value).len() == 0 {
                EnvVariableView { comment, ..entry }
            } else {
                EnvVariableView { comment, value: saved.value, source: "vault"@, ..entry }
            }
        },
        None => entry,
    }
}

/// The position of the last entry of a list with this key.
pub fn last_position_of_key(list: &Vec<EnvVariable>, key: &str) -> (r: Option<usize>)
    ensures
        match r {
            Some(i) => i < list@.len() && last_with_key(env_views(list@), key@) == Some(
                list@[i as int]@,
            ),
            None => last_with_key(env_views(list@), key@) is None,
        },
{
    let mut n: usize = list.len();
    proof {
        assert(env_views(list@).take(n as int) =~= env_views(list@));
    }
    while n > 0
        invariant
            n <= list@.len(),
            last_with_key(env_views(list@), key@) == last_with_key(
                env_views(list@).take(n as int),
                key@,
            ),
        decreases n,
    {
        proof {
            assert(env_views(list@).take(n as int).drop_last() =~= env_views(list@).take(n - 1));
            assert(env_views(list@).take(n as int).last() == list@[n - 1]@);
        }
        if same(list[n - 1].key.as_str(), key) {
            return Some(n - 1);
        }
        n -= 1;
    }
    None
}

/// The position of the first entry of a list with this key.
pub fn position_of_key(list: &Vec<EnvVariable>, key: &str) -> (r: Option<usize>)
    ensures
        match r {
            Some(i) => i < list@.len() && index_with_key(env_views(list@), key@, 0) == Some(
                i as int,
            ),
            None => index_with_key(env_views(list@), key@, 0) is None,
        },
{
    let mut i: usize = 0;
    while i < list.len()
        invariant
            i <= list@.len(),
            index_with_key(env_views(list@), key@, 0) == index_with_key(
                env_views(list@),
                key@,
                i as int,
            ),
        decreases list@.len() - i,
    {
        if same(list[i].key.as_str(), key) {
            return Some(i);
        }
        i += 1;
    }
    None
}

/// Merges what the vault has saved into the variables of a template.
pub fn merge_env_entries(source: &Vec<EnvVariable>, vault: &Vec<EnvVariable>) -> (out: Vec<
    EnvVariable,
>)
    ensures
        env_views(out@) == env_views(source@).map_values(
            |e: EnvVariableView| merged_entry(e, env_views(vault@)),
        ),
{
    let mut out: Vec<EnvVariable> = Vec::new();
    let mut i: usize = 0;
    while i < source.len()
        invariant
            i <= source@.len(),
            out@.len() == i,
            forall|k: int|
                0 <= k < i ==> (#[trigger] out@[k])@ == merged_entry(
                    source@[k]@,
                    env_views(vault@),
                ),
        decreases source@.len() - i,
    {
        let mut entry: EnvVariable = source[i].clone();
        match last_position_of_key(vault, source[i].key.as_str()) {
            Some(k) => {
                if entry.comment.as_str().is_empty() {
                    entry.comment = vault[k].comment.clone();
                }
                let value: String = trimmed(vault[k].value.as_str());
                if !value.as_str().is_empty() {
                    entry.value = vault[k].value.clone();
                    entry.source = owned("vault");
                }
            },
            None => {},
        }
        proof {
            assert(entry@ =~= merged_entry(source@[i as int]@, env_views(vault@)));
        }
        out.push(entry);
        i += 1;
    }
    proof {
        assert(env_views(out@) =~= env_views(source@).map_values(
            |e: EnvVariableView| merged_entry(e, env_views(vault@)),
        ));
    }
    out
}

/// A blank value in the vault hides nothing: the variable keeps its own value and where it is from. A
/// value that is not blank takes its place. The name stays in any case.
pub proof fn law_blank_values_hide_nothing(entry: EnvVariableView, vault: Seq<EnvVariableView>)
    ensures
        merged_entry(entry, vault).key == entry.key,
        match last_with_key(vault, entry.key) {
            Some(saved) => if trim(saved.value).len() == 0 {
                merged_entry(entry, vault).value == entry.value && merged_entry(entry, vault).source
                    == entry.source
            } else {
                merged_entry(entry, vault).value == saved.value && merged_entry(entry, vault).source
                    == "vault"@
            },
            None => merged_entry(entry, vault) == entry,
        },
{
}

} // verus!
