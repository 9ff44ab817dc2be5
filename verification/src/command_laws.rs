//! What adding a port to a command and taking it away again have to do with each other.
use vstd::prelude::*;
use vstd::string::*;

use crate::commands::{
    array_argument, command_line, command_rows, first_port, line_port, port_number, port_program,
    process_of, process_port, quoted_parts, service_scan, string_argument, takes_port, tokens_of,
    with_command_port, with_port_argument, without_port_argument,
};
use crate::env::EnvVariableView;
use crate::number::{all_digits, decimal, digit_run, lemma_decimal_value};
use crate::ports::{index_with_upper_key, port_value};
use crate::rows::{line_body, line_ending};
use crate::search::{
    at, contains, find, lemma_at_char, lemma_find, lemma_find_from_is, lemma_first_char,
    lemma_no_char, lemma_rfind_to, rfind, starts_with, trim, trim_end, trim_end_of, trim_start,
    trim_start_of,
};
use crate::split::replace_all;
use crate::text::{ascii_lower, ascii_upper, is_digit};
use crate::urls::url_port;
use crate::variable_laws::{is_first_named, is_unnamed, lemma_first_is_only, lemma_index};

verus! {

/// A text that is nowhere in the two sides, between which it was put, stands there alone.
proof fn lemma_flag_stands_alone(left: Seq<char>, before: Seq<char>, behind: Seq<char>)
    requires
        forall|j: int| !#[trigger] at(left, "--port"@, j),
        forall|j: int| !#[trigger] at(behind, "--port"@, j),
        before.len() > 0,
        forall|k: int| 0 <= k < before.len() ==> !"--port"@.contains(#[trigger] before[k]),
        behind.len() > 0,
        !"--port"@.contains(behind[0]),
    ensures
        forall|j: int|
            #[trigger] at(left + before + "--port"@ + behind, "--port"@, j) <==> j == left.len()
                + before.len(),
{
    reveal_strlit("--port");
    let flag = "--port"@;
    let s = left + before + flag + behind;
    let place = (left.len() + before.len()) as int;
    let end = place + flag.len();
    assert(s.subrange(place, end) =~= flag);
    assert forall|j: int| #[trigger] at(s, flag, j) implies j == place by {
        let found = s.subrange(j, j + flag.len());
        assert(found == flag);
        if j + flag.len() <= left.len() {
            assert(left.subrange(j, j + flag.len()) =~= found);
            assert(at(left, flag, j));
        } else if j < place {
            let q = if j < left.len() {
                left.len() as int
            } else {
                j
            };
            assert(s[q] == before[q - left.len()]);
            assert(found[q - j] == s[q]);
            assert(flag[q - j] == before[q - left.len()]);
        } else if place < j <= end {
            assert(s[end] == behind[0]);
            assert(found[end - j] == s[end]);
            assert(flag[end - j] == behind[0]);
        } else if j > end {
            assert(behind.subrange(j - end, j - end + flag.len()) =~= found);
            assert(at(behind, flag, j - end));
        }
    }
}

/// A text that stands at one place only is replaced there.
pub proof fn lemma_only_place_is_replaced(s: Seq<char>, from: Seq<char>, to: Seq<char>, k: int)
    requires
        from.len() > 0,
        forall|j: int| #[trigger] at(s, from, j) <==> j == k,
    ensures
        replace_all(s, from, to) == s.take(k) + to + s.skip(k + from.len()),
{
    assert(at(s, from, k));
    lemma_find_from_is(s, from, 0, k);
    let rest = s.skip(k + from.len());
    lemma_find(rest, from);
    if find(rest, from) is Some {
        let j = find(rest, from)->0;
        assert(s.subrange(j + k + from.len(), j + k + from.len() + from.len()) =~= rest.subrange(
            j,
            j + from.len(),
        ));
        assert(at(s, from, j + k + from.len()));
    }
    assert(replace_all(rest, from, to) == rest);
}

/// An argument whose flag stands in the text once is taken away there.
proof fn lemma_argument_is_taken_away(
    left: Seq<char>,
    before: Seq<char>,
    value: Seq<char>,
    rest: Seq<char>,
)
    requires
        forall|j: int|
            #[trigger] at(left + before + "--port"@ + (value + rest), "--port"@, j) <==> j
                == left.len() + before.len(),
    ensures
        replace_all(
            left + before + "--port"@ + (value + rest),
            before + "--port"@ + value,
            ""@,
        ) == left + rest,
{
    reveal_strlit("--port");
    reveal_strlit("");
    let flag = "--port"@;
    let s = left + before + flag + (value + rest);
    let target = before + flag + value;
    let n = left.len() as int;
    assert forall|j: int| #[trigger] at(s, target, j) <==> j == n by {
        if at(s, target, j) {
            let found = s.subrange(j, j + target.len());
            assert(found == target);
            assert(found.subrange(before.len() as int, (before.len() + flag.len()) as int) =~= flag);
            assert(s.subrange(j + before.len(), j + before.len() + flag.len()) =~= flag);
            assert(at(s, flag, j + before.len()));
        }
        assert(s.subrange(n, n + target.len()) =~= target);
    }
    lemma_only_place_is_replaced(s, target, ""@, n);
    assert(s.take(n) =~= left);
    assert(s.skip(n + target.len()) =~= rest);
    assert(left + ""@ + rest =~= left + rest);
}

/// Digits that something else follows are the run at the start.
proof fn lemma_run_of_digits(digits: Seq<char>, rest: Seq<char>)
    requires
        all_digits(digits),
        rest.len() == 0 || !is_digit(rest[0]),
    ensures
        digit_run(digits + rest) == digits.len(),
    decreases digits.len(),
{
    if digits.len() == 0 {
        assert(digits + rest =~= rest);
    } else {
        assert((digits + rest)[0] == digits[0]);
        assert((digits + rest).skip(1) =~= digits.skip(1) + rest);
        lemma_run_of_digits(digits.skip(1), rest);
    }
}

/// A number is read from its digits.
proof fn lemma_port_of_digits(port: nat)
    requires
        port <= 65535,
    ensures
        decimal(port).len() > 0,
        all_digits(decimal(port)),
        port_number(decimal(port)) == Some(port),
{
    lemma_decimal_value(port);
    assert(is_digit(decimal(port)[0]));
}

/// A command line with a new argument: the flag stands in it once, between what leads to it and its
/// value.
spec fn has_new_argument(
    s: Seq<char>,
    left: Seq<char>,
    before: Seq<char>,
    value: Seq<char>,
    rest: Seq<char>,
) -> bool {
    &&& s == left + before + "--port"@ + (value + rest)
    &&& forall|j: int| #[trigger] at(s, "--port"@, j) <==> j == left.len() + before.len()
}

/// What the flag is followed by, and where it is found.
proof fn lemma_new_argument(
    s: Seq<char>,
    left: Seq<char>,
    before: Seq<char>,
    value: Seq<char>,
    rest: Seq<char>,
)
    requires
        has_new_argument(s, left, before, value, rest),
    ensures
        find(s, "--port"@) == Some((left.len() + before.len()) as int),
        s.skip((left.len() + before.len()) as int) == "--port"@ + (value + rest),
        replace_all(s, before + "--port"@ + value, ""@) == left + rest,
        s.len() > (left + rest).len(),
{
    reveal_strlit("--port");
    let place = (left.len() + before.len()) as int;
    assert(at(s, "--port"@, place));
    lemma_find_from_is(s, "--port"@, 0, place);
    assert(s.skip(place) =~= "--port"@ + (value + rest));
    lemma_argument_is_taken_away(left, before, value, rest);
}

/// A text without a dash does not hold the flag.
proof fn lemma_no_flag(s: Seq<char>)
    requires
        forall|k: int| 0 <= k < s.len() ==> #[trigger] s[k] != '-',
    ensures
        forall|j: int| !#[trigger] at(s, "--port"@, j),
{
    reveal_strlit("--port");
    assert forall|j: int| !#[trigger] at(s, "--port"@, j) by {
        if at(s, "--port"@, j) {
            assert(s.subrange(j, j + 6)[0] == s[j]);
        }
    }
}

/// A part of a text without the flag does not hold it either.
proof fn lemma_no_flag_in_part(s: Seq<char>, from: int, to: int)
    requires
        0 <= from <= to <= s.len(),
        !contains(s, "--port"@),
    ensures
        forall|j: int| !#[trigger] at(s.subrange(from, to), "--port"@, j),
{
    reveal_strlit("--port");
    assert forall|j: int| !#[trigger] at(s.subrange(from, to), "--port"@, j) by {
        if at(s.subrange(from, to), "--port"@, j) {
            assert(s.subrange(from + j, from + j + 6) =~= s.subrange(from, to).subrange(j, j + 6));
            assert(at(s, "--port"@, from + j));
        }
    }
}

/// An argument that was added to an array is the only one there, and its value is read back.
proof fn lemma_array_argument(line: Seq<char>, i: int, port: nat)
    requires
        !contains(line, "--port"@),
        port <= 65535,
        rfind(line, "]"@) == Some(i),
    ensures
        ({
            let s = with_port_argument(line, port)->0;
            let value = "\", \""@ + decimal(port) + "\""@;
            let flag = "--port"@ + (value + "]"@);
            &&& has_new_argument(s, line.take(i), ", \""@, value, "]"@)
            &&& array_argument(flag) == Some(decimal(port))
            &&& string_argument(flag) == Seq::<char>::empty()
        }),
{
    reveal_strlit("]");
    reveal_strlit("--port");
    reveal_strlit(", \"--port\", \"");
    reveal_strlit("\", \"");
    reveal_strlit(", \"");
    reveal_strlit("\"");
    reveal_strlit(",");
    lemma_rfind_to(line, "]"@, line.len() - 1);
    lemma_port_of_digits(port);
    let digits = decimal(port);
    let left = line.take(i);
    let value = "\", \""@ + digits + "\""@;
    let behind = value + "]"@;
    let s = with_port_argument(line, port)->0;
    assert(s =~= left + ", \""@ + "--port"@ + behind);
    assert(left =~= line.subrange(0, i));
    lemma_no_flag_in_part(line, 0, i);
    assert forall|k: int| 0 <= k < behind.len() implies #[trigger] behind[k] != '-' by {
        if 4 <= k < 4 + digits.len() {
            assert(behind[k] == digits[k - 4]);
        }
    }
    lemma_no_flag(behind);
    lemma_flag_stands_alone(left, ", \""@, behind);
    let flag = "--port"@ + behind;
    assert(","@ =~= seq![',']);
    assert("\""@ =~= seq!['"']);
    lemma_first_char(flag, ',', 7);
    let list = flag.skip(7);
    lemma_first_char(list, '"', 2);
    let inner = list.skip(3);
    let n = digits.len() as int;
    assert(inner =~= digits + "\""@ + "]"@);
    assert forall|j: int| 0 <= j < n implies inner[j] != '"' by {
        assert(inner[j] == digits[j]);
        assert(is_digit(digits[j]));
    }
    lemma_first_char(inner, '"', n);
    assert(inner.take(n) =~= digits);
    assert(flag.skip(6) =~= behind);
    assert(behind[0] == '"');
    assert(trim_start(behind) == behind);
    assert(digit_run(behind) == 0);
    assert(behind.take(0) =~= Seq::<char>::empty());
}

/// An argument that was added to a string is the only one there, and its value is read back.
proof fn lemma_string_argument(line: Seq<char>, i: int, port: nat)
    requires
        !contains(line, "--port"@),
        port <= 65535,
        rfind(line, "]"@) is None,
        rfind(line, "\""@) == Some(i),
    ensures
        ({
            let s = with_port_argument(line, port)->0;
            let value = " "@ + decimal(port);
            let flag = "--port"@ + (value + line.skip(i));
            &&& has_new_argument(s, line.take(i), " "@, value, line.skip(i))
            &&& array_argument(flag) is None
            &&& string_argument(flag) == decimal(port)
        }),
{
    reveal_strlit("--port");
    reveal_strlit(" --port ");
    reveal_strlit(" ");
    reveal_strlit("\"");
    reveal_strlit(",");
    lemma_rfind_to(line, "\""@, line.len() - 1);
    lemma_port_of_digits(port);
    let digits = decimal(port);
    let n = digits.len() as int;
    let left = line.take(i);
    let rest = line.skip(i);
    let value = " "@ + digits;
    let behind = value + rest;
    let s = with_port_argument(line, port)->0;
    assert("\""@ =~= seq!['"']);
    assert(","@ =~= seq![',']);
    lemma_at_char(line, '"', i);
    assert(s =~= left + " "@ + "--port"@ + behind);
    assert(left =~= line.subrange(0, i));
    lemma_no_flag_in_part(line, 0, i);
    assert(rest =~= line.subrange(i, line.len() as int));
    lemma_no_flag_in_part(line, i, line.len() as int);
    assert forall|j: int| !#[trigger] at(behind, "--port"@, j) by {
        if at(behind, "--port"@, j) {
            assert(behind.subrange(j, j + 6)[0] == behind[j]);
            if j < 1 + n {
                if j > 0 {
                    assert(behind[j] == digits[j - 1]);
                }
            } else {
                assert(rest.subrange(j - 1 - n, j - 1 - n + 6) =~= behind.subrange(j, j + 6));
                assert(at(rest, "--port"@, j - 1 - n));
            }
        }
    }
    lemma_flag_stands_alone(left, " "@, behind);
    let flag = "--port"@ + behind;
    let place = 7 + n;
    assert forall|k: int| 0 <= k < flag.len() && k != place implies #[trigger] flag[k] != '"' by {
        if 7 <= k < place {
            assert(flag[k] == digits[k - 7]);
            assert(is_digit(digits[k - 7]));
        } else if k > place {
            assert(flag[k] == line[i + (k - place)]);
            lemma_at_char(line, '"', i + (k - place));
            assert(!at(line, "\""@, i + (k - place)));
        }
    }
    lemma_find(flag, ","@);
    match find(flag, ","@) {
        Some(c) => {
            lemma_at_char(flag, ',', c);
            assert(flag[place] == rest[0]);
            if 7 <= c < place {
                assert(flag[c] == digits[c - 7]);
                assert(is_digit(digits[c - 7]));
            }
            assert(c > place);
            let list = flag.skip(c);
            assert forall|j: int| 0 <= j < list.len() implies list[j] != '"' by {
                assert(list[j] == flag[c + j]);
            }
            lemma_no_char(list, '"');
        },
        None => {
            lemma_no_char(flag.skip(flag.len() as int), '"');
        },
    }
    assert(flag.skip(6) =~= behind);
    let read = digits + rest;
    assert(behind.skip(1) =~= read);
    assert(read[0] == digits[0]);
    assert(is_digit(digits[0]));
    assert(trim_start(read) == read);
    assert(trim_start(behind) == read);
    lemma_run_of_digits(digits, rest);
    assert(read.take(n) =~= digits);
}

/// A port that was added to a command stays: setting the same port again changes nothing.
pub proof fn law_added_port_stays(line: Seq<char>, port: nat)
    requires
        !contains(line, "--port"@),
        port <= 65535,
        with_port_argument(line, port) is Some,
    ensures
        with_command_port(line, port) == with_port_argument(line, port),
        with_command_port(with_port_argument(line, port)->0, port) is None,
{
    reveal_strlit("]");
    lemma_find(line, "--port"@);
    lemma_port_of_digits(port);
    let s = with_port_argument(line, port)->0;
    match rfind(line, "]"@) {
        Some(i) => {
            lemma_array_argument(line, i, port);
            let value = "\", \""@ + decimal(port) + "\""@;
            lemma_new_argument(s, line.take(i), ", \""@, value, "]"@);
        },
        None => {
            let i = rfind(line, "\""@)->0;
            lemma_string_argument(line, i, port);
            lemma_new_argument(s, line.take(i), " "@, " "@ + decimal(port), line.skip(i));
        },
    }
}

/// Taking the port away from a command that it was added to gives the command back, up to what
/// stood behind the last bracket of an array.
pub proof fn law_removal_undoes_insertion(line: Seq<char>, port: nat)
    requires
        !contains(line, "--port"@),
        port <= 65535,
        with_port_argument(line, port) is Some,
    ensures
        without_port_argument(with_port_argument(line, port)->0) == Some(
            match rfind(line, "]"@) {
                Some(i) => line.take(i + 1),
                None => line,
            },
        ),
{
    reveal_strlit("]");
    reveal_strlit("--port");
    reveal_strlit(", \"--port\", \"");
    reveal_strlit("\", \"");
    reveal_strlit(", \"");
    reveal_strlit("\"");
    reveal_strlit(" ");
    reveal_strlit(" --port ");
    lemma_port_of_digits(port);
    let digits = decimal(port);
    let s = with_port_argument(line, port)->0;
    match rfind(line, "]"@) {
        Some(i) => {
            lemma_rfind_to(line, "]"@, line.len() - 1);
            lemma_array_argument(line, i, port);
            let value = "\", \""@ + digits + "\""@;
            lemma_new_argument(s, line.take(i), ", \""@, value, "]"@);
            assert(", \"--port\", \""@ + digits + "\""@ =~= ", \""@ + "--port"@ + value);
            assert("]"@ =~= seq![']']);
            lemma_at_char(line, ']', i);
            assert(line.take(i) + "]"@ =~= line.take(i + 1));
        },
        None => {
            let i = rfind(line, "\""@)->0;
            lemma_rfind_to(line, "\""@, line.len() - 1);
            lemma_string_argument(line, i, port);
            lemma_new_argument(s, line.take(i), " "@, " "@ + digits, line.skip(i));
            assert(" --port "@ + digits =~= " "@ + "--port"@ + (" "@ + digits));
            assert(line.take(i) + line.skip(i) =~= line);
        },
    }
}

/// A line in which the flag stands once: what stands before it, and what its value follows.
proof fn lemma_flag_once(a: Seq<char>, behind: Seq<char>)
    requires
        a.len() > 0,
        !"--port"@.contains(a.last()),
        !contains(a, "--port"@),
        !contains(behind, "--port"@),
        behind.len() > 0,
        !"--port"@.contains(behind[0]),
    ensures
        find(a + "--port"@ + behind, "--port"@) == Some(a.len() as int),
        (a + "--port"@ + behind).skip(a.len() as int) == "--port"@ + behind,
        forall|j: int| #[trigger]
            at(a + "--port"@ + behind, "--port"@, j) <==> j == a.len(),
{
    let left = a.drop_last();
    let before = seq![a.last()];
    let s = a + "--port"@ + behind;
    lemma_no_flag_in_part(a, 0, a.len() - 1);
    assert(a.subrange(0, a.len() - 1) =~= left);
    assert forall|j: int| !#[trigger] at(behind, "--port"@, j) by {}
    lemma_flag_stands_alone(left, before, behind);
    assert(left + before + "--port"@ + behind =~= s);
    assert(at(s, "--port"@, a.len() as int));
    lemma_find_from_is(s, "--port"@, 0, a.len() as int);
    assert(s.skip(a.len() as int) =~= "--port"@ + behind);
}

/// A value behind the only flag of a line is replaced there, and nowhere else.
proof fn lemma_value_is_replaced(a: Seq<char>, old: Seq<char>, new: Seq<char>, b: Seq<char>)
    requires
        forall|j: int| #[trigger]
            at(a + "--port"@ + (old + b), "--port"@, j) <==> j == a.len(),
    ensures
        replace_all(a + "--port"@ + (old + b), "--port"@ + old, "--port"@ + new) == a + "--port"@ + (
        new + b),
{
    reveal_strlit("--port");
    let s = a + "--port"@ + (old + b);
    let from = "--port"@ + old;
    let n = a.len() as int;
    assert forall|j: int| #[trigger] at(s, from, j) <==> j == n by {
        if at(s, from, j) {
            assert(s.subrange(j, j + 6) =~= s.subrange(j, j + from.len()).subrange(0, 6));
            assert(from.subrange(0, 6) =~= "--port"@);
            assert(at(s, "--port"@, j));
        }
        assert(s.subrange(n, n + from.len()) =~= from);
    }
    lemma_only_place_is_replaced(s, from, "--port"@ + new, n);
    assert(s.take(n) + ("--port"@ + new) + s.skip(n + from.len()) =~= a + "--port"@ + (new + b));
}

/// The port of a command that has one is replaced in its place, in an array as in a string, and
/// nothing else of the line changes. A command that has the wanted port stays.
#[verifier::rlimit(60)]
pub proof fn law_port_argument_is_replaced(
    a: Seq<char>,
    b: Seq<char>,
    current: nat,
    port: nat,
)
    requires
        a.len() > 0,
        !"--port"@.contains(a.last()),
        !contains(a, "--port"@),
        !contains(b, "--port"@),
        current <= 65535,
        port <= 65535,
    ensures
        current != port ==> with_command_port(
            a + "--port"@ + ("\", \""@ + decimal(current) + "\""@ + b),
            port,
        ) == Some(a + "--port"@ + ("\", \""@ + decimal(port) + "\""@ + b)),
        current == port ==> with_command_port(
            a + "--port"@ + ("\", \""@ + decimal(current) + "\""@ + b),
            port,
        ) is None,
        (b.len() > 0 ==> !is_digit(b[0])) && !contains(b, ","@) && current != port
            ==> with_command_port(a + "--port"@ + (" "@ + decimal(current) + b), port) == Some(
            a + "--port"@ + (" "@ + decimal(port) + b),
        ),
        (b.len() > 0 ==> !is_digit(b[0])) && !contains(b, ","@) && current == port
            ==> with_command_port(a + "--port"@ + (" "@ + decimal(current) + b), port) is None,
{
    reveal_strlit("--port");
    reveal_strlit("\", \"");
    reveal_strlit("\"");
    reveal_strlit(",");
    reveal_strlit(" ");
    reveal_strlit("--port\", \"");
    reveal_strlit("--port ");
    lemma_port_of_digits(current);
    lemma_port_of_digits(port);
    let digits = decimal(current);
    let n = digits.len() as int;
    assert(","@ =~= seq![',']);
    assert("\""@ =~= seq!['"']);
    // In an array.
    let value = "\", \""@ + digits + "\""@;
    let other = "\", \""@ + decimal(port) + "\""@;
    let behind = value + b;
    assert(!contains(behind, "--port"@)) by {
        if contains(behind, "--port"@) {
            let j = choose|j: int| at(behind, "--port"@, j);
            assert(behind.subrange(j, j + 6)[0] == behind[j]);
            if j < value.len() {
                if 4 <= j < 4 + n {
                    assert(behind[j] == digits[j - 4]);
                    assert(is_digit(digits[j - 4]));
                }
            } else {
                assert(b.subrange(j - value.len(), j - value.len() + 6) =~= behind.subrange(
                    j,
                    j + 6,
                ));
                assert(at(b, "--port"@, j - value.len()));
            }
        }
    }
    lemma_flag_once(a, behind);
    let flag = "--port"@ + behind;
    lemma_first_char(flag, ',', 7);
    let list = flag.skip(7);
    lemma_first_char(list, '"', 2);
    let inner = list.skip(3);
    assert(inner =~= digits + "\""@ + b);
    assert forall|j: int| 0 <= j < n implies inner[j] != '"' by {
        assert(inner[j] == digits[j]);
        assert(is_digit(digits[j]));
    }
    lemma_first_char(inner, '"', n);
    assert(inner.take(n) =~= digits);
    lemma_value_is_replaced(a, value, other, b);
    assert("--port\", \""@ + digits + "\""@ =~= "--port"@ + value);
    assert("--port\", \""@ + decimal(port) + "\""@ =~= "--port"@ + other);
    assert(flag.skip(6) =~= behind);
    assert(behind[0] == '"');
    assert(trim_start(behind) == behind);
    assert(digit_run(behind) == 0);
    assert(behind.take(0) =~= Seq::<char>::empty());
    // In a string.
    if (b.len() > 0 ==> !is_digit(b[0])) && !contains(b, ","@) {
        let value = " "@ + digits;
        let other = " "@ + decimal(port);
        let behind = value + b;
        assert(!contains(behind, "--port"@)) by {
            if contains(behind, "--port"@) {
                let j = choose|j: int| at(behind, "--port"@, j);
                assert(behind.subrange(j, j + 6)[0] == behind[j]);
                if j < value.len() {
                    if 1 <= j {
                        assert(behind[j] == digits[j - 1]);
                        assert(is_digit(digits[j - 1]));
                    }
                } else {
                    assert(b.subrange(j - value.len(), j - value.len() + 6) =~= behind.subrange(
                        j,
                        j + 6,
                    ));
                    assert(at(b, "--port"@, j - value.len()));
                }
            }
        }
        lemma_flag_once(a, behind);
        let flag = "--port"@ + behind;
        assert forall|j: int| 0 <= j < flag.len() implies flag[j] != ',' by {
            if 7 <= j < 7 + n {
                assert(flag[j] == digits[j - 7]);
                assert(is_digit(digits[j - 7]));
            } else if j >= 7 + n {
                assert(flag[j] == b[j - 7 - n]);
                lemma_at_char(b, ',', j - 7 - n);
                assert(!at(b, ","@, j - 7 - n));
            }
        }
        lemma_no_char(flag, ',');
        lemma_no_char(flag.skip(flag.len() as int), '"');
        assert(flag.skip(6) =~= behind);
        let read = digits + b;
        assert(behind.skip(1) =~= read);
        assert(read[0] == digits[0]);
        assert(is_digit(digits[0]));
        assert(trim_start(read) == read);
        assert(trim_start(behind) == read);
        lemma_run_of_digits(digits, b);
        assert(read.take(n) =~= digits);
        lemma_value_is_replaced(a, value, other, b);
        assert("--port "@ + digits =~= "--port"@ + value);
        assert("--port "@ + decimal(port) =~= "--port"@ + other);
    }
}

// ---------------------------------------------------------------------------------------------
// Which commands take a port, and which port
// ---------------------------------------------------------------------------------------------
/// The tokens of a command: what stands between quotes, one after the other.
pub proof fn law_tokens_stand_between_quotes(
    before: Seq<char>,
    token: Seq<char>,
    behind: Seq<char>,
)
    requires
        !contains(before, "\""@),
        !contains(token, "\""@),
    ensures
        quoted_parts(before + "\""@ + token + "\""@ + behind) == seq![token] + quoted_parts(behind),
        quoted_parts(before) == Seq::<Seq<char>>::empty(),
{
    reveal_strlit("\"");
    assert("\""@ =~= seq!['"']);
    let s = before + "\""@ + token + "\""@ + behind;
    let n = before.len() as int;
    lemma_find(before, "\""@);
    assert forall|j: int| 0 <= j < n implies s[j] != '"' by {
        assert(s[j] == before[j]);
        lemma_at_char(before, '"', j);
        assert(!at(before, "\""@, j));
    }
    assert(s[n] == '"');
    lemma_first_char(s, '"', n);
    let rest = s.skip(n + 1);
    assert(rest =~= token + "\""@ + behind);
    assert forall|j: int| 0 <= j < token.len() implies rest[j] != '"' by {
        assert(rest[j] == token[j]);
        lemma_at_char(token, '"', j);
        assert(!at(token, "\""@, j));
    }
    assert(rest[token.len() as int] == '"');
    lemma_first_char(rest, '"', token.len() as int);
    assert(rest.take(token.len() as int) =~= token);
    assert(rest.skip(token.len() as int + 1) =~= behind);
}

/// A command takes a port exactly where one of its tokens is one of three programs, in whatever
/// case; one that does not take it loses the one it has, and gets none.
pub proof fn law_programs_that_take_a_port(
    tokens: Seq<Seq<char>>,
    line: Seq<char>,
    port: Option<nat>,
)
    ensures
        takes_port(tokens) <==> exists|i: int|
            0 <= i < tokens.len() && (ascii_lower(#[trigger] tokens[i]) == "langgraph"@
                || ascii_lower(tokens[i]) == "vite"@ || ascii_lower(tokens[i]) == "uvicorn"@),
        !takes_port(tokens_of(line)) && !contains(line, "--port"@) ==> command_line(line, port)
            is None,
        !takes_port(tokens_of(line)) && contains(line, "--port"@) ==> command_line(line, port)
            == without_port_argument(line),
        takes_port(tokens_of(line)) && port is Some ==> command_line(line, port)
            == with_command_port(line, port->0),
        takes_port(tokens_of(line)) && port is None ==> command_line(line, port) is None,
{
    if exists|i: int|
        0 <= i < tokens.len() && (ascii_lower(#[trigger] tokens[i]) == "langgraph"@ || ascii_lower(
            tokens[i],
        ) == "vite"@ || ascii_lower(tokens[i]) == "uvicorn"@) {
        let i = choose|i: int|
            0 <= i < tokens.len() && (ascii_lower(#[trigger] tokens[i]) == "langgraph"@
                || ascii_lower(tokens[i]) == "vite"@ || ascii_lower(tokens[i]) == "uvicorn"@);
        assert(port_program(tokens[i]));
    }
}

/// The port of a process is the one in the first variable that bears its name and ends in `_PORT`, in
/// whatever case; without a port there, the first one that the services name under its name.
pub proof fn law_port_of_a_process(
    process: Seq<char>,
    env: Seq<EnvVariableView>,
    services: Seq<(Seq<char>, u16)>,
    i: int,
    m: int,
)
    ensures
        is_first_named(env, ascii_upper(process) + "_PORT"@, i) && port_value(env[i].value) is Some
            ==> process_port(process, env, services) == port_value(env[i].value),
        (is_unnamed(env, ascii_upper(process) + "_PORT"@) || is_first_named(
            env,
            ascii_upper(process) + "_PORT"@,
            i,
        ) && port_value(env[i].value) is None) && 0 <= m < services.len() && services[m].0
            == ascii_upper(process) && (forall|k: int|
            0 <= k < m ==> (#[trigger] services[k]).0 != ascii_upper(process)) ==> process_port(
            process,
            env,
            services,
        ) == Some(services[m].1 as nat),
        (is_unnamed(env, ascii_upper(process) + "_PORT"@) || is_first_named(
            env,
            ascii_upper(process) + "_PORT"@,
            i,
        ) && port_value(env[i].value) is None) && (forall|k: int|
            0 <= k < services.len() ==> (#[trigger] services[k]).0 != ascii_upper(process))
            ==> process_port(process, env, services) is None,
{
    let name = ascii_upper(process);
    let key = name + "_PORT"@;
    lemma_index(env, key, 0);
    if is_first_named(env, key, i) {
        lemma_first_is_only(env, key, i);
    }
    if is_unnamed(env, key) && index_with_upper_key(env, key, 0) is Some {
        let k = index_with_upper_key(env, key, 0)->0;
        assert(ascii_upper(env[k].key) != key);
    }
    lemma_first_port_of(services, name, m, 0);
}

proof fn lemma_first_port_of(ports: Seq<(Seq<char>, u16)>, name: Seq<char>, m: int, i: int)
    requires
        0 <= i,
    ensures
        i <= m < ports.len() && ports[m].0 == name && (forall|k: int|
            i <= k < m ==> (#[trigger] ports[k]).0 != name) ==> first_port(ports, name, i) == Some(
            ports[m].1,
        ),
        (forall|k: int| i <= k < ports.len() ==> (#[trigger] ports[k]).0 != name) ==> first_port(
            ports,
            name,
            i,
        ) is None,
    decreases ports.len() - i,
{
    if i < ports.len() {
        lemma_first_port_of(ports, name, m, i + 1);
    }
}

/// A section `[processes.name]` is that of a process up to the next header: each command in it gets
/// what that process should have, and its line ends as it did.
pub proof fn law_commands_of_a_process(
    rows: Seq<Seq<char>>,
    header: int,
    i: int,
    name: Seq<char>,
    env: Seq<EnvVariableView>,
    services: Seq<(Seq<char>, u16)>,
)
    requires
        0 <= header < i < rows.len(),
        trim(rows[header]) == "[processes."@ + name + "]"@,
        forall|k: int| header < k <= i ==> !starts_with(trim(#[trigger] rows[k]), "["@),
    ensures
        command_rows(rows, env, services)[i] == (if starts_with(trim(rows[i]), "command"@) {
            match command_line(line_body(rows[i]), process_port(name, env, services)) {
                Some(updated) => updated + line_ending(rows[i]),
                None => rows[i],
            }
        } else {
            rows[i]
        }),
{
    reveal_strlit("[processes.");
    reveal_strlit("[");
    reveal_strlit("]");
    let t = "[processes."@ + name + "]"@;
    assert(t.subrange(0, 11) =~= "[processes."@);
    let rest = t.skip(11);
    assert(rest =~= name + "]"@);
    assert(rest.subrange(rest.len() - 1, rest.len() as int) =~= "]"@);
    assert(rest.take(rest.len() - 1) =~= name);
    assert(process_of(rows, header + 1) == Some(name));
    lemma_process_lasts(rows, header + 1, i + 1);
}

proof fn lemma_process_lasts(rows: Seq<Seq<char>>, from: int, n: int)
    requires
        0 < from <= n <= rows.len(),
        forall|k: int| from <= k < n ==> !starts_with(trim(#[trigger] rows[k]), "["@),
    ensures
        process_of(rows, n) == process_of(rows, from),
    decreases n - from,
{
    if from < n {
        lemma_process_lasts(rows, from, n - 1);
        let t = trim(rows[n - 1]);
        assert(!starts_with(t, "["@));
        if starts_with(t, "[processes."@) {
            reveal_strlit("[");
            reveal_strlit("[processes.");
            assert(t.subrange(0, 11)[0] == "[processes."@[0]);
            assert(t.subrange(0, 1) =~= "["@);
        }
    }
}

/// The ports that a manifest declares: a line `url = "http://host:port"` of a section
/// `[services.name]` gives its port under the name in upper case, in the order of the lines; lines of
/// other sections give none.
pub proof fn law_service_ports_are_read(rows: Seq<Seq<char>>, row: Seq<char>, name: Seq<char>)
    ensures
        trim(row) == "[services."@ + name + "]"@ ==> service_scan(rows.push(row)).service == Some(
            name,
        ) && service_scan(rows.push(row)).ports == service_scan(rows).ports,
        starts_with(trim(row), "["@) && !starts_with(trim(row), "[services."@) ==> service_scan(
            rows.push(row),
        ).service is None && service_scan(rows.push(row)).ports == service_scan(rows).ports,
        !starts_with(trim(row), "["@) ==> service_scan(rows.push(row)).service == service_scan(
            rows,
        ).service,
        !starts_with(trim(row), "["@) && service_scan(rows).service is None ==> service_scan(
            rows.push(row),
        ).ports == service_scan(rows).ports,
        !starts_with(trim(row), "["@) && service_scan(rows).service == Some(name) ==> service_scan(
            rows.push(row),
        ).ports == (match line_port(trim(row)) {
            Some(port) => service_scan(rows).ports.push((ascii_upper(name), port as u16)),
            None => service_scan(rows).ports,
        }),
{
    reveal_strlit("[services.");
    reveal_strlit("[");
    reveal_strlit("]");
    let all = rows.push(row);
    let t = trim(row);
    assert(all.drop_last() =~= rows);
    assert(all.last() == row);
    let header = "[services."@ + name + "]"@;
    assert(header.subrange(0, 10) =~= "[services."@);
    let rest = header.skip(10);
    assert(rest =~= name + "]"@);
    assert(rest.subrange(rest.len() - 1, rest.len() as int) =~= "]"@);
    assert(rest.take(rest.len() - 1) =~= name);
    if starts_with(t, "[services."@) {
        assert(t.subrange(0, 10)[0] == "[services."@[0]);
        assert(t.subrange(0, 1) =~= "["@);
    }
}

/// The port in a line is that of the URL between the quotes behind its equals sign.
pub proof fn law_port_in_a_line(key: Seq<char>, url: Seq<char>)
    requires
        !contains(key, "="@),
        url.len() > 0,
        url[0] != '"',
        url.last() != '"',
    ensures
        line_port(key + "= \""@ + url + "\""@) == url_port(url),
{
    reveal_strlit("=");
    reveal_strlit("= \"");
    reveal_strlit("\"");
    assert("="@ =~= seq!['=']);
    let t = key + "= \""@ + url + "\""@;
    let n = key.len() as int;
    assert forall|j: int| 0 <= j < n implies t[j] != '=' by {
        assert(t[j] == key[j]);
        lemma_at_char(key, '=', j);
        assert(!at(key, "="@, j));
    }
    assert(t[n] == '=');
    lemma_first_char(t, '=', n);
    let value = t.skip(n + 1);
    let quoted = "\""@ + url + "\""@;
    assert(value =~= seq![' '] + quoted);
    assert(value.skip(1) =~= quoted);
    assert(quoted[0] == '"' && quoted.last() == '"');
    assert(trim_start(quoted) == quoted);
    assert(trim_start(value) == quoted);
    assert(trim_end(quoted) == quoted);
    let set = "\""@;
    assert(set[0] == '"');
    let rest = url + "\""@;
    assert(quoted.skip(1) =~= rest);
    assert(rest[0] == url[0]);
    assert(set.contains(quoted[0]));
    assert(!set.contains(rest[0])) by {
        assert(forall|c: char| set.contains(c) ==> c == '"');
    }
    assert(trim_start_of(rest, set) == rest);
    assert(trim_start_of(quoted, set) == rest);
    assert(rest.last() == '"');
    assert(set.contains(rest.last()));
    assert(rest.drop_last() =~= url);
    assert(!set.contains(url.last()));
    assert(trim_end_of(url, set) == url);
    assert(trim_end_of(rest, set) == url);
}

} // verus!
