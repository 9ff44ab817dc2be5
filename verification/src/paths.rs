//! Paths as texts. What stands between their parts is the separator of the machine: `/`, or `\` on
//! Windows, where either one ends a directory and a path may begin with a drive.
use vstd::prelude::*;
use vstd::string::*;

use crate::text::{chars_of, is_ascii_letter, owned};

verus! {

/// The separator of a machine.
pub open spec fn separator_on(windows: bool) -> char {
    if windows {
        '\\'
    } else {
        '/'
    }
}

/// The separator of a machine.
pub fn path_separator(windows: bool) -> (c: char)
    ensures
        c == separator_on(windows),
{
    if windows {
        '\\'
    } else {
        '/'
    }
}

/// A path that begins with a drive, as in `C:\data`.
pub open spec fn has_drive(path: Seq<char>) -> bool {
    path.len() >= 2 && is_ascii_letter(path[0]) && path[1] == ':'
}

/// A directory that a name can follow without a separator.
pub open spec fn is_open_directory(separator: char, base: Seq<char>) -> bool {
    ||| base.len() == 0
    ||| base.last() == '/'
    ||| base.last() == separator
    ||| separator == '\\' && base.len() == 2 && has_drive(base)
}

/// The path of `name` below the directory `base`. A name with a drive of its own is a path already.
pub open spec fn join_path(separator: char, base: Seq<char>, name: Seq<char>) -> Seq<char> {
    if separator == '\\' && has_drive(name) {
        name
    } else if is_open_directory(separator, base) {
        base + name
    } else {
        base.push(separator) + name
    }
}

fn begins_with_drive(path: &Vec<char>) -> (r: bool)
    ensures
        r == has_drive(path@),
{
    path.len() >= 2 && ('a' <= path[0] && path[0] <= 'z' || 'A' <= path[0] && path[0] <= 'Z')
        && path[1] == ':'
}

/// The path of `name` below the directory `base`.
pub fn path_below(separator: char, base: &str, name: &str) -> (out: String)
    ensures
        out@ == join_path(separator, base@, name@),
{
    let directory: Vec<char> = chars_of(base);
    if separator == '\\' && begins_with_drive(&chars_of(name)) {
        return owned(name);
    }
    let n: usize = directory.len();
    let mut out: String = owned(base);
    if !(n == 0 || directory[n - 1] == '/' || directory[n - 1] == separator || separator == '\\'
        && n == 2 && begins_with_drive(&directory)) {
        out.push(separator);
    }
    out.concat(name)
}

} // verus!
