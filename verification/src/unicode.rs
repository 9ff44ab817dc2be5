//! Letter case beyond ASCII.
use vstd::prelude::*;
use vstd::string::*;

use crate::text::{ascii_lower, upper_char};

verus! {

/// A text of ASCII characters only.
pub open spec fn ascii_only(text: Seq<char>) -> bool {
    forall|i: int| 0 <= i < text.len() ==> (#[trigger] text[i] as u32) < 128
}

/// A text in lower case, by the Unicode case mapping.
pub uninterp spec fn unicode_lower(text: Seq<char>) -> Seq<char>;

/// `str::to_lowercase`: the text in lower case. The mapping itself is Unicode's and is only named;
/// on ASCII it takes each letter to its lower case and leaves the rest.
#[verifier::external_body]
pub(crate) fn to_unicode_lower(text: &str) -> (out: String)
    ensures
        out@ == unicode_lower(text@),
        ascii_only(text@) ==> out@ == ascii_lower(text@),
{
    text.to_lowercase()
}

/// A character in upper case, by the Unicode case mapping: one character or more.
pub uninterp spec fn unicode_upper(c: char) -> Seq<char>;

/// `char::to_uppercase`: the character in upper case. The mapping itself is Unicode's and is only
/// named; on ASCII it takes a letter to its upper case and leaves the rest.
#[verifier::external_body]
pub(crate) fn to_unicode_upper(c: char) -> (out: String)
    ensures
        out@ == unicode_upper(c),
        (c as u32) < 128 ==> out@ == seq![upper_char(c)],
{
    c.to_uppercase().to_string()
}

} // verus!
