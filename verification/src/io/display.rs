//! Geometries as text: how the text of a geometry is shown.

use vstd::prelude::*;
use vstd::string::*;

verus! {

/// The most characters that a shown geometry takes, brackets included.
pub const MAX_SHOWN_LENGTH: usize = 80;

/// How the text of a geometry is shown: between angle brackets, and cut so that
/// it takes at most 80 characters in all. A text of more than 78 characters
/// keeps its first 75, followed by three dots.
pub open spec fn shown(text: Seq<char>) -> Seq<char> {
    "<"@ + (if text.len() > 78 {
        text.subrange(0, 75) + "..."@
    } else {
        text
    }) + ">"@
}

/// A shown text never takes more than 80 characters, and a text of at most 78
/// characters is shown whole.
pub proof fn lemma_shown_length(text: Seq<char>)
    ensures
        shown(text).len() <= MAX_SHOWN_LENGTH,
        text.len() <= 78 ==> shown(text).len() == text.len() + 2,
        text.len() > 78 ==> shown(text).len() == MAX_SHOWN_LENGTH,
{
    reveal_strlit("<");
    reveal_strlit(">");
    reveal_strlit("...");
}

/// The text of a geometry as it is shown.
pub fn bracketed(text: &str) -> (out: String)
    ensures
        out@ == shown(text@),
{
    let mut out = String::from_str("<");
    if text.unicode_len() > 78 {
        out.append(text.substring_char(0, 75));
        out.append("...");
    } else {
        out.append(text);
    }
    out.append(">");
    out
}

} // verus!
