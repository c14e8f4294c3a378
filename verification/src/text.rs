//! Text primitives shared by the codec: the lowercase form of a text, and
//! character-level helpers on strings.

use vstd::prelude::*;
use vstd::string::StringExecFns;

verus! {

/// The lowercase form of a text: what `str::to_lowercase` returns for a string
/// with these characters.
pub uninterp spec fn lowercase_of(s: Seq<char>) -> Seq<char>;

/// An ASCII character that is not an uppercase letter. Lowercasing leaves such
/// a character as it is.
pub open spec fn is_caseless_ascii(c: char) -> bool {
    c as u32 <= 0x7f && !(0x41 <= c as u32 <= 0x5a)
}

/// Every caseless ASCII character of `raw` also occurs in `lowered`.
pub open spec fn keeps_caseless(raw: Seq<char>, lowered: Seq<char>) -> bool {
    forall|c: char| #[trigger] raw.contains(c) && is_caseless_ascii(c) ==> lowered.contains(c)
}

/// `str::to_lowercase` of the standard library.
///
/// Trusted: the result is a function of the characters of `s` alone, named
/// [`lowercase_of`]; and lowercasing maps each character for itself, an ASCII
/// character that is no uppercase letter to itself, so every such character
/// of `s` is still found in the result.
pub assume_specification[ str::to_lowercase ](s: &str) -> (r: String)
    ensures
        r@ == lowercase_of(s@),
        keeps_caseless(s@, r@),
;

/// `String::push` of the standard library.
///
/// Trusted: the string afterwards is the string before with `c` appended.
pub assume_specification[ String::push ](s: &mut String, c: char)
    ensures
        final(s)@ == old(s)@.push(c),
;

/// Whether two strings hold the same text.
pub fn same_text(a: &str, b: &str) -> (r: bool)
    ensures
        r == (a@ == b@),
{
    String::from_str(a) == String::from_str(b)
}

/// Whether `c` occurs in `s`.
pub fn contains_char(s: &str, c: char) -> (r: bool)
    ensures
        r == s@.contains(c),
{
    for found in it: s.chars()
        invariant
            it.seq() == s@,
            forall|j: int| 0 <= j < it.index() ==> s@[j] != c,
    {
        if found == c {
            return true;
        }
    }
    false
}

/// Whether the first character of `s` is `c`.
pub fn starts_with_char(s: &str, c: char) -> (r: bool)
    ensures
        r == (s@.len() > 0 && s@[0] == c),
{
    for first in it: s.chars()
        invariant
            it.seq() == s@,
            it.index() == 0,
    {
        return first == c;
    }
    false
}

} // verus!
