//! Prefixes and suffixes of names.

use vstd::prelude::*;
use vstd::string::*;

verus! {

/// Whether `text` begins with `prefix`.
pub open spec fn has_prefix(text: Seq<char>, prefix: Seq<char>) -> bool {
    prefix.len() <= text.len() && text.subrange(0, prefix.len() as int) == prefix
}

/// Whether `text` ends with `suffix`.
pub open spec fn has_suffix(text: Seq<char>, suffix: Seq<char>) -> bool {
    suffix.len() <= text.len() && text.subrange(text.len() - suffix.len(), text.len() as int)
        == suffix
}

/// Whether the `n` characters of `text` from `from` on are the characters of
/// `part`.
fn matches_at(text: &str, from: usize, part: &str, n: usize) -> (r: bool)
    requires
        n == part@.len(),
        from + n <= text@.len() <= usize::MAX,
    ensures
        r == (text@.subrange(from as int, from + n) == part@),
{
    let mut i: usize = 0;
    while i < n
        invariant
            i <= n,
            n == part@.len(),
            from + n <= text@.len() <= usize::MAX,
            forall|j: int| 0 <= j < i ==> text@[from + j] == part@[j],
        decreases n - i,
    {
        if text.get_char(from + i) != part.get_char(i) {
            assert(text@.subrange(from as int, from + n)[i as int] != part@[i as int]);
            return false;
        }
        i = i + 1;
    }
    assert(text@.subrange(from as int, from + n) =~= part@);
    true
}

/// Whether `text` begins with `prefix`.
pub fn starts_with(text: &str, prefix: &str) -> (r: bool)
    ensures
        r == has_prefix(text@, prefix@),
{
    let n: usize = prefix.unicode_len();
    if n > text.unicode_len() {
        return false;
    }
    matches_at(text, 0, prefix, n)
}

/// Whether `text` ends with `suffix`.
pub fn ends_with(text: &str, suffix: &str) -> (r: bool)
    ensures
        r == has_suffix(text@, suffix@),
{
    let n: usize = suffix.unicode_len();
    let len: usize = text.unicode_len();
    if n > len {
        return false;
    }
    matches_at(text, len - n, suffix, n)
}

} // verus!
