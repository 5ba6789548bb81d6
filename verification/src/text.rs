//! Comparing and shortening texts.

use vstd::prelude::*;
use vstd::string::{StrSliceExecFns, StringExecFns};

verus! {

/// Whether two texts are the same, character by character.
pub fn same_text(a: &str, b: &str) -> (same: bool)
    ensures
        same == (a@ == b@),
{
    let n: usize = a.unicode_len();
    if b.unicode_len() != n {
        return false;
    }
    let mut i: usize = 0;
    while i < n
        invariant
            i <= n,
            n == a@.len(),
            n == b@.len(),
            forall|k: int| 0 <= k < i ==> a@[k] == b@[k],
        decreases n - i,
    {
        if a.get_char(i) != b.get_char(i) {
            return false;
        }
        i = i + 1;
    }
    assert(a@ =~= b@);
    true
}

/// The first `length` characters of `text`, or all of it where it has
/// fewer, with three dots behind.
pub open spec fn truncated_with_ellipsis(text: Seq<char>, length: nat) -> Seq<char> {
    (if text.len() < length {
        text
    } else {
        text.take(length as int)
    }) + "..."@
}

/// Shortens a text to `length` characters and puts three dots behind it.
pub fn truncate_with_ellipsis(text: &str, length: usize) -> (short: String)
    ensures
        short@ == truncated_with_ellipsis(text@, length as nat),
{
    let n: usize = text.unicode_len();
    let kept = if n < length {
        assert(text@.subrange(0, n as int) =~= text@);
        text.substring_char(0, n)
    } else {
        text.substring_char(0, length)
    };
    String::from_str(kept).concat("...")
}

} // verus!
