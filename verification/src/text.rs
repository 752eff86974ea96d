//! Small questions about texts.

use vstd::prelude::*;

verus! {

/// Whether a text ends with another.
pub open spec fn ends_with(text: Seq<char>, ending: Seq<char>) -> bool {
    text.len() >= ending.len() && text.subrange(text.len() - ending.len(), text.len() as int)
        == ending
}

/// Whether a text ends with another.
pub fn has_ending(text: &str, ending: &str) -> (r: bool)
    ensures
        r == ends_with(text@, ending@),
{
    let long = text.unicode_len();
    let short = ending.unicode_len();
    if long < short {
        return false;
    }
    let from = long - short;
    let ghost tail = text@.subrange(from as int, long as int);
    let mut i: usize = 0;
    while i < short
        invariant
            i <= short,
            short == ending@.len(),
            long == text@.len(),
            from + short == long,
            tail == text@.subrange(from as int, long as int),
            forall|j: int| 0 <= j < i ==> tail[j] == ending@[j],
        decreases short - i,
    {
        if text.get_char(from + i) != ending.get_char(i) {
            assert(tail[i as int] != ending@[i as int]);
            return false;
        }
        i += 1;
    }
    assert(tail =~= ending@);
    true
}

} // verus!
