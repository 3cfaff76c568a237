//! Where a text begins and ends.
use vstd::prelude::*;

verus! {

/// Whether `s` begins with `prefix`.
pub open spec fn starts_with(s: Seq<char>, prefix: Seq<char>) -> bool {
    prefix.len() <= s.len() && s.subrange(0, prefix.len() as int) == prefix
}

/// Whether `s` ends with `suffix`.
pub open spec fn ends_with(s: Seq<char>, suffix: Seq<char>) -> bool {
    suffix.len() <= s.len() && s.subrange(s.len() - suffix.len(), s.len() as int) == suffix
}

/// A text joined from two parts begins with the first and ends with the
/// second.
pub proof fn lemma_joined(head: Seq<char>, tail: Seq<char>)
    ensures
        starts_with(head + tail, head),
        ends_with(head + tail, tail),
{
    assert((head + tail).subrange(0, head.len() as int) =~= head);
    assert((head + tail).subrange((head + tail).len() - tail.len(), (head + tail).len() as int) =~= tail);
}

} // verus!
