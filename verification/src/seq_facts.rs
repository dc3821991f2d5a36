//! Facts about the first occurrence of a value in a sequence.

use vstd::prelude::*;

verus! {

/// An occurrence that nothing equal precedes is the first one.
pub proof fn lemma_first_occurrence<A>(s: Seq<A>, needle: A, index: int)
    requires
        0 <= index < s.len(),
        s[index] == needle,
        forall|j: int| 0 <= j < index ==> s[j] != needle,
    ensures
        s.index_of_first(needle) == Some(index),
{
    s.index_of_first_ensures(needle);
    assert(s.contains(needle));
}

/// A value that occurs nowhere has no first occurrence.
pub proof fn lemma_no_occurrence<A>(s: Seq<A>, needle: A)
    requires
        forall|j: int| 0 <= j < s.len() ==> s[j] != needle,
    ensures
        s.index_of_first(needle) is None,
        !s.contains(needle),
{
    s.index_of_first_ensures(needle);
}

} // verus!
