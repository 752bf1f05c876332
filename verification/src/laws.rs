//! General laws of the container's contracts, stated over the abstract
//! sequences that the operations' postconditions speak of.

use vstd::prelude::*;

verus! {

/// Stack discipline: pushing an element onto a sequence makes it the last
/// element, and removing it again restores the sequence, so elements come
/// back in exact reverse order of their pushes.
pub proof fn lemma_push_pop_stack<V>(s: Seq<V>, v: V)
    ensures
        s.push(v).last() == v,
        s.push(v).drop_last() == s,
{
    assert(s.push(v).drop_last() =~= s);
}

/// Inserting a value at index `i` and then removing at the same index
/// returns the sequence to exactly what it was, for any `i` up to the
/// length: insert and remove are inverse at a fixed index.
pub proof fn lemma_insert_remove_inverse<V>(s: Seq<V>, i: int, v: V)
    requires
        0 <= i <= s.len(),
    ensures
        s.insert(i, v).remove(i) == s,
{
    assert(s.insert(i, v).remove(i) =~= s);
}

} // verus!
