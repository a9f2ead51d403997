//! General laws of the container's operations.
//!
//! The operations' contracts describe each call in terms of the sequence
//! view; the lemmas here state, once and for every element type, how those
//! descriptions compose across calls.

use vstd::prelude::*;
use vstd::seq_lib::to_multiset_remove;
use vstd::seq_lib::to_multiset_update;

verus! {

/// Pushing `v` and then popping is an identity: on the pushed state, `pop`
/// returns exactly `v` (the last element) and leaves exactly the original
/// contents (everything but the last element).
pub proof fn lemma_push_then_pop<T>(s: Seq<T>, v: T)
    ensures
        s.push(v).len() == s.len() + 1,
        s.push(v).last() == v,
        s.push(v).drop_last() == s,
{
    assert(s.push(v).drop_last() =~= s);
}

/// Inserting `v` at index `i` puts `v` at index `i`, leaves every element
/// below `i` where it was, and moves every element previously at an index at
/// or above `i` up by exactly one.
pub proof fn lemma_insert_shifts<T>(s: Seq<T>, i: int, v: T)
    requires
        0 <= i <= s.len(),
    ensures
        s.insert(i, v).len() == s.len() + 1,
        s.insert(i, v)[i] == v,
        forall|j: int| 0 <= j < i ==> #[trigger] s.insert(i, v)[j] == s[j],
        forall|j: int| i <= j < s.len() ==> s.insert(i, v)[j + 1] == s[j],
{
    s.insert_ensures(i, v);
}

/// Removal at index `i` preserves the relative order of all other elements:
/// every element below `i` keeps its index and every element above `i` moves
/// down by exactly one, so the length shrinks by exactly one.
pub proof fn lemma_remove_preserves_order<T>(s: Seq<T>, i: int)
    requires
        0 <= i < s.len(),
    ensures
        s.remove(i).len() == s.len() - 1,
        forall|j: int| 0 <= j < i ==> #[trigger] s.remove(i)[j] == s[j],
        forall|j: int| i <= j < s.len() - 1 ==> #[trigger] s.remove(i)[j] == s[j + 1],
{
    s.remove_ensures(i);
}

/// Swap-removal at index `i` may reorder the remaining elements but keeps
/// exactly the same elements as order-preserving removal at `i` would: the
/// two results are equal as multisets, and both shrink the length by exactly
/// one.
pub proof fn lemma_swap_removal_same_elements<T>(s: Seq<T>, i: int)
    requires
        0 <= i < s.len(),
    ensures
        s.update(i, s.last()).drop_last().len() == s.len() - 1,
        s.update(i, s.last()).drop_last().to_multiset() == s.remove(i).to_multiset(),
{
    broadcast use vstd::multiset::group_multiset_axioms;

    let l = s.len() as int;
    let u = s.update(i, s.last());
    assert(u.drop_last() =~= u.remove(l - 1));
    to_multiset_update(s, i, s.last());
    to_multiset_remove(u, l - 1);
    to_multiset_remove(s, i);
    assert(u[l - 1] == s.last());
    assert(s.to_multiset().insert(s.last()).remove(s[i]).remove(s.last())
        =~= s.to_multiset().remove(s[i]));
}

/// The mathematical effect of `resize` on the contents: cut to the first `n`
/// elements when shrinking, append fills when growing.
pub open spec fn resized<T>(s: Seq<T>, n: int, fill: T) -> Seq<T>
    recommends
        0 <= n,
{
    if n <= s.len() {
        s.take(n)
    } else {
        s + Seq::new((n - s.len()) as nat, |i: int| fill)
    }
}

/// Resize round trip: growing (or keeping) the contents to `n` elements and
/// then resizing back to the original length restores the original contents
/// exactly, whatever the fill value was.
pub proof fn lemma_resize_round_trip<T>(s: Seq<T>, n: int, fill: T)
    requires
        s.len() <= n,
    ensures
        resized(resized(s, n, fill), s.len() as int, fill) == s,
{
    assert(resized(resized(s, n, fill), s.len() as int, fill) =~= s);
}

} // verus!
