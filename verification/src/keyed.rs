//! Keyed accumulation: fold items into a sequence of entries with distinct
//! keys, merging into the first entry whose key matches and appending a
//! fresh entry otherwise. This models counting into a map while keeping
//! first-occurrence order.

use vstd::prelude::*;

verus! {

/// Accumulate one item into a keyed sequence: the first entry whose key is
/// `k` is merged; when none matches, `fresh` is appended.
pub open spec fn bump_by<T>(
    acc: Seq<T>,
    key: spec_fn(T) -> Seq<char>,
    k: Seq<char>,
    fresh: T,
    merge: spec_fn(T) -> T,
) -> Seq<T>
    decreases acc.len(),
{
    if acc.len() == 0 {
        seq![fresh]
    } else if key(acc[0]) == k {
        seq![merge(acc[0])] + acc.skip(1)
    } else {
        seq![acc[0]] + bump_by(acc.skip(1), key, k, fresh, merge)
    }
}

/// When the first match sits at index `j`, bumping is an update there.
pub proof fn lemma_bump_by_found<T>(
    acc: Seq<T>,
    key: spec_fn(T) -> Seq<char>,
    k: Seq<char>,
    fresh: T,
    merge: spec_fn(T) -> T,
    j: int,
)
    requires
        0 <= j < acc.len(),
        key(acc[j]) == k,
        forall|i: int| 0 <= i < j ==> key(#[trigger] acc[i]) != k,
    ensures
        bump_by(acc, key, k, fresh, merge) == acc.update(j, merge(acc[j])),
    decreases j,
{
    if j == 0 {
        assert(seq![merge(acc[0])] + acc.skip(1) =~= acc.update(0, merge(acc[0])));
    } else {
        assert(forall|i: int| 0 <= i < j - 1 ==> key(#[trigger] acc.skip(1)[i]) != k);
        assert(acc.skip(1)[j - 1] == acc[j]);
        lemma_bump_by_found(acc.skip(1), key, k, fresh, merge, j - 1);
        assert(seq![acc[0]] + acc.skip(1).update(j - 1, merge(acc.skip(1)[j - 1])) =~= acc.update(
            j,
            merge(acc[j]),
        ));
    }
}

/// When no key matches, bumping appends the fresh entry.
pub proof fn lemma_bump_by_absent<T>(
    acc: Seq<T>,
    key: spec_fn(T) -> Seq<char>,
    k: Seq<char>,
    fresh: T,
    merge: spec_fn(T) -> T,
)
    requires
        forall|i: int| 0 <= i < acc.len() ==> key(#[trigger] acc[i]) != k,
    ensures
        bump_by(acc, key, k, fresh, merge) == acc.push(fresh),
    decreases acc.len(),
{
    if acc.len() == 0 {
        assert(seq![fresh] =~= acc.push(fresh));
    } else {
        assert(forall|i: int| 0 <= i < acc.skip(1).len() ==> key(#[trigger] acc.skip(1)[i]) != k);
        lemma_bump_by_absent(acc.skip(1), key, k, fresh, merge);
        assert(seq![acc[0]] + acc.skip(1).push(fresh) =~= acc.push(fresh));
    }
}

} // verus!
