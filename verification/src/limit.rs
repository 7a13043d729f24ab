//! The optional limit on the number of results.

use vstd::prelude::*;

verus! {

/// `list` cut down to its first `n` items where a limit of `n` is given and
/// the list is longer; otherwise `list` itself.
pub open spec fn limited<T>(list: Seq<T>, limit: Option<usize>) -> Seq<T> {
    match limit {
        Some(n) if n < list.len() => list.take(n as int),
        _ => list,
    }
}

/// Cuts `list` down to its first `limit` strings where a limit is given and
/// the list is longer; otherwise leaves it as it is.
pub fn apply_limit(list: &mut Vec<String>, limit: Option<usize>)
    ensures
        final(list)@ == limited(old(list)@, limit),
{
    if let Some(n) = limit {
        list.truncate(n);
    }
}

/// A limit below the size of a duplicate-free list leaves exactly that many
/// of its members, still each once; any other limit, or none, changes
/// nothing.
pub proof fn limit_keeps_subset(list: Seq<Seq<char>>, limit: Option<usize>)
    requires
        list.no_duplicates(),
    ensures
        limited(list, limit).no_duplicates(),
        limited(list, limit).to_set().subset_of(list.to_set()),
        limited(list, limit).to_set().len() == limited(list, limit).len(),
        limit is Some && limit->0 < list.len() ==> limited(list, limit).len() == limit->0,
        limit is None || limit->0 >= list.len() ==> limited(list, limit) == list,
{
    let cut = limited(list, limit);
    assert forall|i: int| 0 <= i < cut.len() implies cut[i] == list[i] by {}
    assert forall|t: Seq<char>| cut.to_set().contains(t) implies list.to_set().contains(t) by {}
    cut.unique_seq_to_set();
}

} // verus!
