//! Index selections: which words are taken, which variant of each, and in
//! which order they are joined. The listings themselves come from itertools.

use vstd::prelude::*;
use std::ops::Range;
use itertools::structs::Permutations;
use itertools::structs::MultiProduct;
use itertools::structs::Combinations;
use itertools::Itertools;

verus! {

/// `c` selects positions of a list of `n` items in strictly increasing order.
pub open spec fn is_combination(c: Seq<usize>, n: nat) -> bool {
    &&& forall|i: int| 0 <= i < c.len() ==> c[i] < n
    &&& forall|i: int, j: int| 0 <= i < j < c.len() ==> c[i] < c[j]
}

/// `v` picks one position below `sizes[i]` for every `i`.
pub open spec fn is_choice(v: Seq<usize>, sizes: Seq<usize>) -> bool {
    &&& v.len() == sizes.len()
    &&& forall|i: int| 0 <= i < v.len() ==> v[i] < sizes[i]
}

/// `p` is a reordering of the positions `0..k`.
pub open spec fn is_ordering(p: Seq<usize>, k: nat) -> bool {
    &&& p.len() == k
    &&& forall|i: int| 0 <= i < p.len() ==> p[i] < k
    &&& forall|i: int, j: int| 0 <= i < j < p.len() ==> p[i] != p[j]
}

/// `a` comes before `b` in dictionary order: at the first place where the
/// two differ, `a` holds the smaller position.
pub open spec fn comes_before(a: Seq<usize>, b: Seq<usize>) -> bool {
    exists|i: int|
        0 <= i < a.len() && i < b.len() && #[trigger] a.take(i) == b.take(i) && a[i] < b[i]
}

/// The items of `list` stand in dictionary order, each before the next.
pub open spec fn ascending(list: Seq<Seq<usize>>) -> bool {
    forall|i: int, j: int| 0 <= i < j < list.len() ==> comes_before(list[i], list[j])
}

/// A list in dictionary order holds nothing twice.
pub proof fn ascending_is_distinct(list: Seq<Seq<usize>>)
    requires
        ascending(list),
    ensures
        list.no_duplicates(),
{
    assert forall|i: int, j: int| 0 <= i < j < list.len() implies list[i] != list[j] by {
        assert(comes_before(list[i], list[j]));
    }
}

/// `list` holds every combination of `k` out of `n` positions and nothing
/// else, in dictionary order.
pub open spec fn lists_combinations(list: Seq<Seq<usize>>, n: nat, k: nat) -> bool {
    &&& forall|j: int|
        0 <= j < list.len() ==> (#[trigger] list[j]).len() == k && is_combination(list[j], n)
    &&& forall|c: Seq<usize>| c.len() == k && #[trigger] is_combination(c, n) ==> list.contains(c)
    &&& ascending(list)
}

/// `list` holds every choice over `sizes` and nothing else, in dictionary
/// order.
pub open spec fn lists_choices(list: Seq<Seq<usize>>, sizes: Seq<usize>) -> bool {
    &&& forall|j: int| 0 <= j < list.len() ==> is_choice(#[trigger] list[j], sizes)
    &&& forall|v: Seq<usize>| #[trigger] is_choice(v, sizes) ==> list.contains(v)
    &&& ascending(list)
}

/// `list` holds every reordering of `0..k` and nothing else, in dictionary
/// order.
pub open spec fn lists_orderings(list: Seq<Seq<usize>>, k: nat) -> bool {
    &&& forall|j: int| 0 <= j < list.len() ==> is_ordering(#[trigger] list[j], k)
    &&& forall|p: Seq<usize>| #[trigger] is_ordering(p, k) ==> list.contains(p)
    &&& ascending(list)
}

/// A running listing of combinations of positions: itertools' `Combinations`
/// over a range. itertools names that type only through an alias that fixes
/// one of its parameters, so it is held here in a struct whose inside is
/// never read; what it has yet to yield is `pending_combinations`.
#[verifier::external_body]
pub struct IndexCombinations {
    inner: Combinations<Range<usize>>,
}

/// itertools' `Permutations`, taken as an opaque type.
#[verifier::external_type_specification]
#[verifier::external_body]
#[verifier::reject_recursive_types(I)]
pub struct ExPermutations<I: Iterator>(Permutations<I>);

/// itertools' `MultiProduct`, taken as an opaque type.
#[verifier::external_type_specification]
#[verifier::external_body]
#[verifier::reject_recursive_types(I)]
pub struct ExMultiProduct<I>(MultiProduct<I>) where I: Iterator + Clone, I::Item: Clone;

/// The combinations that `Iterator::next` has yet to yield from a running
/// `Combinations` of itertools, in order.
pub uninterp spec fn pending_combinations(it: IndexCombinations) -> Seq<Seq<usize>>;

/// The choices that `Iterator::next` has yet to yield from a running
/// `MultiProduct` of itertools, in order.
pub uninterp spec fn pending_choices(it: MultiProduct<Range<usize>>) -> Seq<Seq<usize>>;

/// The reorderings that `Iterator::next` has yet to yield from a running
/// `Permutations` of itertools, in order.
pub uninterp spec fn pending_orderings(it: Permutations<Range<usize>>) -> Seq<Seq<usize>>;

/// Calls `Itertools::combinations` on the range `0..n`. A fresh listing
/// yields each way of taking `k` of the `n` positions in increasing order,
/// once, the ways themselves in dictionary order.
#[verifier::external_body]
pub(crate) fn combinations(n: usize, k: usize) -> (it: IndexCombinations)
    ensures
        lists_combinations(pending_combinations(it), n as nat, k as nat),
{
    IndexCombinations { inner: (0..n).combinations(k) }
}

/// Calls `Iterator::next` on a listing of combinations: it hands out the
/// first pending combination, or `None` once none is pending.
#[verifier::external_body]
pub(crate) fn next_combination(it: &mut IndexCombinations) -> (r: Option<Vec<usize>>)
    ensures
        match r {
            Some(c) => pending_combinations(*old(it)).len() > 0
                && c@ == pending_combinations(*old(it))[0]
                && pending_combinations(*final(it)) == pending_combinations(*old(it)).skip(1),
            None => pending_combinations(*old(it)).len() == 0
                && pending_combinations(*final(it)).len() == 0,
        },
{
    it.inner.next()
}

/// Calls `Itertools::multi_cartesian_product` on the ranges `0..sizes[i]`.
/// A fresh product yields each way of picking one position from every
/// range, once, in dictionary order: the last range is walked fastest.
#[verifier::external_body]
pub(crate) fn choices(sizes: &Vec<usize>) -> (it: MultiProduct<Range<usize>>)
    ensures
        lists_choices(pending_choices(it), sizes@),
{
    sizes.iter().map(|n| 0..*n).multi_cartesian_product()
}

/// Calls `Iterator::next` on a cartesian product: it hands out the first
/// pending choice, or `None` once none is pending.
#[verifier::external_body]
pub(crate) fn next_choice(it: &mut MultiProduct<Range<usize>>) -> (r: Option<Vec<usize>>)
    ensures
        match r {
            Some(v) => pending_choices(*old(it)).len() > 0
                && v@ == pending_choices(*old(it))[0]
                && pending_choices(*final(it)) == pending_choices(*old(it)).skip(1),
            None => pending_choices(*old(it)).len() == 0
                && pending_choices(*final(it)).len() == 0,
        },
{
    it.next()
}

/// Calls `Itertools::permutations` on the range `0..k`, for all `k`
/// positions. A fresh listing yields each reordering of `0..k`, once, in
/// dictionary order.
#[verifier::external_body]
pub(crate) fn orderings(k: usize) -> (it: Permutations<Range<usize>>)
    ensures
        lists_orderings(pending_orderings(it), k as nat),
{
    (0..k).permutations(k)
}

/// Calls `Iterator::next` on a listing of reorderings: it hands out the
/// first pending one, or `None` once none is pending.
#[verifier::external_body]
pub(crate) fn next_ordering(it: &mut Permutations<Range<usize>>) -> (r: Option<Vec<usize>>)
    ensures
        match r {
            Some(p) => pending_orderings(*old(it)).len() > 0
                && p@ == pending_orderings(*old(it))[0]
                && pending_orderings(*final(it)) == pending_orderings(*old(it)).skip(1),
            None => pending_orderings(*old(it)).len() == 0
                && pending_orderings(*final(it)).len() == 0,
        },
{
    it.next()
}

} // verus!
