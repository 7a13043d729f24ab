//! The result set said directly: a string belongs to it exactly if it
//! spells out, in some order, distinct words of the list, each in one of
//! its variants.

use vstd::prelude::*;
use crate::arrange::{from_choice, joined, parts, picks_forms};
use crate::capitalization::{variants, Capitalization};
use crate::generate::{
    combination_fits, from_combination, generated, result_set, selected_forms,
};
use crate::selection::{is_combination, is_ordering};

verus! {

/// `a` lists positions below `n`, none of them twice, in any order.
pub open spec fn is_arrangement(a: Seq<usize>, n: nat) -> bool {
    &&& forall|i: int| 0 <= i < a.len() ==> a[i] < n
    &&& forall|i: int, j: int| 0 <= i < j < a.len() ==> a[i] != a[j]
}

/// The string that joins, in the order of `a`, the variant `u[i]` of the
/// word at `a[i]`.
pub open spec fn spelled(
    words: Seq<Seq<char>>,
    style: Capitalization,
    a: Seq<usize>,
    u: Seq<usize>,
) -> Seq<char> {
    Seq::new(a.len(), |i: int| variants(words[a[i] as int], style)[u[i] as int]).flatten()
}

/// `s` spells out one to `max_len` distinct words of the list in some
/// order, each in one of its variants.
pub open spec fn arranged(
    words: Seq<Seq<char>>,
    max_len: nat,
    style: Capitalization,
    s: Seq<char>,
) -> bool {
    exists|a: Seq<usize>, u: Seq<usize>|
        1 <= a.len() <= max_len && is_arrangement(a, words.len()) && picks_forms(
            u,
            selected_forms(words, style, a),
        ) && s == #[trigger] spelled(words, style, a, u)
}

/// How many positions at the front of the combination `c` lie below `x`.
pub open spec fn below(c: Seq<usize>, x: usize) -> nat
    decreases c.len(),
{
    if c.len() == 0 {
        0
    } else if c.last() < x {
        c.len()
    } else {
        below(c.drop_last(), x)
    }
}

/// `below(c, x)` parts the combination `c` into the positions below `x` and
/// the others.
proof fn below_parts(c: Seq<usize>, n: nat, x: usize)
    requires
        is_combination(c, n),
    ensures
        below(c, x) <= c.len(),
        forall|j: int| 0 <= j < below(c, x) ==> c[j] < x,
        forall|j: int| below(c, x) <= j < c.len() ==> c[j] >= x,
    decreases c.len(),
{
    if c.len() > 0 {
        let top = c.len() - 1;
        if c[top] >= x {
            let front = c.drop_last();
            below_parts(front, n, x);
            assert forall|j: int| 0 <= j < below(c, x) implies c[j] < x by {
                assert(front[j] < x);
            }
            assert forall|j: int| below(c, x) <= j < c.len() implies c[j] >= x by {
                if j < top {
                    assert(front[j] >= x);
                }
            }
        }
    }
}

/// `c` with `x` put in at place `m`.
pub open spec fn with_position(c: Seq<usize>, m: int, x: usize) -> Seq<usize> {
    Seq::new(
        c.len() + 1,
        |j: int|
            if j < m {
                c[j]
            } else if j == m {
                x
            } else {
                c[j - 1]
            },
    )
}

/// `c`, `p` and `q` put the arrangement `a` in increasing order: `c` is the
/// combination of its positions, `p` tells where in `c` each position of
/// `a` stands, and `q` tells it the other way round.
pub open spec fn sorts(a: Seq<usize>, n: nat, c: Seq<usize>, p: Seq<usize>, q: Seq<usize>) -> bool {
    &&& c.len() == a.len()
    &&& is_combination(c, n)
    &&& is_ordering(p, a.len())
    &&& is_ordering(q, a.len())
    &&& forall|i: int| 0 <= i < a.len() ==> a[i] == c[p[i] as int]
    &&& forall|i: int| 0 <= i < a.len() ==> q[p[i] as int] == i
    &&& forall|j: int| 0 <= j < a.len() ==> p[q[j] as int] == j
}

/// Every arrangement can be put in increasing order.
pub proof fn arrangement_sorts(a: Seq<usize>, n: nat) -> (r: (Seq<usize>, Seq<usize>, Seq<usize>))
    requires
        is_arrangement(a, n),
        n <= usize::MAX + 1,
    ensures
        sorts(a, n, r.0, r.1, r.2),
    decreases a.len(),
{
    if a.len() == 0 {
        (Seq::empty(), Seq::empty(), Seq::empty())
    } else {
        let k = a.len() - 1;
        let front = a.drop_last();
        let x = a.last();
        let (c0, p0, q0) = arrangement_sorts(front, n);
        below_parts(c0, n, x);
        let m = below(c0, x) as int;
        let c = with_position(c0, m, x);
        assert forall|j: int| 0 <= j < k implies c0[j] != x by {
            assert(front[q0[j] as int] == a[q0[j] as int]);
        }
        combination_fits(c, n);
        let p = Seq::new(
            (k + 1) as nat,
            |i: int|
                if i < k {
                    if p0[i] < m {
                        p0[i]
                    } else {
                        (p0[i] + 1) as usize
                    }
                } else {
                    m as usize
                },
        );
        let q = Seq::new(
            (k + 1) as nat,
            |j: int|
                if j < m {
                    q0[j]
                } else if j == m {
                    k as usize
                } else {
                    q0[j - 1]
                },
        );
        assert forall|i: int| 0 <= i < a.len() implies a[i] == c[p[i] as int] by {
            if i < k {
                assert(front[i] == c0[p0[i] as int]);
            }
        }
        (c, p, q)
    }
}

/// An arrangement of positions below `n` holds at most `n` of them.
pub proof fn arrangement_fits(a: Seq<usize>, n: nat)
    requires
        is_arrangement(a, n),
    ensures
        a.len() <= n,
{
    let top: nat = if n <= usize::MAX {
        n
    } else {
        (usize::MAX + 1) as nat
    };
    let r = arrangement_sorts(a, top);
    combination_fits(r.0, top);
}

/// The string that a combination, a choice of variants and an ordering
/// give is spelled out by the arrangement that lists the combination in
/// that order.
pub proof fn ordered_combination_is_arrangement(
    words: Seq<Seq<char>>,
    style: Capitalization,
    c: Seq<usize>,
    v: Seq<usize>,
    p: Seq<usize>,
) -> (r: (Seq<usize>, Seq<usize>))
    requires
        is_combination(c, words.len()),
        picks_forms(v, selected_forms(words, style, c)),
        is_ordering(p, c.len()),
    ensures
        r.0.len() == c.len(),
        is_arrangement(r.0, words.len()),
        picks_forms(r.1, selected_forms(words, style, r.0)),
        spelled(words, style, r.0, r.1) == joined(selected_forms(words, style, c), v, p),
{
    let a = Seq::new(c.len(), |i: int| c[p[i] as int]);
    let u = Seq::new(c.len(), |i: int| v[p[i] as int]);
    assert forall|i: int, j: int| 0 <= i < j < a.len() implies a[i] != a[j] by {
        if p[i] < p[j] {
            assert(c[p[i] as int] < c[p[j] as int]);
        } else {
            assert(c[p[j] as int] < c[p[i] as int]);
        }
    }
    assert(Seq::new(a.len(), |i: int| variants(words[a[i] as int], style)[u[i] as int]) =~= parts(
        selected_forms(words, style, c),
        v,
        p,
    ));
    (a, u)
}

/// The string that an arrangement spells out comes from the combination of
/// its positions.
pub proof fn arrangement_is_ordered_combination(
    words: Seq<Seq<char>>,
    style: Capitalization,
    a: Seq<usize>,
    u: Seq<usize>,
) -> (c: Seq<usize>)
    requires
        is_arrangement(a, words.len()),
        picks_forms(u, selected_forms(words, style, a)),
    ensures
        c.len() == a.len(),
        is_combination(c, words.len()),
        from_combination(words, style, c, spelled(words, style, a, u)),
{
    let top: nat = if words.len() <= usize::MAX {
        words.len()
    } else {
        (usize::MAX + 1) as nat
    };
    let (c, p, q) = arrangement_sorts(a, top);
    let v = Seq::new(a.len(), |j: int| u[q[j] as int]);
    let forms = selected_forms(words, style, c);
    assert(Seq::new(a.len(), |i: int| variants(words[a[i] as int], style)[u[i] as int]) =~= parts(
        forms,
        v,
        p,
    ));
    assert(spelled(words, style, a, u) == joined(forms, v, p));
    assert(from_choice(forms, v, spelled(words, style, a, u)));
    c
}

/// A string is in the result set exactly if it spells out one to `max_len`
/// distinct words in some order, each in one of its variants.
pub proof fn generated_iff_arranged(
    words: Seq<Seq<char>>,
    max_len: nat,
    style: Capitalization,
    s: Seq<char>,
)
    ensures
        generated(words, max_len, style, s) <==> arranged(words, max_len, style, s),
{
    if generated(words, max_len, style, s) {
        let c = choose|c: Seq<usize>|
            1 <= c.len() <= max_len && is_combination(c, words.len()) && #[trigger] from_combination(
                words,
                style,
                c,
                s,
            );
        let forms = selected_forms(words, style, c);
        let v = choose|v: Seq<usize>| picks_forms(v, forms) && #[trigger] from_choice(forms, v, s);
        let p = choose|p: Seq<usize>|
            is_ordering(p, forms.len()) && s == #[trigger] joined(forms, v, p);
        ordered_combination_is_arrangement(words, style, c, v, p);
    }
    if arranged(words, max_len, style, s) {
        let (a, u) = choose|a: Seq<usize>, u: Seq<usize>|
            1 <= a.len() <= max_len && is_arrangement(a, words.len()) && picks_forms(
                u,
                selected_forms(words, style, a),
            ) && s == #[trigger] spelled(words, style, a, u);
        arrangement_is_ordered_combination(words, style, a, u);
    }
}

/// Where every variant of every word is a non-empty text, the empty string
/// is not in the result set, however large `max_len` is.
pub proof fn results_are_not_empty(words: Seq<Seq<char>>, max_len: nat, style: Capitalization)
    requires
        forall|i: int, j: int|
            0 <= i < words.len() && 0 <= j < variants(words[i], style).len() ==> (
            #[trigger] variants(words[i], style)[j]).len() > 0,
    ensures
        !result_set(words, max_len, style).contains(Seq::<char>::empty()),
{
    let s = Seq::<char>::empty();
    if generated(words, max_len, style, s) {
        generated_iff_arranged(words, max_len, style, s);
        let (a, u) = choose|a: Seq<usize>, u: Seq<usize>|
            1 <= a.len() <= max_len && is_arrangement(a, words.len()) && picks_forms(
                u,
                selected_forms(words, style, a),
            ) && s == #[trigger] spelled(words, style, a, u);
        let pieces = Seq::new(
            a.len(),
            |i: int| variants(words[a[i] as int], style)[u[i] as int],
        );
        assert(pieces.flatten() == pieces.first() + pieces.drop_first().flatten());
    }
}

} // verus!
