//! Joining variants: given the variant lists of the selected words, every
//! string that takes one variant from each list and joins them in some order.

use vstd::prelude::*;
use vstd::string::*;
use crate::capitalization::texts;
use crate::text_set::TextSet;
use crate::selection::{
    choices, is_choice, is_ordering, lists_choices, lists_orderings, next_choice, next_ordering,
    orderings, pending_choices, pending_orderings,
};

verus! {

/// The texts of a list of variant lists.
pub open spec fn form_texts(forms: Seq<Vec<String>>) -> Seq<Seq<Seq<char>>> {
    forms.map_values(|list: Vec<String>| texts(list@))
}

/// `v` picks one variant from each list of `forms`.
pub open spec fn picks_forms(v: Seq<usize>, forms: Seq<Seq<Seq<char>>>) -> bool {
    &&& v.len() == forms.len()
    &&& forall|i: int| 0 <= i < forms.len() ==> v[i] < forms[i].len()
}

/// The variants that `v` picks from `forms`, listed in the order `p`.
pub open spec fn parts(forms: Seq<Seq<Seq<char>>>, v: Seq<usize>, p: Seq<usize>) -> Seq<Seq<char>> {
    Seq::new(p.len(), |i: int| forms[p[i] as int][v[p[i] as int] as int])
}

/// The string that joins, without a separator, the variants that `v` picks
/// from `forms`, in the order `p`.
pub open spec fn joined(forms: Seq<Seq<Seq<char>>>, v: Seq<usize>, p: Seq<usize>) -> Seq<char> {
    parts(forms, v, p).flatten()
}

/// `s` joins the variants that `v` picks from `forms`, in some order.
pub open spec fn from_choice(forms: Seq<Seq<Seq<char>>>, v: Seq<usize>, s: Seq<char>) -> bool {
    exists|p: Seq<usize>| is_ordering(p, forms.len()) && s == #[trigger] joined(forms, v, p)
}

/// `s` joins one variant from each list of `forms`, in some order.
pub open spec fn from_forms(forms: Seq<Seq<Seq<char>>>, s: Seq<char>) -> bool {
    exists|v: Seq<usize>| picks_forms(v, forms) && #[trigger] from_choice(forms, v, s)
}

/// `s` joins the variants that `v` picks, in one of the orders of `orders`.
spec fn from_orders(
    forms: Seq<Seq<Seq<char>>>,
    v: Seq<usize>,
    orders: Seq<Seq<usize>>,
    s: Seq<char>,
) -> bool {
    exists|j: int| 0 <= j < orders.len() && s == joined(forms, v, #[trigger] orders[j])
}

/// `s` joins, in some order, the variants that one of `picks` takes.
spec fn from_picks(forms: Seq<Seq<Seq<char>>>, picks: Seq<Seq<usize>>, s: Seq<char>) -> bool {
    exists|j: int| 0 <= j < picks.len() && from_choice(forms, #[trigger] picks[j], s)
}

/// Joins the strings `forms[p[i]][v[p[i]]]`, for `i` in order.
pub fn join(forms: &Vec<Vec<String>>, v: &Vec<usize>, p: &Vec<usize>) -> (s: String)
    requires
        picks_forms(v@, form_texts(forms@)),
        forall|i: int| 0 <= i < p.len() ==> p[i] < forms.len(),
    ensures
        s@ == joined(form_texts(forms@), v@, p@),
{
    let mut s = String::new();
    let ghost pieces = parts(form_texts(forms@), v@, p@);
    let mut i: usize = 0;
    while i < p.len()
        invariant
            i <= p.len(),
            picks_forms(v@, form_texts(forms@)),
            forall|i: int| 0 <= i < p.len() ==> p[i] < forms.len(),
            pieces == parts(form_texts(forms@), v@, p@),
            s@ == pieces.take(i as int).flatten(),
        decreases p.len() - i,
    {
        let at = p[i];
        let piece = &forms[at][v[at]];
        s.append(piece.as_str());
        proof {
            assert(pieces.take(i + 1) =~= pieces.take(i as int).push(pieces[i as int]));
            pieces.take(i as int).lemma_flatten_push(pieces[i as int]);
        }
        i = i + 1;
    }
    proof {
        assert(pieces.take(p.len() as int) =~= pieces);
    }
    s
}

/// Adds to `local` the strings that join the variants that `v` picks from
/// `forms`, in every order.
fn add_orderings(local: &mut TextSet, forms: &Vec<Vec<String>>, v: &Vec<usize>)
    requires
        picks_forms(v@, form_texts(forms@)),
    ensures
        forall|s: Seq<char>| #[trigger]
            final(local)@.contains(s) <==> old(local)@.contains(s) || from_choice(
                form_texts(forms@),
                v@,
                s,
            ),
{
    let ghost f = form_texts(forms@);
    let ghost before = local@;
    let mut orders = orderings(forms.len());
    let ghost all = pending_orderings(orders);
    let ghost mut seen: int = 0;
    loop
        invariant
            f == form_texts(forms@),
            picks_forms(v@, f),
            lists_orderings(all, f.len()),
            0 <= seen <= all.len(),
            pending_orderings(orders) == all.skip(seen),
            forall|s: Seq<char>| #[trigger]
                local@.contains(s) <==> before.contains(s) || from_orders(
                    f,
                    v@,
                    all.take(seen),
                    s,
                ),
        ensures
            seen == all.len(),
        decreases all.len() - seen,
    {
        match next_ordering(&mut orders) {
            None => {
                break ;
            },
            Some(p) => {
                let s = join(forms, v, &p);
                let ghost held = local@;
                local.insert(s);
                proof {
                    let shorter = all.take(seen);
                    let longer = all.take(seen + 1);
                    assert forall|t: Seq<char>| #[trigger]
                        local@.contains(t) <==> before.contains(t) || from_orders(
                            f,
                            v@,
                            longer,
                            t,
                        ) by {
                        assert(held.contains(t) <==> before.contains(t) || from_orders(
                            f,
                            v@,
                            shorter,
                            t,
                        ));
                        if t == s@ {
                            assert(longer[seen] == p@);
                        }
                    }
                    seen = seen + 1;
                }
            },
        }
    }
}

/// Lists how many variants each list of `forms` holds.
fn form_sizes(forms: &Vec<Vec<String>>) -> (sizes: Vec<usize>)
    ensures
        sizes.len() == forms.len(),
        forall|i: int| 0 <= i < forms.len() ==> sizes[i] == forms[i].len(),
{
    let mut sizes: Vec<usize> = Vec::new();
    let mut i: usize = 0;
    while i < forms.len()
        invariant
            i <= forms.len(),
            sizes.len() == i,
            forall|j: int| 0 <= j < i ==> sizes[j] == forms[j].len(),
        decreases forms.len() - i,
    {
        sizes.push(forms[i].len());
        i = i + 1;
    }
    sizes
}

/// Lists, each once, the strings that take one variant from each list of
/// `forms` and join them, in every order.
pub fn arrangements(forms: &Vec<Vec<String>>) -> (list: Vec<String>)
    ensures
        texts(list@).no_duplicates(),
        forall|s: Seq<char>| #[trigger]
            texts(list@).contains(s) <==> from_forms(form_texts(forms@), s),
{
    let ghost f = form_texts(forms@);
    let sizes = form_sizes(forms);
    let mut local = TextSet::new();
    let mut picks = choices(&sizes);
    let ghost all = pending_choices(picks);
    let ghost mut done: int = 0;
    loop
        invariant
            f == form_texts(forms@),
            forall|v: Seq<usize>| is_choice(v, sizes@) <==> picks_forms(v, f),
            lists_choices(all, sizes@),
            0 <= done <= all.len(),
            pending_choices(picks) == all.skip(done),
            forall|s: Seq<char>| #[trigger]
                local@.contains(s) <==> from_picks(f, all.take(done), s),
        ensures
            done == all.len(),
        decreases all.len() - done,
    {
        match next_choice(&mut picks) {
            None => {
                break ;
            },
            Some(v) => {
                add_orderings(&mut local, forms, &v);
                proof {
                    let longer = all.take(done + 1);
                    assert forall|t: Seq<char>| #[trigger]
                        local@.contains(t) <==> from_picks(f, longer, t) by {
                        if from_choice(f, v@, t) {
                            assert(longer[done] == v@);
                        }
                    }
                    done = done + 1;
                }
            },
        }
    }
    local.into_vec()
}

} // verus!
