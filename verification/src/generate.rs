//! The combination engine: the result set of a word list, built combination
//! by combination.

use vstd::prelude::*;
use crate::arrange::{arrangements, form_texts, from_forms};
use crate::capitalization::{capitalize_variants, texts, variants, Capitalization};
use crate::text_set::TextSet;
use crate::selection::{
    combinations, comes_before, is_combination, lists_combinations, next_combination,
    pending_combinations,
};

verus! {

/// The variant lists of the words that `c` selects, in the order of `c`.
pub open spec fn selected_forms(words: Seq<Seq<char>>, style: Capitalization, c: Seq<usize>) -> Seq<
    Seq<Seq<char>>,
> {
    Seq::new(c.len(), |i: int| variants(words[c[i] as int], style))
}

/// `s` joins one variant of each word that `c` selects, in some order.
pub open spec fn from_combination(
    words: Seq<Seq<char>>,
    style: Capitalization,
    c: Seq<usize>,
    s: Seq<char>,
) -> bool {
    from_forms(selected_forms(words, style, c), s)
}

/// `s` comes from some combination of exactly `k` of the words.
spec fn from_size(words: Seq<Seq<char>>, k: nat, style: Capitalization, s: Seq<char>) -> bool {
    exists|c: Seq<usize>|
        c.len() == k && is_combination(c, words.len()) && #[trigger] from_combination(
            words,
            style,
            c,
            s,
        )
}

/// `s` comes from some combination of at least one and at most `max_len`
/// of the words.
pub open spec fn generated(
    words: Seq<Seq<char>>,
    max_len: nat,
    style: Capitalization,
    s: Seq<char>,
) -> bool {
    exists|c: Seq<usize>|
        1 <= c.len() <= max_len && is_combination(c, words.len()) && #[trigger] from_combination(
            words,
            style,
            c,
            s,
        )
}

/// The result set: every string that comes from a combination of one to
/// `max_len` of the words.
pub open spec fn result_set(words: Seq<Seq<char>>, max_len: nat, style: Capitalization) -> Set<
    Seq<char>,
> {
    Set::new(|s: Seq<char>| generated(words, max_len, style, s))
}

/// `s` comes from one of the combinations of `combos`.
pub open spec fn from_combinations(
    words: Seq<Seq<char>>,
    style: Capitalization,
    combos: Seq<Seq<usize>>,
    s: Seq<char>,
) -> bool {
    exists|j: int|
        0 <= j < combos.len() && from_combination(words, style, #[trigger] combos[j], s)
}

/// Lists the variants of each word that `combo` selects.
pub fn selected_variants(words: &[String], combo: &Vec<usize>, style: Capitalization) -> (forms:
    Vec<Vec<String>>)
    requires
        forall|i: int| 0 <= i < combo.len() ==> combo[i] < words.len(),
    ensures
        form_texts(forms@) == selected_forms(texts(words@), style, combo@),
{
    let mut forms: Vec<Vec<String>> = Vec::new();
    let mut i: usize = 0;
    while i < combo.len()
        invariant
            i <= combo.len(),
            forms.len() == i,
            forall|j: int| 0 <= j < combo.len() ==> combo[j] < words.len(),
            forall|j: int|
                0 <= j < i ==> texts(#[trigger] forms[j]@) == variants(
                    texts(words@)[combo[j] as int],
                    style,
                ),
        decreases combo.len() - i,
    {
        let word = &words[combo[i]];
        let found = capitalize_variants(word.as_str(), style);
        forms.push(found);
        i = i + 1;
    }
    forms
}

/// Lists, each once, the strings that join one variant of each word that
/// `combo` selects, in every order.
pub fn combination_strings(words: &[String], combo: &Vec<usize>, style: Capitalization) -> (local:
    Vec<String>)
    requires
        forall|i: int| 0 <= i < combo.len() ==> combo[i] < words.len(),
    ensures
        texts(local@).no_duplicates(),
        forall|s: Seq<char>| #[trigger]
            texts(local@).contains(s) <==> from_combination(texts(words@), style, combo@, s),
{
    let forms = selected_variants(words, combo, style);
    arrangements(&forms)
}

/// Adds to `results` the strings that come from the combinations of exactly
/// `k` of the words.
fn add_combinations(results: &mut TextSet, words: &[String], k: usize, style: Capitalization)
    ensures
        forall|s: Seq<char>| #[trigger]
            final(results)@.contains(s) <==> old(results)@.contains(s) || from_size(
                texts(words@),
                k as nat,
                style,
                s,
            ),
{
    let ghost w = texts(words@);
    let ghost before = results@;
    let mut combos = combinations(words.len(), k);
    let ghost all = pending_combinations(combos);
    let ghost mut done: int = 0;
    loop
        invariant
            w == texts(words@),
            lists_combinations(all, words.len() as nat, k as nat),
            0 <= done <= all.len(),
            pending_combinations(combos) == all.skip(done),
            forall|s: Seq<char>| #[trigger]
                results@.contains(s) <==> before.contains(s) || from_combinations(
                    w,
                    style,
                    all.take(done),
                    s,
                ),
        ensures
            done == all.len(),
        decreases all.len() - done,
    {
        match next_combination(&mut combos) {
            None => {
                break ;
            },
            Some(combo) => {
                let local = combination_strings(words, &combo, style);
                let ghost held = results@;
                results.extend(local);
                proof {
                    let shorter = all.take(done);
                    let longer = all.take(done + 1);
                    assert forall|t: Seq<char>| #[trigger]
                        results@.contains(t) <==> before.contains(t) || from_combinations(
                            w,
                            style,
                            longer,
                            t,
                        ) by {
                        assert(held.contains(t) <==> before.contains(t) || from_combinations(
                            w,
                            style,
                            shorter,
                            t,
                        ));
                        assert(texts(local@).contains(t) <==> from_combination(
                            w,
                            style,
                            combo@,
                            t,
                        ));
                        if from_combination(w, style, combo@, t) {
                            assert(longer[done] == combo@);
                        }
                    }
                    done = done + 1;
                }
            },
        }
    }
}

/// The position lists of a list of combinations.
pub open spec fn position_lists(combos: Seq<Vec<usize>>) -> Seq<Seq<usize>> {
    combos.map_values(|c: Vec<usize>| c@)
}

/// `a` is listed before `b`: it selects fewer positions, or as many and
/// comes before `b` in dictionary order.
pub open spec fn listed_before(a: Seq<usize>, b: Seq<usize>) -> bool {
    a.len() < b.len() || (a.len() == b.len() && comes_before(a, b))
}

/// Lists, each once, the combinations of one to `len` of `n` positions:
/// those of one position first, then those of two, and so on, and those of
/// one size in dictionary order. A `len` above `n` counts as `n`.
pub fn list_combinations(n: usize, len: usize) -> (combos: Vec<Vec<usize>>)
    ensures
        forall|c: Seq<usize>|
            #![trigger position_lists(combos@).contains(c)]
            #![trigger is_combination(c, n as nat)]
            position_lists(combos@).contains(c) <==> 1 <= c.len() <= len && is_combination(
                c,
                n as nat,
            ),
        forall|i: int, j: int|
            0 <= i < j < combos.len() ==> listed_before(
                #[trigger] position_lists(combos@)[i],
                #[trigger] position_lists(combos@)[j],
            ),
        position_lists(combos@).no_duplicates(),
{
    let top = if len < n {
        len
    } else {
        n
    };
    let mut combos: Vec<Vec<usize>> = Vec::new();
    let mut k: usize = 0;
    while k < top
        invariant
            k <= top,
            forall|c: Seq<usize>|
                #![trigger position_lists(combos@).contains(c)]
                #![trigger is_combination(c, n as nat)]
                position_lists(combos@).contains(c) <==> 1 <= c.len() <= k && is_combination(
                    c,
                    n as nat,
                ),
            forall|i: int, j: int|
                0 <= i < j < combos.len() ==> listed_before(
                    #[trigger] position_lists(combos@)[i],
                    #[trigger] position_lists(combos@)[j],
                ),
        decreases top - k,
    {
        k = k + 1;
        let mut walk = combinations(n, k);
        let ghost all = pending_combinations(walk);
        let ghost before = position_lists(combos@);
        let ghost mut done: int = 0;
        proof {
            assert(before + all.take(0) =~= before);
        }
        loop
            invariant
                0 <= done <= all.len(),
                pending_combinations(walk) == all.skip(done),
                position_lists(combos@) == before + all.take(done),
            ensures
                done == all.len(),
            decreases all.len() - done,
        {
            match next_combination(&mut walk) {
                None => {
                    break ;
                },
                Some(combo) => {
                    let ghost held = position_lists(combos@);
                    combos.push(combo);
                    proof {
                        assert(all.skip(done).skip(1) =~= all.skip(done + 1));
                        assert(position_lists(combos@) =~= held.push(all[done]));
                        assert(held.push(all[done]) =~= before + all.take(done + 1));
                        done = done + 1;
                    }
                },
            }
        }
        proof {
            let whole = position_lists(combos@);
            assert(all.take(done) =~= all);
            assert forall|i: int| 0 <= i < before.len() implies (#[trigger] whole[i]).len() < k by {
                assert(before.contains(before[i]));
            }
            assert forall|c: Seq<usize>|
                #![trigger whole.contains(c)]
                #![trigger is_combination(c, n as nat)]
                whole.contains(c) <==> 1 <= c.len() <= k && is_combination(c, n as nat) by {
                if whole.contains(c) {
                    let i = choose|i: int| 0 <= i < whole.len() && whole[i] == c;
                    if i < before.len() {
                        assert(before.contains(c));
                    } else {
                        assert(c == all[i - before.len()]);
                    }
                }
                if 1 <= c.len() <= k && is_combination(c, n as nat) {
                    if c.len() == k {
                        assert(all.contains(c));
                        let j = choose|j: int| 0 <= j < all.len() && all[j] == c;
                        assert(whole[before.len() + j] == c);
                    } else {
                        assert(before.contains(c));
                        let j = choose|j: int| 0 <= j < before.len() && before[j] == c;
                        assert(whole[j] == c);
                    }
                }
            }
            assert forall|i: int, j: int| 0 <= i < j < whole.len() implies listed_before(
                #[trigger] whole[i],
                #[trigger] whole[j],
            ) by {
                if j < before.len() {
                    assert(listed_before(before[i], before[j]));
                } else if i < before.len() {
                    assert(whole[j] == all[j - before.len()]);
                } else {
                    assert(comes_before(all[i - before.len()], all[j - before.len()]));
                }
            }
        }
    }
    proof {
        let whole = position_lists(combos@);
        assert forall|c: Seq<usize>| is_combination(c, n as nat) implies c.len() <= n by {
            combination_fits(c, n as nat);
        }
        assert forall|i: int, j: int| 0 <= i < j < whole.len() implies whole[i] != whole[j] by {
            assert(listed_before(whole[i], whole[j]));
        }
    }
    combos
}

/// A string comes from a combination of one to `k + 1` words exactly if it
/// comes from one of one to `k` words or from one of exactly `k + 1` words.
proof fn generated_by_size(words: Seq<Seq<char>>, k: nat, style: Capitalization, s: Seq<char>)
    ensures
        generated(words, k + 1, style, s) <==> generated(words, k, style, s) || from_size(
            words,
            k + 1,
            style,
            s,
        ),
{
    if generated(words, k + 1, style, s) {
        let c = choose|c: Seq<usize>|
            1 <= c.len() <= k + 1 && is_combination(c, words.len()) && #[trigger] from_combination(
                words,
                style,
                c,
                s,
            );
        if c.len() == k + 1 {
            assert(from_size(words, k + 1, style, s));
        } else {
            assert(generated(words, k, style, s));
        }
    }
}

/// Lists, each once, the strings of the result set: for every combination
/// of one to `len` of the words, the strings that join one variant of each
/// selected word, in every order. A `len` above the number of words counts
/// as that number; no words, or a `len` of zero, give the empty list.
pub fn generate_permutations(words: &[String], len: usize, cap_style: Capitalization) -> (list:
    Vec<String>)
    ensures
        texts(list@).no_duplicates(),
        texts(list@).to_set() == result_set(texts(words@), len as nat, cap_style),
{
    let ghost w = texts(words@);
    let top = if len < words.len() {
        len
    } else {
        words.len()
    };
    let mut results = TextSet::new();
    let mut k: usize = 0;
    while k < top
        invariant
            k <= top,
            w == texts(words@),
            forall|s: Seq<char>| #[trigger]
                results@.contains(s) <==> generated(w, k as nat, cap_style, s),
        decreases top - k,
    {
        k = k + 1;
        add_combinations(&mut results, words, k, cap_style);
        proof {
            assert forall|s: Seq<char>| #[trigger]
                results@.contains(s) <==> generated(w, k as nat, cap_style, s) by {
                generated_by_size(w, (k - 1) as nat, cap_style, s);
            }
        }
    }
    proof {
        result_set_clamped(w, len as nat, cap_style);
    }
    results.into_vec()
}

/// A combination holds its `i`-th position at position `i` of the list or
/// later.
pub proof fn combination_climbs(c: Seq<usize>, n: nat, i: int)
    requires
        is_combination(c, n),
        0 <= i < c.len(),
    ensures
        i <= c[i],
    decreases i,
{
    if i > 0 {
        combination_climbs(c, n, i - 1);
    }
}

/// A combination of positions below `n` selects at most `n` of them.
pub proof fn combination_fits(c: Seq<usize>, n: nat)
    requires
        is_combination(c, n),
    ensures
        c.len() <= n,
{
    if c.len() > 0 {
        combination_climbs(c, n, c.len() - 1);
    }
}

/// A `max_len` above the number of words gives the result set of a
/// `max_len` equal to that number.
pub proof fn result_set_clamped(words: Seq<Seq<char>>, max_len: nat, style: Capitalization)
    ensures
        result_set(words, max_len, style) == result_set(
            words,
            if max_len < words.len() {
                max_len
            } else {
                words.len()
            },
            style,
        ),
{
    let top = if max_len < words.len() {
        max_len
    } else {
        words.len()
    };
    assert forall|s: Seq<char>|
        generated(words, top, style, s) <==> generated(words, max_len, style, s) by {
        if generated(words, max_len, style, s) {
            let c = choose|c: Seq<usize>|
                1 <= c.len() <= max_len && is_combination(c, words.len())
                    && #[trigger] from_combination(words, style, c, s);
            combination_fits(c, words.len());
        }
    }
}

/// The strings that come from the combinations of a list make up the result
/// set as soon as the list holds every combination of one to `max_len` of the
/// words and nothing else: in any order, each once or many times. So the
/// work may be split by combination and the parts merged in any order.
pub proof fn merged_in_any_order(
    words: Seq<Seq<char>>,
    max_len: nat,
    style: Capitalization,
    combos: Seq<Seq<usize>>,
)
    requires
        forall|c: Seq<usize>|
            #![trigger combos.contains(c)]
            #![trigger is_combination(c, words.len())]
            combos.contains(c) <==> 1 <= c.len() <= max_len && is_combination(c, words.len()),
    ensures
        Set::new(|s: Seq<char>| from_combinations(words, style, combos, s)) == result_set(
            words,
            max_len,
            style,
        ),
{
    assert forall|s: Seq<char>|
        from_combinations(words, style, combos, s) <==> generated(words, max_len, style, s) by {
        if from_combinations(words, style, combos, s) {
            let j = choose|j: int|
                0 <= j < combos.len() && from_combination(words, style, #[trigger] combos[j], s);
            assert(combos.contains(combos[j]));
        }
    }
}

/// Raising `max_len` never takes a string out of the result set.
pub proof fn result_set_grows(
    words: Seq<Seq<char>>,
    style: Capitalization,
    shorter: nat,
    longer: nat,
)
    requires
        shorter <= longer,
    ensures
        result_set(words, shorter, style).subset_of(result_set(words, longer, style)),
{
    assert forall|s: Seq<char>| generated(words, shorter, style, s) implies generated(
        words,
        longer,
        style,
        s,
    ) by {
        let c = choose|c: Seq<usize>|
            1 <= c.len() <= shorter && is_combination(c, words.len()) && #[trigger] from_combination(
                words,
                style,
                c,
                s,
            );
    }
}

/// Without words, and likewise with a `max_len` of zero, the result set is
/// empty.
pub proof fn result_set_of_nothing(words: Seq<Seq<char>>, max_len: nat, style: Capitalization)
    requires
        words.len() == 0 || max_len == 0,
    ensures
        result_set(words, max_len, style) == Set::<Seq<char>>::empty(),
{
    assert forall|s: Seq<char>| !generated(words, max_len, style, s) by {
        if generated(words, max_len, style, s) {
            let c = choose|c: Seq<usize>|
                1 <= c.len() <= max_len && is_combination(c, words.len())
                    && #[trigger] from_combination(words, style, c, s);
            combination_fits(c, words.len());
        }
    }
}

/// Two lists that each hold the result set of the same words, length and
/// policy, each string once, hold the same strings and are equally long,
/// whatever their order.
pub proof fn result_lists_agree(
    first: Seq<Seq<char>>,
    second: Seq<Seq<char>>,
    words: Seq<Seq<char>>,
    max_len: nat,
    style: Capitalization,
)
    requires
        first.no_duplicates(),
        first.to_set() == result_set(words, max_len, style),
        second.no_duplicates(),
        second.to_set() == result_set(words, max_len, style),
    ensures
        first.to_set() == second.to_set(),
        first.len() == second.len(),
        forall|s: Seq<char>| first.contains(s) <==> second.contains(s),
{
    first.unique_seq_to_set();
    second.unique_seq_to_set();
    assert forall|s: Seq<char>| first.contains(s) <==> second.contains(s) by {
        assert(first.to_set().contains(s) <==> second.to_set().contains(s));
    }
}

} // verus!
