use std::collections::BTreeSet;
use wordperms::arrange::{arrangements, join};
use wordperms::capitalization::replace_first;
use wordperms::generate::selected_variants;
use wordperms::text_set::hash_text;
use wordperms::{
    apply_limit, capitalize_first_letter, capitalize_variants, combination_strings,
    generate_permutations, is_word_line, list_combinations, retain_words, Capitalization, TextSet,
};

fn list(items: &[&str]) -> Vec<String> {
    items.iter().map(|w| w.to_string()).collect()
}

fn set_of(items: Vec<String>) -> BTreeSet<String> {
    let n = items.len();
    let set: BTreeSet<String> = items.into_iter().collect();
    assert_eq!(set.len(), n, "a result list holds a string twice");
    set
}

fn set(items: &[&str]) -> BTreeSet<String> {
    items.iter().map(|w| w.to_string()).collect()
}

#[test]
fn identity_policy_on_two_words() {
    let found = generate_permutations(&list(&["a", "b"]), 2, Capitalization::Identity);
    assert_eq!(set_of(found), set(&["a", "b", "ab", "ba"]));
}

#[test]
fn first_policy_on_two_words() {
    let found = generate_permutations(&list(&["a", "b"]), 2, Capitalization::First);
    assert_eq!(set_of(found), set(&["A", "B", "AB", "BA"]));
}

#[test]
fn all_policy_on_two_words() {
    let found = generate_permutations(&list(&["a", "b"]), 2, Capitalization::All);
    assert_eq!(found.len(), 12);
    assert_eq!(
        set_of(found),
        set(&["a", "A", "B", "b", "ab", "aB", "Ab", "AB", "ba", "bA", "Ba", "BA"])
    );
}

#[test]
fn same_inputs_give_the_same_set() {
    let words = list(&["red", "green", "blue"]);
    let first = generate_permutations(&words, 3, Capitalization::All);
    let second = generate_permutations(&words, 3, Capitalization::All);
    assert_eq!(first.len(), second.len());
    assert_eq!(set_of(first), set_of(second));
}

#[test]
fn longer_combinations_only_add() {
    let words = list(&["x", "y", "z"]);
    let mut previous = BTreeSet::new();
    for len in 0..5 {
        let found = set_of(generate_permutations(&words, len, Capitalization::All));
        assert!(previous.is_subset(&found));
        previous = found;
    }
}

#[test]
fn variant_counts_by_policy() {
    for word in ["hello", "", "X", "straße"] {
        assert_eq!(capitalize_variants(word, Capitalization::All).len(), 3);
        assert_eq!(capitalize_variants(word, Capitalization::Identity).len(), 1);
        assert_eq!(capitalize_variants(word, Capitalization::First).len(), 1);
        assert_eq!(capitalize_variants(word, Capitalization::Upper).len(), 1);
    }
}

#[test]
fn equal_variants_are_kept_apart() {
    assert_eq!(
        capitalize_variants("A", Capitalization::All),
        vec!["A", "A", "A"]
    );
}

#[test]
fn limit_below_the_size_cuts() {
    let mut found = generate_permutations(&list(&["a", "b"]), 2, Capitalization::Identity);
    let whole = found.clone();
    apply_limit(&mut found, Some(3));
    assert_eq!(found.len(), 3);
    assert_eq!(found, whole[..3].to_vec());
    assert!(set_of(found).is_subset(&set_of(whole)));
}

#[test]
fn limit_at_or_above_the_size_changes_nothing() {
    let whole = generate_permutations(&list(&["a", "b"]), 2, Capitalization::Identity);
    for limit in [Some(4), Some(5), Some(usize::MAX), None] {
        let mut found = whole.clone();
        apply_limit(&mut found, limit);
        assert_eq!(found, whole);
    }
}

#[test]
fn limit_of_zero_leaves_nothing() {
    let mut found = list(&["a", "b"]);
    apply_limit(&mut found, Some(0));
    assert!(found.is_empty());
}

#[test]
fn no_words_give_no_results() {
    for style in [
        Capitalization::All,
        Capitalization::Identity,
        Capitalization::First,
        Capitalization::Upper,
    ] {
        for len in [0, 1, 4, usize::MAX] {
            assert!(generate_permutations(&[], len, style).is_empty());
        }
    }
}

#[test]
fn zero_length_gives_no_results() {
    assert!(generate_permutations(&list(&["a", "b"]), 0, Capitalization::All).is_empty());
}

#[test]
fn length_above_the_word_count_is_clamped() {
    let words = list(&["a", "b", "c"]);
    let exact = set_of(generate_permutations(&words, 3, Capitalization::Identity));
    for len in [4, 10, usize::MAX] {
        let found = set_of(generate_permutations(&words, len, Capitalization::Identity));
        assert_eq!(found, exact);
        assert!(!found.contains(""));
    }
}

#[test]
fn three_words_under_all_policy() {
    let found = generate_permutations(&list(&["a", "b", "c"]), 3, Capitalization::All);
    assert_eq!(found.len(), 6 + 24 + 48);
    let found = set_of(found);
    assert!(found.contains("cAb"));
    assert!(found.contains("BCA"));
    assert!(!found.contains("aa"));
}

#[test]
fn equal_words_collapse() {
    let found = generate_permutations(&list(&["a", "a"]), 2, Capitalization::Identity);
    assert_eq!(set_of(found), set(&["a", "aa"]));
}

#[test]
fn equal_strings_of_different_combinations_collapse() {
    let found = generate_permutations(&list(&["a", "ab", "b"]), 2, Capitalization::Identity);
    assert_eq!(
        set_of(found),
        set(&["a", "ab", "b", "aab", "aba", "ba", "abb", "bab"])
    );
}

#[test]
fn capitalize_first_letter_edge_cases() {
    assert_eq!(capitalize_first_letter(""), "");
    assert_eq!(capitalize_first_letter("x"), "X");
    assert_eq!(capitalize_first_letter("Hello"), "Hello");
    assert_eq!(capitalize_first_letter("hELLO"), "HELLO");
    assert_eq!(capitalize_first_letter("1abc"), "1abc");
    assert_eq!(capitalize_first_letter("éa"), "Éa");
    assert_eq!(capitalize_first_letter("ßa"), "SSa");
    assert_eq!(capitalize_first_letter(" a"), " a");
}

#[test]
fn uppercase_follows_unicode() {
    assert_eq!(
        capitalize_variants("straße", Capitalization::Upper),
        vec!["STRASSE"]
    );
    assert_eq!(
        capitalize_variants("éa", Capitalization::All),
        vec!["éa", "ÉA", "Éa"]
    );
    assert_eq!(capitalize_variants("", Capitalization::All), vec!["", "", ""]);
}

#[test]
fn replace_first_swaps_the_head() {
    assert_eq!(replace_first("hello", "J"), "Jello");
    assert_eq!(replace_first("éa", "xyz"), "xyza");
    assert_eq!(replace_first("a", ""), "");
    assert_eq!(replace_first("", "X"), "");
}

#[test]
fn default_policy_is_all() {
    assert_eq!(Capitalization::default(), Capitalization::All);
}

#[test]
fn blank_lines_are_no_words() {
    assert!(!is_word_line(""));
    assert!(!is_word_line(" "));
    assert!(!is_word_line("\t \r"));
    assert!(!is_word_line("\u{a0}\u{2003}"));
    assert!(is_word_line("a"));
    assert!(is_word_line("  a  "));
    assert!(is_word_line("\u{200b}"));
}

#[test]
fn retain_words_keeps_lines_verbatim() {
    let lines = list(&[" ", "foo", "", "\t", " bar ", "foo"]);
    assert_eq!(retain_words(lines), vec!["foo", " bar ", "foo"]);
    assert!(retain_words(Vec::new()).is_empty());
    assert!(retain_words(list(&["", "  "])).is_empty());
}

#[test]
fn selected_variants_follow_the_combination() {
    let words = list(&["a", "b", "c"]);
    let forms = selected_variants(&words, &vec![0, 2], Capitalization::All);
    assert_eq!(forms, vec![vec!["a", "A", "A"], vec!["c", "C", "C"]]);
    let none = selected_variants(&words, &vec![], Capitalization::All);
    assert!(none.is_empty());
}

#[test]
fn join_follows_choice_and_order() {
    let forms = vec![list(&["a", "A"]), list(&["b", "B"]), list(&["c", "C"])];
    assert_eq!(join(&forms, &vec![0, 1, 0], &vec![2, 0, 1]), "caB");
    assert_eq!(join(&forms, &vec![1, 1, 1], &vec![0, 1, 2]), "ABC");
    assert_eq!(join(&forms, &vec![1, 1, 1], &vec![]), "");
}

#[test]
fn arrangements_take_one_of_each() {
    let forms = vec![list(&["a", "A"]), list(&["b"])];
    assert_eq!(set_of(arrangements(&forms)), set(&["ab", "ba", "Ab", "bA"]));
}

#[test]
fn arrangements_of_nothing_is_the_empty_string() {
    assert_eq!(arrangements(&Vec::new()), vec![""]);
}

#[test]
fn arrangements_with_an_empty_list_are_none() {
    let forms = vec![list(&["a"]), Vec::new()];
    assert!(arrangements(&forms).is_empty());
}

#[test]
fn combination_strings_of_one_pair() {
    let words = list(&["x", "y", "z"]);
    let found = combination_strings(&words, &vec![0, 2], Capitalization::Identity);
    assert_eq!(set_of(found), set(&["xz", "zx"]));
    let found = combination_strings(&words, &vec![1], Capitalization::Upper);
    assert_eq!(found, vec!["Y"]);
}

#[test]
fn text_set_keeps_first_arrivals_in_order() {
    let mut held = TextSet::new();
    assert_eq!(held.len(), 0);
    assert!(held.insert("b".to_string()));
    assert!(held.insert("a".to_string()));
    assert!(!held.insert("b".to_string()));
    assert!(held.contains(&"a".to_string()));
    assert!(!held.contains(&"c".to_string()));
    held.extend(list(&["c", "a", "d", "c"]));
    assert_eq!(held.len(), 4);
    assert_eq!(held.into_vec(), vec!["b", "a", "c", "d"]);
}

#[test]
fn text_set_holds_many() {
    let mut held = TextSet::new();
    for round in 0..3 {
        for i in 0..2000 {
            let added = held.insert(format!("w{i}"));
            assert_eq!(added, round == 0);
        }
    }
    assert_eq!(held.len(), 2000);
    let listed = held.into_vec();
    assert_eq!(listed[0], "w0");
    assert_eq!(listed[1999], "w1999");
}

#[test]
fn hash_is_fnv_1a() {
    assert_eq!(hash_text(""), 0xcbf2_9ce4_8422_2325);
    assert_eq!(hash_text("a"), 0xaf63_dc4c_8601_ec8c);
    assert_eq!(hash_text("foobar"), 0x8594_4171_f739_67e8);
}

#[test]
fn combinations_merge_in_any_order() {
    let words = list(&["a", "ab", "b"]);
    let combos: Vec<Vec<usize>> = vec![
        vec![1, 2],
        vec![2],
        vec![0, 1, 2],
        vec![0],
        vec![0, 2],
        vec![1],
        vec![0, 1],
    ];
    let mut forward = TextSet::new();
    for combo in combos.iter() {
        forward.extend(combination_strings(&words, combo, Capitalization::All));
    }
    let mut backward = TextSet::new();
    for combo in combos.iter().rev() {
        backward.extend(combination_strings(&words, combo, Capitalization::All));
        backward.extend(combination_strings(&words, combo, Capitalization::All));
    }
    let whole = set_of(generate_permutations(&words, 3, Capitalization::All));
    assert_eq!(set_of(forward.into_vec()), whole);
    assert_eq!(set_of(backward.into_vec()), whole);
}

#[test]
fn results_spell_distinct_words_in_every_order() {
    let words = list(&["ab", "c", "de", "f"]);
    let mut expected = BTreeSet::new();
    for i in 0..4 {
        expected.insert(words[i].clone());
        for j in 0..4 {
            if j == i {
                continue;
            }
            expected.insert(format!("{}{}", words[i], words[j]));
            for k in 0..4 {
                if k == i || k == j {
                    continue;
                }
                expected.insert(format!("{}{}{}", words[i], words[j], words[k]));
            }
        }
    }
    let found = generate_permutations(&words, 3, Capitalization::Identity);
    assert_eq!(found.len(), 4 + 12 + 24);
    assert_eq!(set_of(found), expected);
}

#[test]
fn list_combinations_by_size() {
    assert_eq!(
        list_combinations(4, 2),
        vec![
            vec![0],
            vec![1],
            vec![2],
            vec![3],
            vec![0, 1],
            vec![0, 2],
            vec![0, 3],
            vec![1, 2],
            vec![1, 3],
            vec![2, 3]
        ]
    );
    assert_eq!(
        list_combinations(3, 3),
        vec![
            vec![0],
            vec![1],
            vec![2],
            vec![0, 1],
            vec![0, 2],
            vec![1, 2],
            vec![0, 1, 2]
        ]
    );
}

#[test]
fn list_combinations_at_the_edges() {
    assert_eq!(list_combinations(2, 5), vec![vec![0], vec![1], vec![0, 1]]);
    assert_eq!(list_combinations(2, usize::MAX), list_combinations(2, 2));
    assert!(list_combinations(0, 3).is_empty());
    assert!(list_combinations(3, 0).is_empty());
    assert_eq!(list_combinations(1, 1), vec![vec![0]]);
}

#[test]
fn listed_combinations_give_the_result_set() {
    let words = list(&["a", "b", "c", "d"]);
    let mut merged = TextSet::new();
    for combo in list_combinations(words.len(), 3) {
        merged.extend(combination_strings(&words, &combo, Capitalization::First));
    }
    assert_eq!(
        set_of(merged.into_vec()),
        set_of(generate_permutations(&words, 3, Capitalization::First))
    );
}

#[test]
fn arrangements_come_in_dictionary_order() {
    let forms = vec![list(&["a", "A"]), list(&["b", "B"])];
    assert_eq!(
        arrangements(&forms),
        vec!["ab", "ba", "aB", "Ba", "Ab", "bA", "AB", "BA"]
    );
    let forms = vec![list(&["x"]), list(&["y"]), list(&["z"])];
    assert_eq!(
        arrangements(&forms),
        vec!["xyz", "xzy", "yxz", "yzx", "zxy", "zyx"]
    );
    let forms = vec![list(&["p", "q", "r"]), list(&["s"]), list(&["t", "u"])];
    let found = arrangements(&forms);
    assert_eq!(found.len(), 3 * 2 * 6);
    assert_eq!(found[..6].to_vec(), vec!["pst", "pts", "spt", "stp", "tps", "tsp"]);
    assert_eq!(found[6], "psu");
    assert_eq!(found[12], "qst");
}

#[test]
fn orderings_of_four_come_sorted() {
    let forms = vec![list(&["a"]), list(&["b"]), list(&["c"]), list(&["d"])];
    let found = arrangements(&forms);
    assert_eq!(found.len(), 24);
    let mut sorted = found.clone();
    sorted.sort();
    assert_eq!(found, sorted);
    assert_eq!(found[0], "abcd");
    assert_eq!(found[23], "dcba");
}

#[test]
fn choices_of_three_lists_come_sorted() {
    let forms = vec![list(&["a", "b", "c"]), list(&["d", "e"]), list(&["f", "g"])];
    let found = arrangements(&forms);
    let in_place: Vec<String> = found.iter().step_by(6).cloned().collect();
    assert_eq!(
        in_place,
        vec![
            "adf", "adg", "aef", "aeg", "bdf", "bdg", "bef", "beg", "cdf", "cdg", "cef", "ceg"
        ]
    );
}
