//! Capitalization policies and the variants of a single word.

use vstd::prelude::*;
use vstd::string::*;

verus! {

/// Which capitalized forms of a word take part in the generated strings.
#[derive(Copy, Clone, PartialEq, Eq, Structural, PartialOrd, Ord, Debug)]
pub enum Capitalization {
    /// The word as written, its full uppercase and its first-letter capitalization.
    All,
    /// The word as written.
    Identity,
    /// The word with its first character uppercased.
    First,
    /// The word in full uppercase.
    Upper,
}

impl Default for Capitalization {
    /// The default policy takes all three forms of each word.
    fn default() -> (style: Self)
        ensures
            style == Capitalization::All,
    {
        Capitalization::All
    }
}

/// The text that `str::to_uppercase` returns for the text `s`.
pub uninterp spec fn uppercase_text(s: Seq<char>) -> Seq<char>;

/// The text that `char::to_uppercase` yields for the character `c`
/// (one character may map to several).
pub uninterp spec fn uppercase_char(c: char) -> Seq<char>;

/// Calls `str::to_uppercase`. The Unicode case mapping is not spelled out
/// here: the result is only given the name `uppercase_text`.
#[verifier::external_body]
fn to_uppercase(s: &str) -> (r: String)
    ensures
        r@ == uppercase_text(s@),
{
    s.to_uppercase()
}

/// Calls `char::to_uppercase` and collects the characters it yields. The
/// mapping is not spelled out here: the result is only given the name
/// `uppercase_char`.
#[verifier::external_body]
fn char_to_uppercase(c: char) -> (r: String)
    ensures
        r@ == uppercase_char(c),
{
    c.to_uppercase().collect::<String>()
}

/// `s` with its first character replaced by that character's uppercase
/// mapping; the empty text stays empty.
pub open spec fn capitalized(s: Seq<char>) -> Seq<char> {
    if s.len() == 0 {
        Seq::empty()
    } else {
        uppercase_char(s[0]) + s.skip(1)
    }
}

/// `s` with its first character replaced by `head`; the empty text stays empty.
pub open spec fn with_head(s: Seq<char>, head: Seq<char>) -> Seq<char> {
    if s.len() == 0 {
        Seq::empty()
    } else {
        head + s.skip(1)
    }
}

/// Puts `head` in the place of the first character of `s`.
pub fn replace_first(s: &str, head: &str) -> (r: String)
    ensures
        r@ == with_head(s@, head@),
{
    let n = s.unicode_len();
    if n == 0 {
        String::new()
    } else {
        let mut r = String::from_str(head);
        let tail = s.substring_char(1, n);
        r.append(tail);
        r
    }
}

/// Uppercases the first character of `s` and leaves the rest as it is.
pub fn capitalize_first_letter(s: &str) -> (r: String)
    ensures
        r@ == capitalized(s@),
{
    if s.unicode_len() == 0 {
        String::new()
    } else {
        let head = char_to_uppercase(s.get_char(0));
        replace_first(s, head.as_str())
    }
}

/// The texts of a list of strings.
pub open spec fn texts(list: Seq<String>) -> Seq<Seq<char>> {
    list.map_values(|w: String| w@)
}

/// The capitalization variants of `word` under `style`, in the order in which
/// they are produced. Equal variants are not merged.
pub open spec fn variants(word: Seq<char>, style: Capitalization) -> Seq<Seq<char>> {
    match style {
        Capitalization::Identity => seq![word],
        Capitalization::First => seq![capitalized(word)],
        Capitalization::Upper => seq![uppercase_text(word)],
        Capitalization::All => seq![word, uppercase_text(word), capitalized(word)],
    }
}

/// How many variants every word has under `style`.
pub open spec fn variant_count(style: Capitalization) -> nat {
    match style {
        Capitalization::All => 3,
        _ => 1,
    }
}

/// Every word has three variants under `All`, of which some may be the same
/// text, and exactly one under each other policy.
pub proof fn variants_have_fixed_count(word: Seq<char>, style: Capitalization)
    ensures
        variants(word, style).len() == variant_count(style),
        style == Capitalization::All ==> variants(word, style).len() == 3 && variants(
            word,
            style,
        ).to_set().len() <= 3,
        style != Capitalization::All ==> variants(word, style).len() == 1 && variants(
            word,
            style,
        ).to_set().len() == 1,
{
    let found = variants(word, style);
    found.lemma_cardinality_of_set();
    if style != Capitalization::All {
        assert(found.to_set() =~= set![found[0]]);
    }
}

/// Lists the capitalization variants of `word` under `style`.
pub fn capitalize_variants(word: &str, style: Capitalization) -> (r: Vec<String>)
    ensures
        texts(r@) == variants(word@, style),
{
    let r = match style {
        Capitalization::Identity => vec![String::from_str(word)],
        Capitalization::First => vec![capitalize_first_letter(word)],
        Capitalization::Upper => vec![to_uppercase(word)],
        Capitalization::All => vec![
            String::from_str(word),
            to_uppercase(word),
            capitalize_first_letter(word),
        ],
    };
    r
}

} // verus!
