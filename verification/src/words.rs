//! The word list: the lines of the input that are not blank.

use vstd::prelude::*;

verus! {

/// The text that `str::trim` returns for the text `s`: `s` without the
/// white space at its two ends.
pub uninterp spec fn trimmed(s: Seq<char>) -> Seq<char>;

/// Calls `str::trim`. Which characters count as white space is not spelled
/// out here: the result is only given the name `trimmed`.
#[verifier::external_body]
fn trim(s: &str) -> (r: &str)
    ensures
        r@ == trimmed(s@),
{
    s.trim()
}

/// A line is a word unless nothing is left of it once it is trimmed.
pub open spec fn is_word(line: Seq<char>) -> bool {
    trimmed(line).len() > 0
}

/// Tells whether `line` is a word, that is, not blank.
pub fn is_word_line(line: &str) -> (kept: bool)
    ensures
        kept == is_word(line@),
{
    !trim(line).is_empty()
}

/// The lines of `lines` that are words, in their order.
pub open spec fn word_lines(lines: Seq<String>) -> Seq<String> {
    lines.filter(|line: String| is_word(line@))
}

/// Keeps the lines that are words, as they are and in their order, and
/// drops the blank ones.
pub fn retain_words(lines: Vec<String>) -> (words: Vec<String>)
    ensures
        words@ == word_lines(lines@),
{
    let ghost all = lines@;
    let ghost keep = |line: String| is_word(line@);
    let mut lines = lines;
    let mut words: Vec<String> = Vec::new();
    let n = lines.len();
    let mut i: usize = 0;
    proof {
        reveal(Seq::filter);
    }
    while i < n
        invariant
            i <= n,
            n == lines.len(),
            n == all.len(),
            keep == |line: String| is_word(line@),
            forall|j: int| i <= j < n ==> lines[j] == all[j],
            words@ == all.take(i as int).filter(keep),
        decreases n - i,
    {
        if is_word_line(lines[i].as_str()) {
            let mut line = String::new();
            std::mem::swap(&mut line, &mut lines[i]);
            words.push(line);
        }
        proof {
            reveal(Seq::filter);
            assert(all.take(i + 1).drop_last() =~= all.take(i as int));
        }
        i = i + 1;
    }
    proof {
        assert(all.take(n as int) =~= all);
    }
    words
}

} // verus!
