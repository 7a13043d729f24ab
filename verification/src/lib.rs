//! Word permutation generator: every string that can be formed by joining an
//! ordered selection of distinct words from a list, each word taken in one of
//! its capitalization variants.

pub mod arrange;
pub mod arrangement;
pub mod capitalization;
pub mod generate;
pub mod limit;
pub mod selection;
pub mod text_set;
pub mod words;

pub use capitalization::{capitalize_first_letter, capitalize_variants, Capitalization};
pub use limit::apply_limit;
pub use text_set::TextSet;
pub use generate::{combination_strings, generate_permutations, list_combinations};
pub use words::{is_word_line, retain_words};
