//! Renders a non-negative integer as Japanese numeral text in three
//! scripts: kanji, katakana and romaji.
//!
//! The conversion decomposes a number into base-10000 groups, renders
//! each group through tiered elision rules (no leading "one" before
//! ten, hundred or thousand), and attaches a magnitude word to each
//! non-empty group above the lowest. All three scripts are renderings
//! of one shared token sequence, so they always describe the same
//! magnitude breakdown.

pub mod convert;
pub mod japanese_number;
pub mod laws;
pub mod lexicon;
pub mod rendering;
pub mod tokens;
