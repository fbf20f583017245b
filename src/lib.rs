//! A single-pass lexical scanner for a small scripting language.
//!
//! `model` states, as spec functions over `Seq<char>`, what scanning a source
//! text produces; `scanner` computes it and is proved to agree with it;
//! `theorems` proves general facts about every scan; `token` holds the output
//! types and `utils` the character classes and diagnostics.
pub mod model;
pub mod scanner;
pub mod theorems;
pub mod token;
pub mod utils;
