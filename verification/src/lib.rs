//! A checker and renderer for derivations in Gentzen's sequent calculus LK
//! for classical first-order logic with equality.
//!
//! The library models terms and formulas as immutable trees, provides
//! free/bound-variable collection and capture-checked substitution, a
//! tokenizer and parser for a prefix S-expression surface syntax, a
//! `Sequent` type, the `LK` proof-tree type with a per-rule validity
//! predicate, and an ASCII proof-tree renderer.

pub mod language;
pub mod ops;
pub mod subst;
pub mod sequent;
pub mod lk;
pub mod checker;
pub mod print;
pub mod render;
pub mod tokenizer;
pub mod parser;
pub mod laws;
pub mod round_trip;
