//! Core of a proof-reconstruction puzzle over a formal corpus.
//!
//! A player rebuilds a formal proof by applying steps from a fixed corpus of
//! statements to a working stack of formulas until the stack's top formula
//! equals the current goal. This crate holds the engine that decides whether
//! a step applies, the level bookkeeping built on it, and the pure stack
//! edits. Parsing the corpus and drawing formulas stay outside; they hand
//! this crate plain values.

pub mod edits;
pub mod engine;
pub mod laws;
pub mod level;
pub mod perm;
pub mod render;
pub mod subst;
pub mod types;

pub use render::from_utf8;
pub use types::Context;
pub use types::Formula;
pub use types::Frame;
pub use types::Hypothesis;
pub use types::State;
pub use types::Statement;
pub use types::StatementAddress;
pub use types::StatementKind;
pub use types::Token;
pub use types::formula_eq;
