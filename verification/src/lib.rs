//! A string interner: each distinct string is stored once in an append-only
//! arena and stands behind a small copyable symbol.
//!
//! - [`sym`]: the symbol type [`Sym`] and the trait [`Symbolic`].
//! - [`interner`]: the trait [`Interner`] for stores that intern.
//! - [`lexicon`]: the interner [`Lexicon`] and [`init_with_alphabet`].
//! - [`model`]: what interning does to the table of texts, and the laws
//!   that follow.
//! - [`arena`]: the buffers that hold the strings, and how they grow.
//! - [`text`], [`power`]: facts about UTF-8 and about powers of two.
//!
//! A `Lexicon` is seen in contracts as the sequence of its texts: the text of
//! symbol `n` stands at place `n`. Symbols count up from 0, so they fit
//! wherever an index does.

pub mod arena;
pub mod interner;
pub mod lexicon;
pub mod model;
pub mod power;
pub mod sym;
pub mod text;

pub use interner::Interner;
pub use lexicon::{init_with_alphabet, Lexicon};
pub use sym::{Sym, Symbolic};
