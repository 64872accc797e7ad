//! Building blocks for describing and consuming command-line interfaces.
//!
//! The `describe` module renders a tree-shaped model of positional arguments
//! into one-line usage summaries and multi-line detailed help texts; the
//! `parser` module consumes an ordered token stream back into typed values,
//! reporting structured errors.  The `formatter` modules carry the join/wrap
//! policy both renderings are built on.

pub mod describe;
pub mod formatter;
pub mod parser;
