//! Building blocks for text parsers.
//!
//! * [`input`]: UTF-8 aware buffered input. An input holds a validated prefix
//!   of the text that is left, refills it from a byte source or a string, and
//!   is scanned with predicates on characters. Entry handles tie what a scan
//!   found to the input, so that it can be consumed without counting bytes.
//! * [`token`]: a precedence-driven engine that turns a sequence of raw
//!   tokens into resolved tokens in postfix order.
//! * [`trim`], [`parse`], [`basic`]: trimmers, parsers, mapped parsers and
//!   iteration over the items of an input.
//! * [`interner`]: an append-only store of strings with small integer ids.

pub mod basic;
pub mod input;
pub mod interner;
pub mod parse;
pub mod token;
pub mod trim;
