//! Ready-made trimmers and parsers.

pub mod trim;
pub mod parse;
