//! A small language of route patterns: reading a pattern into tokens,
//! compacting the tokens into a compiled form, matching a path against the
//! compiled form, and turning what was captured into typed values.

pub mod captures;
pub mod chars;
pub mod convert;
pub mod decimal;
pub mod grammar;
pub mod laws;
pub mod matcher;
pub mod optimizer;
pub mod parser;
pub mod token;
