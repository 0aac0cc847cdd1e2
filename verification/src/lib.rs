//! A small backtracking regular-expression engine.
//!
//! A pattern string is compiled into a chain of pattern nodes (`parser`), and
//! the chain is evaluated against an input line by recursive backtracking
//! (`matcher`), threading a table of numbered group captures (`captures`)
//! through the attempt so that backreferences can be resolved.

pub mod captures;
pub mod laws;
pub mod matcher;
pub mod parser;
pub mod pattern;
pub mod unicode;
