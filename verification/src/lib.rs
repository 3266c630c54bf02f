//! A declarative command-line argument framework: flags and positional
//! values are described once through fluent builders, and a parser
//! turns a raw token list into a queryable result, with per-entry
//! default rules, validation rules, and aligned help text.

pub mod app;
pub mod cli_args;
pub mod file;
pub mod flag;
pub mod laws;
pub mod parse;
pub mod raw;
pub mod result;
pub mod strmap;
pub mod strutil;
pub mod value;
pub mod wrap;
