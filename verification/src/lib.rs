//! A mathematical expression language: tokenizer, date and duration handling,
//! formatted date and number scanning, and the diagnostics they report.
use vstd::prelude::*;

pub mod date;
pub mod errors;
pub mod functions;
pub mod globals;
pub mod naming;
pub mod number;
pub mod number_format;
pub mod parser;
pub mod resolver;
pub mod test_api;
pub mod text;
pub mod tokenizer;

verus! {
} // verus!
