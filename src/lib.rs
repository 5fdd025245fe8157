//! Single-pass, per-column summaries of comma-separated text.
//!
//! The library splits lines into fields, routes each field to its column by
//! position, counts the values of each column and decides when a run fails.
//! Reading the input and the floating-point work (parsing a field, adding it to
//! a running sum, dividing for the mean) are done by the caller.
use vstd::prelude::*;

pub mod engine;
pub mod lines;
pub mod summary;
pub mod tokenizer;

verus! {

} // verus!
