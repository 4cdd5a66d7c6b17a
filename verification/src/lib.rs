use vstd::prelude::*;

pub mod chars;
pub mod config;
pub mod embeddings_table;
pub mod lang;
pub mod paths;
pub mod pattern;
pub mod pipeline;
pub mod search;
pub mod semantic;
pub mod text;

verus! {

} // verus!
