use vstd::prelude::*;

pub mod ast;
pub mod functions;
pub mod lex;
pub mod list_matcher;
pub mod rhs_types;
pub mod scheme;
pub mod types;

verus! {
} // verus!
