// A diagnostic classification and regression engine for Rust-like code.
//
// The analysis reads a parsed function body (`extract::Node`s) and the
// declarations around it, builds a fact table of ownership events
// (`extract`), runs four independent checkers over it (`ownership`,
// `lifetime`, `types` with `exhaustive`, `imports`), merges their findings
// (`aggregate`, driven by `analysis`) and compares the categories found with
// the categories expected (`grade`). `samples` holds small programs of the
// kind the engine is exercised on.

use vstd::prelude::*;

pub mod aggregate;
pub mod analysis;
pub mod diagnostic;
pub mod exhaustive;
pub mod extract;
pub mod facts;
pub mod grade;
pub mod imports;
pub mod lifetime;
pub mod ownership;
pub mod samples;
pub mod types;

verus! {

} // verus!
