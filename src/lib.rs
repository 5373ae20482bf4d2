//! Compiling module syntax trees in three passes over a shared global
//! scope, and reading back what a compiled program wrote when it ran.
use vstd::prelude::*;

pub mod ast;
pub mod scope;
pub mod codegen;
pub mod decode;
pub mod runner;

verus! {

} // verus!
