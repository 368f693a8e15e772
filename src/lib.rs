//! A small command-line interpreter: logical lines separated by `;`,
//! commands chained with `&&` and `||`, each command a binary and its
//! arguments.
use vstd::prelude::*;

pub mod command;
pub mod eval;
pub mod lines;
pub mod text;

verus! {

} // verus!
