use vstd::prelude::*;

pub mod cursor;
pub mod gecko;
pub mod text;
pub mod ppc;
pub mod assembler;
pub mod code_text;

verus! {

} // verus!
