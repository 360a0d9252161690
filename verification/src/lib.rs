//! A verified implementation of the program hash chain used to identify a
//! Cairo-style program inside a proof: a canonical encoding of a stripped
//! program (entry point, builtin list, data segment) into field elements,
//! folded right-to-left through the Pedersen hash into a single element.

pub mod cli;
pub mod felt;
pub mod pedersen;
pub mod program_hash;
pub mod zip;
