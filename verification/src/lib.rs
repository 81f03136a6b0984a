//! Back end of a small C compiler.
//!
//! A checked syntax tree ([`ast`]) is lowered to a linear three-address IR
//! over virtual registers ([`lower`], [`gen_ir`]).  The registers are
//! mapped to seven physical registers ([`regalloc`]), an experimental
//! pass rewrites scalar operations into AVX-512 operations
//! ([`vectorize`]), and the result is written as x86-64 assembly in NASM
//! syntax ([`gen_x86`]).  The IR can be printed ([`irdump`]) and read back
//! ([`irparse`], [`dumpread`]), and so can the data section of the globals
//! ([`dataread`]).  [`pipeline`] runs the passes in order.
//!
//! Every function states in its contract what it returns, and the contract
//! is proved.  Some modules hold proofs only: that the labels of the
//! assembly differ ([`labels`], [`fresh`]), and that reading the printed IR
//! yields what was printed ([`names`], [`roundtrip`]).

use vstd::prelude::*;

pub mod ast;
pub mod dataread;
pub mod dumpread;
pub mod fresh;
pub mod gen_ir;
pub mod gen_x86;
pub mod irdump;
pub mod irparse;
pub mod labels;
pub mod lower;
pub mod names;
pub mod pipeline;
pub mod regalloc;
pub mod roundtrip;
pub mod scan;
pub mod text;
pub mod util;
pub mod vectorize;

verus! {

/// Number of physical registers managed by the register allocator.
pub const REGS_N: usize = 7;

/// Where a declared object lives.
#[derive(Clone, Debug, PartialEq, Eq)]
pub enum Scope {
    /// A slot of the current frame: offset and size in bytes.
    Local(usize, usize),
    /// A global object: initial bytes, length in bytes, and whether it is
    /// only declared here and defined elsewhere.
    Global(Vec<u8>, usize, bool),
}

/// A declared object.
#[derive(Clone, Debug, PartialEq, Eq)]
pub struct Var {
    pub name: String,
    pub scope: Scope,
}

} // verus!
