//! A small stack machine over 128-bit words: an instruction codec, an
//! assembler from mnemonic text, and a two-phase execution engine.
mod assembler;
mod laws;
mod machine;
mod op;
mod trace;
mod util;

pub use assembler::{assemble, assemble_tokens, AsmError, TaggedAsmError};
pub use machine::{interpret, Machine, MachineState, Outcome, Phase};
pub use op::{Op, OpKind};
pub use util::{abs_sub, Error};

use vstd::prelude::*;

verus! {

/// The machine's unit of data and of code.
pub type Word = u128;

} // verus!
