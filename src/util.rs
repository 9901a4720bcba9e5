use crate::Word;
use vstd::prelude::*;

verus! {

/// The distance between two words, `|a - b|`.
pub open spec fn abs_diff(a: Word, b: Word) -> Word {
    if a >= b { (a - b) as Word } else { (b - a) as Word }
}

/// The absolute difference of two words; never wraps.
pub fn abs_sub(a: Word, b: Word) -> (r: Word)
    ensures
        r == abs_diff(a, b),
        r as int == if a >= b { a - b } else { b - a },
{
    let max = if a >= b { a } else { b };
    let min = if a >= b { b } else { a };
    max - min
}

/// Everything that stops a step of the machine. `EndReached` is the normal
/// end of a program, not a fault.
#[derive(Clone, Copy, Debug, PartialEq, Eq, Structural)]
pub enum Error {
    StackOverflow,
    StackUnderflow,
    StackUnbalanced,
    WriteOob,
    ReadOob,
    BadCall,
    NoExec,
    IllegalOp,
    NoFunc,
    ExecLimit,
    EndReached,
}

/// The text that describes each error.
pub open spec fn error_text(e: Error) -> Seq<char> {
    match e {
        Error::StackOverflow => "Stack Overflow"@,
        Error::StackUnderflow => "Stack Underflow"@,
        Error::StackUnbalanced => "Stack Unbalanced"@,
        Error::WriteOob => "Memory write out of bounds"@,
        Error::ReadOob => "Memory read out of bounds"@,
        Error::IllegalOp => "Illegal instruction reached"@,
        Error::BadCall => "Attempted to call function which does not exist"@,
        Error::NoExec => "No exe instruction found. Are you trying to execute a library?"@,
        Error::NoFunc => "Cannot begin Recital, no functions have been defined"@,
        Error::ExecLimit => "Execution limit reached, compile and run natively to do really big stuff!"@,
        Error::EndReached => "Successfully terminated"@,
    }
}

impl Error {
    /// A human-readable description of the error.
    pub fn message(&self) -> (r: &'static str)
        ensures
            r@ == error_text(*self),
    {
        match self {
            Error::StackOverflow => "Stack Overflow",
            Error::StackUnderflow => "Stack Underflow",
            Error::StackUnbalanced => "Stack Unbalanced",
            Error::WriteOob => "Memory write out of bounds",
            Error::ReadOob => "Memory read out of bounds",
            Error::IllegalOp => "Illegal instruction reached",
            Error::BadCall => "Attempted to call function which does not exist",
            Error::NoExec => "No exe instruction found. Are you trying to execute a library?",
            Error::NoFunc => "Cannot begin Recital, no functions have been defined",
            Error::ExecLimit => "Execution limit reached, compile and run natively to do really big stuff!",
            Error::EndReached => "Successfully terminated",
        }
    }

    /// The description as an owned string.
    pub fn to_string(&self) -> (r: String)
        ensures
            r@ == error_text(*self),
    {
        String::from_str(self.message())
    }
}

/// The result of one machine operation.
pub type CResult = Result<(), Error>;

} // verus!
