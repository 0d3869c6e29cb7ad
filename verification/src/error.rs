//! The failures that building and running a chunk can end in.

use vstd::prelude::*;

verus! {

/// Why a chunk could not be extended or a run could not go on.
#[derive(Clone, Copy, Debug, PartialEq, Eq, Structural)]
pub enum RuntimeError {
    /// An instruction needed more operands than the stack held.
    StackUnderflow,
    /// A push would have taken the stack beyond its maximum depth.
    StackOverflow,
    /// A constant instruction addressed an entry that its pool lacks.
    InvalidConstantIndex,
    /// The wide constant pool is full.
    CapacityExceeded,
    /// The code ended inside an instruction, or before any `RETURN`.
    TruncatedProgram,
    /// A byte that encodes no instruction stood where one was expected.
    UnknownOpcode,
}

/// The two stages at which interpreting a source text can fail.
#[derive(Clone, Copy, Debug, PartialEq, Eq, Structural)]
pub enum InterpretErr {
    /// The front end rejected the source.
    CompileErr,
    /// The chunk was produced, and running it failed.
    RuntimeErr(RuntimeError),
}

/// The exit code of a run that could not read its source file.
pub const EXIT_UNREADABLE: i32 = 74;

/// The exit code of a run whose source did not compile.
pub const EXIT_COMPILE: i32 = 65;

/// The exit code of a run whose program faulted.
pub const EXIT_RUNTIME: i32 = 70;

impl InterpretErr {
    /// The exit code that reports this failure: one for the front end,
    /// another for the machine, and neither is the code of an unreadable
    /// file or of success.
    pub open spec fn code(self) -> i32 {
        match self {
            InterpretErr::CompileErr => EXIT_COMPILE,
            InterpretErr::RuntimeErr(_) => EXIT_RUNTIME,
        }
    }

    /// Gives the exit code that reports this failure.
    pub fn exit_code(&self) -> (code: i32)
        ensures
            code == self.code(),
            code != 0,
            code != EXIT_UNREADABLE,
    {
        match self {
            InterpretErr::CompileErr => EXIT_COMPILE,
            InterpretErr::RuntimeErr(_) => EXIT_RUNTIME,
        }
    }
}

} // verus!
