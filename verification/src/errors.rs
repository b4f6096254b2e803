use vstd::prelude::*;

verus! {

/// What can go wrong while disassembling. Reading the input and writing the
/// listing are the caller's business; their failures are wrapped outside the
/// library.
#[derive(Debug)]
pub enum DisassembleError {
    /// The input does not parse: a bad container header, or a cell was read
    /// as a byte after it had already been consumed or decoded.
    ParseError(String),
    /// A decode failure, annotated with where it happened.
    WrappedError(String),
}

impl DisassembleError {
    /// The message carried by the error.
    pub fn message(&self) -> (r: &String)
        ensures
            r@ == error_message(*self),
    {
        match self {
            DisassembleError::ParseError(m) => m,
            DisassembleError::WrappedError(m) => m,
        }
    }
}

/// The message carried by an error.
pub open spec fn error_message(e: DisassembleError) -> Seq<char> {
    match e {
        DisassembleError::ParseError(m) => m@,
        DisassembleError::WrappedError(m) => m@,
    }
}

} // verus!
