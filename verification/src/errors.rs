use vstd::prelude::*;

verus! {

/// Errors that the block-level parser may report.
#[derive(Debug, PartialEq, Eq, Structural)]
pub enum Error {
    /// A bounded stack could not take another entry.
    OutOfStackSpace,
}

/// The result type of the parsers.
pub type Result<T> = core::result::Result<T, Error>;

impl Error {
    /// The name of the error variant.
    pub fn name(&self) -> (r: &'static str)
        ensures
            r@ == "OutOfStackSpace"@,
    {
        match self {
            Error::OutOfStackSpace => "OutOfStackSpace",
        }
    }
}

} // verus!
