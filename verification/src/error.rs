//! Errors that the engines and operations report.

use vstd::prelude::*;

verus! {

/// Declares `std::io::Error` to the verifier as an opaque type, so that
/// the [`Error::Io`] variant can carry whatever a failing sink reports.
#[verifier::external_type_specification]
#[verifier::external_body]
pub struct ExIoError(std::io::Error);

/// Errors that may happen in this crate.
#[derive(Debug)]
#[non_exhaustive]
pub enum Error {
    /// I/O error, reported by a sink during a streaming write.
    Io(std::io::Error),

    /// Output buffer is too small.
    /// Value corresponds to the minimum size that would have been required.
    OutputBufferTooSmall(usize),

    /// Integer overflow in a committed-byte counter.
    IntegerOverflow,
}

impl Error {
    /// Instantiates an [`Error::OutputBufferTooSmall`] variant.
    pub(crate) fn buffer_too_small(n: usize) -> (r: Self)
        ensures
            r == Error::OutputBufferTooSmall(n),
    {
        Error::OutputBufferTooSmall(n)
    }

    /// Returns the underlying I/O error if suitable.
    pub fn io(&self) -> (r: Option<&std::io::Error>)
        ensures
            match r {
                Some(e) => self matches Error::Io(inner) && e == inner,
                None => !(self is Io),
            },
    {
        if let Error::Io(err) = self {
            Some(err)
        } else {
            None
        }
    }
}

} // verus!
