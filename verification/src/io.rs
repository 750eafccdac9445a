//! Implementation of [`crate::Shellcoder`] using a streaming sink.

use vstd::prelude::*;

use crate::error::Error;
use crate::Op;
use crate::Shellcoder as ShellcoderTrait;
use crate::Sink;

verus! {

/// A shellcoder backed by a streaming sink.
///
/// The engine owns no storage of its own: every operation is realized
/// directly against the sink, and [`out`](crate::Shellcoder::out) is
/// whatever the sink has accepted.  There is no capacity bound to
/// check; the only failures are the sink's own, propagated as
/// [`Error::Io`].
pub struct Shellcoder<S: Sink>(S);

impl<S: Sink> Shellcoder<S> {
    /// Whether the underlying sink accepts every write; every add then
    /// succeeds.
    pub closed spec fn sink_infallible(&self) -> bool {
        self.0.infallible()
    }

    /// Instantiates a new sink-backed shellcoder, taking ownership of
    /// the sink for the engine's entire life.
    pub fn new(stream: S) -> (r: Self)
        ensures
            r.wf(),
            r.out() == stream.out(),
            r.sink_infallible() == stream.infallible(),
    {
        Shellcoder(stream)
    }

    /// Hands the sink back to the caller.
    pub fn into_inner(self) -> (s: S)
        ensures
            s.out() == self.out(),
            s.infallible() == self.sink_infallible(),
    {
        self.0
    }
}

impl<S: Sink> ShellcoderTrait for Shellcoder<S> {
    open spec fn wf(&self) -> bool {
        true
    }

    closed spec fn out(&self) -> Seq<u8> {
        self.0.out()
    }

    fn add<O: Op>(&mut self, op: &O) -> (r: Result<usize, Error>)
        ensures
            r matches Err(e) ==> e is Io,
            final(self).sink_infallible() == old(self).sink_infallible(),
            old(self).sink_infallible() ==> r is Ok,
            op.encoding().len() == 0 ==> r is Ok,
    {
        op.write_to_io(&mut self.0)
    }
}

} // verus!
