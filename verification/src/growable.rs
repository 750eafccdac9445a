//! Implementation of [`crate::Shellcoder`] using a dynamic buffer.

use vstd::prelude::*;

use crate::appended_prefix;
use crate::error::Error;
use crate::Op;
use crate::Shellcoder as ShellcoderTrait;

verus! {

/// A shellcoder backed by a dynamic buffer, growing on demand.
///
/// The buffer acts as an unbounded append-only sink, so growth itself
/// never fails.  When a maximum length was configured, it is enforced
/// only after the write: an operation that takes the buffer past the
/// bound is still appended whole, and the bound violation is then
/// reported as [`Error::OutputBufferTooSmall`] carrying the buffer's
/// new length.  The bytes are deliberately not rolled back.
#[derive(Debug)]
pub struct Shellcoder {
    /// Buffer containing the shellcode.
    stream: Vec<u8>,
    /// A maximum length in bytes.
    max_len: Option<usize>,
}

impl Shellcoder {
    /// The configured maximum length in bytes, if any.
    pub closed spec fn bound(&self) -> Option<usize> {
        self.max_len
    }

    /// Instantiates a new shellcoder, without a maximum length.
    pub fn new() -> (r: Self)
        ensures
            r.wf(),
            r.out() == Seq::<u8>::empty(),
            r.bound() is None,
    {
        Shellcoder { stream: Vec::new(), max_len: None }
    }

    /// Instantiates a new shellcoder with a maximum length in bytes.
    pub fn new_with_max_len(max_len: usize) -> (r: Self)
        ensures
            r.wf(),
            r.out() == Seq::<u8>::empty(),
            r.bound() == Some(max_len),
    {
        Shellcoder { stream: Vec::new(), max_len: Some(max_len) }
    }

    /// Returns the accumulated shellcode: a pure read accessor with no
    /// side effect.
    pub fn as_bytes(&self) -> (r: &[u8])
        ensures
            r@ == self.out(),
    {
        self.stream.as_slice()
    }
}

impl Default for Shellcoder {
    /// Same as [`Shellcoder::new`]: empty, without a maximum length.
    fn default() -> (r: Self)
        ensures
            r.wf(),
            r.out() == Seq::<u8>::empty(),
            r.bound() is None,
    {
        Shellcoder::new()
    }
}

impl ShellcoderTrait for Shellcoder {
    open spec fn wf(&self) -> bool {
        true
    }

    closed spec fn out(&self) -> Seq<u8> {
        self.stream@
    }

    fn add<O: Op>(&mut self, op: &O) -> (r: Result<usize, Error>)
        ensures
            final(self).out() == old(self).out() + op.encoding(),
            final(self).bound() == old(self).bound(),
            r matches Ok(k) ==> k == op.encoding().len() && (old(self).bound() matches Some(b) ==> final(self).out().len() <= b),
            r matches Err(e) ==> e matches Error::OutputBufferTooSmall(m) && m == final(self).out().len() && (old(self).bound() matches Some(b) && (b as int) < final(self).out().len()),
    {
        let k = op.write_to_vec(&mut self.stream);
        proof {
            assert(op.encoding().take(op.encoding().len() as int) =~= op.encoding());
            assert(appended_prefix(old(self).out(), self.out(), op.encoding()));
        }
        match self.max_len {
            Some(max_len) => {
                if max_len < self.stream.len() {
                    Err(Error::buffer_too_small(self.stream.len()))
                } else {
                    Ok(k)
                }
            },
            None => Ok(k),
        }
    }

    fn advance(&mut self, n: usize) -> (r: Result<usize, Error>)
        ensures
            final(self).out() == old(self).out() + crate::ops::repeated(0u8, n as nat),
            final(self).bound() == old(self).bound(),
            r matches Ok(k) ==> k == n && (old(self).bound() matches Some(b) ==> final(self).out().len() <= b),
            r matches Err(e) ==> e matches Error::OutputBufferTooSmall(m) && m == final(self).out().len() && (old(self).bound() matches Some(b) && (b as int) < final(self).out().len()),
    {
        self.add(&crate::ops::Advance::new(n))
    }

    fn fill(&mut self, len: usize, chr: u8) -> (r: Result<usize, Error>)
        ensures
            final(self).out() == old(self).out() + crate::ops::repeated(chr, len as nat),
            final(self).bound() == old(self).bound(),
            r matches Ok(k) ==> k == len && (old(self).bound() matches Some(b) ==> final(self).out().len() <= b),
            r matches Err(e) ==> e matches Error::OutputBufferTooSmall(m) && m == final(self).out().len() && (old(self).bound() matches Some(b) && (b as int) < final(self).out().len()),
    {
        self.add(&crate::ops::Fill::new(len, chr))
    }

    fn int_be<I: crate::ops::EncodableInteger>(&mut self, i: I) -> (r: Result<usize, Error>)
        ensures
            final(self).out() == old(self).out() + i.be_seq(),
            final(self).bound() == old(self).bound(),
            r matches Ok(k) ==> k == i.be_seq().len() && (old(self).bound() matches Some(b) ==> final(self).out().len() <= b),
            r matches Err(e) ==> e matches Error::OutputBufferTooSmall(m) && m == final(self).out().len() && (old(self).bound() matches Some(b) && (b as int) < final(self).out().len()),
    {
        self.add(&crate::ops::WriteInteger::<I>::new_be(i))
    }

    fn int_le<I: crate::ops::EncodableInteger>(&mut self, i: I) -> (r: Result<usize, Error>)
        ensures
            final(self).out() == old(self).out() + i.le_seq(),
            final(self).bound() == old(self).bound(),
            r matches Ok(k) ==> k == i.le_seq().len() && (old(self).bound() matches Some(b) ==> final(self).out().len() <= b),
            r matches Err(e) ==> e matches Error::OutputBufferTooSmall(m) && m == final(self).out().len() && (old(self).bound() matches Some(b) && (b as int) < final(self).out().len()),
    {
        self.add(&crate::ops::WriteInteger::<I>::new_le(i))
    }

    fn push_buffer(&mut self, buffer: &[u8]) -> (r: Result<usize, Error>)
        ensures
            final(self).out() == old(self).out() + buffer@,
            final(self).bound() == old(self).bound(),
            r matches Ok(k) ==> k == buffer@.len() && (old(self).bound() matches Some(b) ==> final(self).out().len() <= b),
            r matches Err(e) ==> e matches Error::OutputBufferTooSmall(m) && m == final(self).out().len() && (old(self).bound() matches Some(b) && (b as int) < final(self).out().len()),
    {
        self.add(&crate::ops::WriteBuffer::new(buffer))
    }
}

} // verus!
