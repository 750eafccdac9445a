//! Implementation of [`crate::Shellcoder`] using a fixed-capacity
//! buffer.

use vstd::prelude::*;

use crate::appended_prefix;
use crate::error::Error;
use crate::Op;
use crate::Shellcoder as ShellcoderTrait;

verus! {

/// A shellcoder writing in place into a caller-supplied fixed-capacity
/// region, with no growth.
///
/// The engine keeps an index-based cursor into the region it was given:
/// `committed` bytes at the front are already finalized and are never
/// written again; each operation is realized into the remaining region
/// and, on success, seals its bytes into the committed prefix.  A
/// failed operation leaves both the region and the cursor exactly as
/// they were: no partial commit is ever observable.
#[derive(Debug)]
pub struct Shellcoder {
    /// The caller-supplied region.
    buf: Vec<u8>,
    /// How many bytes at the front of the region are finalized.
    committed: usize,
}

impl Shellcoder {
    /// The fixed capacity: the length of the caller-supplied region.
    pub open spec fn capacity(&self) -> nat {
        self.region().len()
    }

    /// How many bytes have been committed so far.
    pub closed spec fn committed(&self) -> nat {
        self.committed as nat
    }

    /// The whole region: the committed prefix followed by the
    /// remaining, not yet written bytes.
    pub closed spec fn region(&self) -> Seq<u8>
    {
        self.buf@
    }

    /// The length of the remaining writable region.
    pub open spec fn remaining(&self) -> nat
        recommends
            self.wf(),
    {
        (self.capacity() - self.committed()) as nat
    }

    /// The committed counter never runs past the region: committed
    /// bytes plus remaining writable bytes always make up the original
    /// capacity, after every call.
    pub proof fn lemma_capacity_split(&self)
        requires
            self.wf(),
        ensures
            self.committed() + self.remaining() == self.capacity(),
    {
    }

    /// Instantiates a new shellcoder over a caller-supplied region.
    /// The whole region is writable; nothing is committed yet.
    pub fn new(buffer: Vec<u8>) -> (r: Self)
        ensures
            r.wf(),
            r.committed() == 0,
            r.region() == buffer@,
            r.out() == Seq::<u8>::empty(),
    {
        let r = Shellcoder { buf: buffer, committed: 0 };
        proof {
            assert(r.out() =~= Seq::<u8>::empty());
        }
        r
    }

    /// Returns the shellcode: exactly the committed prefix of the
    /// caller-supplied region.  Reading never mutates state and may be
    /// called at any point.
    pub fn get(&self) -> (r: &[u8])
        requires
            self.wf(),
        ensures
            r@ == self.out(),
    {
        vstd::slice::slice_subrange(self.buf.as_slice(), 0, self.committed)
    }

    /// Hands the caller-supplied region back: the committed prefix
    /// followed by the bytes that were never written.
    pub fn into_inner(self) -> (r: Vec<u8>)
        ensures
            r@ == self.region(),
    {
        self.buf
    }
}

impl ShellcoderTrait for Shellcoder {
    open spec fn wf(&self) -> bool {
        self.committed() <= self.capacity()
    }

    open spec fn out(&self) -> Seq<u8> {
        self.region().take(self.committed() as int)
    }

    fn add<O: Op>(&mut self, op: &O) -> (r: Result<usize, Error>)
        ensures
            final(self).capacity() == old(self).capacity(),
            r matches Ok(k) ==> k == op.encoding().len()
                && old(self).committed() + k <= old(self).capacity()
                && final(self).committed() == old(self).committed() + k
                && final(self).region() == old(self).region().take(old(self).committed() as int) + op.encoding() + old(self).region().skip(old(self).committed() + k),
            r matches Err(e) ==> e matches Error::OutputBufferTooSmall(m) && m == op.encoding().len()
                && old(self).committed() + op.encoding().len() > old(self).capacity()
                && final(self).committed() == old(self).committed()
                && final(self).region() == old(self).region(),
    {
        let at = self.committed;
        match op.write_at(&mut self.buf, at) {
            Ok(k) => {
                let len: usize = self.buf.len();
                assert(at + k <= len);
                match self.committed.checked_add(k) {
                    Some(c) => {
                        self.committed = c;
                        proof {
                            assert(self.out() =~= old(self).out() + op.encoding());
                        }
                        Ok(k)
                    },
                    None => {
                        proof {
                            assert(false);
                        }
                        Err(Error::IntegerOverflow)
                    },
                }
            },
            Err(e) => {
                proof {
                    assert(self.out() =~= old(self).out() + op.encoding().take(0));
                    assert(appended_prefix(old(self).out(), self.out(), op.encoding()));
                }
                Err(e)
            },
        }
    }

    fn advance(&mut self, n: usize) -> (r: Result<usize, Error>)
        ensures
            final(self).capacity() == old(self).capacity(),
            r matches Ok(k) ==> k == n && old(self).committed() + n <= old(self).capacity()
                && final(self).committed() == old(self).committed() + n
                && final(self).region() == old(self).region().take(old(self).committed() as int) + crate::ops::repeated(0u8, n as nat) + old(self).region().skip(old(self).committed() + n),
            r matches Err(e) ==> e matches Error::OutputBufferTooSmall(m) && m == n
                && old(self).committed() + n > old(self).capacity()
                && final(self).committed() == old(self).committed()
                && final(self).region() == old(self).region(),
    {
        self.add(&crate::ops::Advance::new(n))
    }

    fn fill(&mut self, len: usize, chr: u8) -> (r: Result<usize, Error>)
        ensures
            final(self).capacity() == old(self).capacity(),
            r matches Ok(k) ==> k == len && old(self).committed() + len <= old(self).capacity()
                && final(self).committed() == old(self).committed() + len
                && final(self).region() == old(self).region().take(old(self).committed() as int) + crate::ops::repeated(chr, len as nat) + old(self).region().skip(old(self).committed() + len),
            r matches Err(e) ==> e matches Error::OutputBufferTooSmall(m) && m == len
                && old(self).committed() + len > old(self).capacity()
                && final(self).committed() == old(self).committed()
                && final(self).region() == old(self).region(),
    {
        self.add(&crate::ops::Fill::new(len, chr))
    }

    fn int_be<I: crate::ops::EncodableInteger>(&mut self, i: I) -> (r: Result<usize, Error>)
        ensures
            final(self).capacity() == old(self).capacity(),
            r matches Ok(k) ==> k == i.be_seq().len() && old(self).committed() + i.be_seq().len() <= old(self).capacity()
                && final(self).committed() == old(self).committed() + i.be_seq().len()
                && final(self).region() == old(self).region().take(old(self).committed() as int) + i.be_seq() + old(self).region().skip((old(self).committed() + i.be_seq().len()) as int),
            r matches Err(e) ==> e matches Error::OutputBufferTooSmall(m) && m == i.be_seq().len()
                && old(self).committed() + i.be_seq().len() > old(self).capacity()
                && final(self).committed() == old(self).committed()
                && final(self).region() == old(self).region(),
    {
        self.add(&crate::ops::WriteInteger::<I>::new_be(i))
    }

    fn int_le<I: crate::ops::EncodableInteger>(&mut self, i: I) -> (r: Result<usize, Error>)
        ensures
            final(self).capacity() == old(self).capacity(),
            r matches Ok(k) ==> k == i.le_seq().len() && old(self).committed() + i.le_seq().len() <= old(self).capacity()
                && final(self).committed() == old(self).committed() + i.le_seq().len()
                && final(self).region() == old(self).region().take(old(self).committed() as int) + i.le_seq() + old(self).region().skip((old(self).committed() + i.le_seq().len()) as int),
            r matches Err(e) ==> e matches Error::OutputBufferTooSmall(m) && m == i.le_seq().len()
                && old(self).committed() + i.le_seq().len() > old(self).capacity()
                && final(self).committed() == old(self).committed()
                && final(self).region() == old(self).region(),
    {
        self.add(&crate::ops::WriteInteger::<I>::new_le(i))
    }

    fn push_buffer(&mut self, buffer: &[u8]) -> (r: Result<usize, Error>)
        ensures
            final(self).capacity() == old(self).capacity(),
            r matches Ok(k) ==> k == buffer@.len() && old(self).committed() + buffer@.len() <= old(self).capacity()
                && final(self).committed() == old(self).committed() + buffer@.len()
                && final(self).region() == old(self).region().take(old(self).committed() as int) + buffer@ + old(self).region().skip((old(self).committed() + buffer@.len()) as int),
            r matches Err(e) ==> e matches Error::OutputBufferTooSmall(m) && m == buffer@.len()
                && old(self).committed() + buffer@.len() > old(self).capacity()
                && final(self).committed() == old(self).committed()
                && final(self).region() == old(self).region(),
    {
        self.add(&crate::ops::WriteBuffer::new(buffer))
    }
}

} // verus!
