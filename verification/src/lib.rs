//! A small binary-payload construction toolkit.
//!
//! Callers assemble a sequence of primitive write operations (zero-fill
//! advance, byte fill, fixed-width integer in a chosen endianness, raw
//! buffer copy) into a contiguous output.  The output may live in a
//! growable buffer, be streamed byte by byte to a sink, or be written in
//! place into a caller-supplied fixed-capacity buffer.

use vstd::prelude::*;

pub mod codec;
pub mod error;
pub mod fixed;
pub mod growable;
pub mod io;
pub mod ops;

use crate::error::Error;

verus! {

/// Holds when `post` extends `pre` by some prefix of `enc`: the
/// observable state of a sink after a sequential write of `enc` that
/// may have been cut short by a failure.
pub open spec fn appended_prefix(pre: Seq<u8>, post: Seq<u8>, enc: Seq<u8>) -> bool {
    exists|i: int| 0 <= i <= enc.len() && post == pre + enc.take(i)
}

/// Generic interface for operations.
///
/// An operation describes one deterministic-length write action: the
/// byte string it stands for is its [`encoding`](Op::encoding), and it
/// can realize that byte string against two kinds of physical target: a
/// streaming [`Sink`] (sequential byte writes, which may fail midway
/// with an I/O error) or a directly addressable byte region (an
/// all-or-nothing write that fails when the region is too small).
///
/// Popular operations are implemented in this crate, such as
/// [`ops::Fill`], [`ops::WriteInteger`] or [`ops::WriteBuffer`].
pub trait Op {
    /// The byte string this operation writes: a deterministic, fixed
    /// sequence computable before writing.
    spec fn encoding(&self) -> Seq<u8>;

    /// Writes the operation to the stream, returning the number of
    /// bytes written.
    ///
    /// Success is owed whenever the sink accepts every write, and
    /// always for an empty operation, which asks nothing of the sink.
    /// On failure the sink's error is reported as [`Error::Io`] and
    /// only a prefix of the operation's bytes has been accepted.
    fn write_to_io<S: Sink>(&self, stream: &mut S) -> (r: Result<usize, Error>)
        ensures
            r matches Ok(k) ==> k == self.encoding().len() && final(stream).out() == old(stream).out() + self.encoding(),
            r matches Err(e) ==> e is Io && appended_prefix(old(stream).out(), final(stream).out(), self.encoding()),
            final(stream).infallible() == old(stream).infallible(),
            old(stream).infallible() ==> r is Ok,
            self.encoding().len() == 0 ==> r is Ok,
    ;

    /// Appends the operation's bytes to a growable buffer, returning
    /// the number of bytes written.  Unbounded append-only storage
    /// cannot reject a write, so this realization never fails.
    fn write_to_vec(&self, out: &mut Vec<u8>) -> (k: usize)
        ensures
            k == self.encoding().len(),
            final(out)@ == old(out)@ + self.encoding(),
    ;

    /// Writes the operation's bytes into the region `out[at ..]`,
    /// returning the number of bytes written.
    ///
    /// The write is all-or-nothing: if fewer than the operation's byte
    /// count remains after `at`, the region is left untouched and
    /// [`Error::OutputBufferTooSmall`] reports the minimum size that
    /// would have been required.  Bytes before `at` and after the
    /// written span are never touched.
    fn write_at(&self, out: &mut Vec<u8>, at: usize) -> (r: Result<usize, Error>)
        ensures
            final(out)@.len() == old(out)@.len(),
            r matches Ok(k) ==> k == self.encoding().len() && at + k <= old(out)@.len() && final(out)@ == old(out)@.take(at as int) + self.encoding() + old(out)@.skip(at + self.encoding().len()),
            r matches Err(e) ==> e matches Error::OutputBufferTooSmall(m) && m == self.encoding().len() && at + self.encoding().len() > old(out)@.len() && final(out)@ == old(out)@,
    ;

    /// Writes the operation to the front of a buffer, returning the
    /// number of bytes written.
    ///
    /// # Errors
    ///
    /// [`Error::OutputBufferTooSmall`]: the provided output buffer is
    /// too small to contain the result of the operation; it is then
    /// left untouched.
    fn write_to(&self, out: &mut Vec<u8>) -> (r: Result<usize, Error>)
        ensures
            final(out)@.len() == old(out)@.len(),
            r matches Ok(k) ==> k == self.encoding().len() && k <= old(out)@.len() && final(out)@
                == self.encoding() + old(out)@.skip(self.encoding().len() as int),
            r matches Err(e) ==> e matches Error::OutputBufferTooSmall(m) && m
                == self.encoding().len() && self.encoding().len() > old(out)@.len() && final(out)@
                == old(out)@,
    {
        let ghost pre = out@;
        let r = self.write_at(out, 0);
        proof {
            if r is Ok {
                assert(pre.take(0) =~= Seq::<u8>::empty());
                assert(out@ =~= self.encoding() + pre.skip(self.encoding().len() as int));
            }
        }
        r
    }
}

/// A destination that accepts sequential byte writes and reports
/// success or failure per write.
///
/// The growable engine's internal storage ([`Vec<u8>`]) satisfies this
/// contract trivially and can never fail; callers may supply their own
/// sinks (for instance around an output stream) for the streaming engine.
pub trait Sink {
    /// The bytes the sink has accepted so far, in order.
    spec fn out(&self) -> Seq<u8>;

    /// Whether this sink accepts every write.  An unbounded in-memory
    /// buffer does; a stream that can be closed under the writer does
    /// not.  Writes never change it.
    spec fn infallible(&self) -> bool;

    /// Accepts one byte.  On failure the sink reports an I/O error and
    /// has accepted nothing; an infallible sink never fails.
    fn put(&mut self, byte: u8) -> (r: Result<(), Error>)
        ensures
            r is Ok ==> final(self).out() == old(self).out().push(byte),
            r matches Err(e) ==> e is Io && final(self).out() == old(self).out(),
            final(self).infallible() == old(self).infallible(),
            old(self).infallible() ==> r is Ok,
    ;
}

impl Sink for Vec<u8> {
    open spec fn out(&self) -> Seq<u8> {
        self@
    }

    open spec fn infallible(&self) -> bool {
        true
    }

    fn put(&mut self, byte: u8) -> (r: Result<(), Error>)
        ensures
            r is Ok,
    {
        self.push(byte);
        Ok(())
    }
}

/// The concatenation of a sequence of encodings, in call order.
///
/// This is the model of a whole run of an engine: each successful
/// [`Shellcoder::add`] extends [`Shellcoder::out`] by exactly the
/// operation's encoding, so after adding operations with encodings
/// `encs`, in that order, to a fresh engine, the accumulated bytes are
/// `concat_in_order(encs)` -- byte for byte, with no gaps and no
/// reordering ([`lemma_concat_in_order_snoc`] supplies the inductive
/// step).
pub open spec fn concat_in_order(encs: Seq<Seq<u8>>) -> Seq<u8>
    decreases encs.len(),
{
    if encs.len() == 0 {
        Seq::empty()
    } else {
        concat_in_order(encs.drop_last()) + encs.last()
    }
}

/// The total declared byte count of a sequence of encodings.
pub open spec fn total_len(encs: Seq<Seq<u8>>) -> nat
    decreases encs.len(),
{
    if encs.len() == 0 {
        0
    } else {
        (total_len(encs.drop_last()) + encs.last().len()) as nat
    }
}

/// One more operation extends the concatenation by exactly its
/// encoding: together with the `ensures` of [`Shellcoder::add`], the
/// final accumulated bytes of a run equal the concatenation of each
/// operation's encoding in call order.
pub proof fn lemma_concat_in_order_snoc(encs: Seq<Seq<u8>>, enc: Seq<u8>)
    ensures
        concat_in_order(encs.push(enc)) == concat_in_order(encs) + enc,
        total_len(encs.push(enc)) == total_len(encs) + enc.len(),
{
    assert(encs.push(enc).drop_last() =~= encs);
    assert(encs.push(enc).last() == enc);
}

/// The concatenation is exactly as long as the total declared byte
/// count.
pub proof fn lemma_concat_in_order_len(encs: Seq<Seq<u8>>)
    ensures
        concat_in_order(encs).len() == total_len(encs),
    decreases encs.len(),
{
    if encs.len() > 0 {
        lemma_concat_in_order_len(encs.drop_last());
    }
}

/// In a run whose total declared byte count fits the target capacity,
/// every intermediate cursor fits it too.  With the exact success
/// condition of the fixed engine's `add` (it succeeds if and only if
/// the operation's byte count fits the remaining region) this is why
/// such a run never fails.
pub proof fn lemma_total_len_prefix(encs: Seq<Seq<u8>>, i: int)
    requires
        0 <= i <= encs.len(),
    ensures
        total_len(encs.take(i)) <= total_len(encs),
    decreases encs.len() - i,
{
    if i < encs.len() {
        assert(encs.take(i + 1).drop_last() =~= encs.take(i));
        assert(encs.take(i + 1).last() == encs[i]);
        lemma_total_len_prefix(encs, i + 1);
    } else {
        assert(encs.take(i) =~= encs);
    }
}

/// Generic interface for shellcoders.
///
/// An engine accumulates the bytes of the operations it is handed, in
/// call order, into its output target.  The model of the accumulated
/// (or committed) bytes is [`out`](Shellcoder::out); every successful
/// [`add`](Shellcoder::add) extends it by exactly the operation's
/// encoding, and a failed one by some prefix of it (most engines leave
/// it untouched on failure; see each implementation).
pub trait Shellcoder {
    /// Well-formedness of the engine's bookkeeping.  Constructors
    /// establish it and every method preserves it.
    spec fn wf(&self) -> bool;

    /// The bytes the engine has accumulated so far.
    spec fn out(&self) -> Seq<u8>;

    /// Pushes an operation, and returns the number of bytes that have
    /// been written.
    ///
    /// # Errors
    ///
    ///  - [`Error::OutputBufferTooSmall`]: the output target is too
    ///    small to contain the result of the operation.
    ///  - [`Error::Io`]: an I/O error occurred.
    fn add<O: Op>(&mut self, op: &O) -> (r: Result<usize, Error>)
        requires
            old(self).wf(),
        ensures
            final(self).wf(),
            r matches Ok(k) ==> k == op.encoding().len() && final(self).out() == old(self).out() + op.encoding(),
            r matches Err(e) ==> appended_prefix(old(self).out(), final(self).out(), op.encoding()),
    ;

    /// Advances the cursor by n bytes, filling gaps with zeroes.
    ///
    /// # Errors
    ///
    /// As for [`add`](Shellcoder::add).
    fn advance(&mut self, n: usize) -> (r: Result<usize, Error>)
        requires
            old(self).wf(),
        ensures
            final(self).wf(),
            r matches Ok(k) ==> k == n && final(self).out() == old(self).out() + crate::ops::repeated(0u8, n as nat),
            r matches Err(e) ==> appended_prefix(old(self).out(), final(self).out(), crate::ops::repeated(0u8, n as nat)),
    {
        self.add(&crate::ops::Advance::new(n))
    }

    /// Fills with a certain number of bytes.
    ///
    /// # Errors
    ///
    /// As for [`add`](Shellcoder::add).
    fn fill(&mut self, len: usize, chr: u8) -> (r: Result<usize, Error>)
        requires
            old(self).wf(),
        ensures
            final(self).wf(),
            r matches Ok(k) ==> k == len && final(self).out() == old(self).out() + crate::ops::repeated(chr, len as nat),
            r matches Err(e) ==> appended_prefix(old(self).out(), final(self).out(), crate::ops::repeated(chr, len as nat)),
    {
        self.add(&crate::ops::Fill::new(len, chr))
    }

    /// Pushes an integer in big endian.
    ///
    /// # Errors
    ///
    /// As for [`add`](Shellcoder::add).
    fn int_be<I: crate::ops::EncodableInteger>(&mut self, i: I) -> (r: Result<usize, Error>)
        requires
            old(self).wf(),
        ensures
            final(self).wf(),
            r matches Ok(k) ==> k == i.be_seq().len() && final(self).out() == old(self).out() + i.be_seq(),
            r matches Err(e) ==> appended_prefix(old(self).out(), final(self).out(), i.be_seq()),
    {
        self.add(&crate::ops::WriteInteger::<I>::new_be(i))
    }

    /// Pushes an integer in little endian.
    ///
    /// # Errors
    ///
    /// As for [`add`](Shellcoder::add).
    fn int_le<I: crate::ops::EncodableInteger>(&mut self, i: I) -> (r: Result<usize, Error>)
        requires
            old(self).wf(),
        ensures
            final(self).wf(),
            r matches Ok(k) ==> k == i.le_seq().len() && final(self).out() == old(self).out() + i.le_seq(),
            r matches Err(e) ==> appended_prefix(old(self).out(), final(self).out(), i.le_seq()),
    {
        self.add(&crate::ops::WriteInteger::<I>::new_le(i))
    }

    /// Pushes a buffer.
    ///
    /// # Errors
    ///
    /// As for [`add`](Shellcoder::add).
    fn push_buffer(&mut self, buffer: &[u8]) -> (r: Result<usize, Error>)
        requires
            old(self).wf(),
        ensures
            final(self).wf(),
            r matches Ok(k) ==> k == buffer@.len() && final(self).out() == old(self).out() + buffer@,
            r matches Err(e) ==> appended_prefix(old(self).out(), final(self).out(), buffer@),
    {
        self.add(&crate::ops::WriteBuffer::new(buffer))
    }
}

} // verus!
