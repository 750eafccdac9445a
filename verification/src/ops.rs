//! All operations available for building payloads.

use vstd::prelude::*;

use crate::appended_prefix;
use crate::codec;
use crate::error::Error;
use crate::Op;
use crate::Sink;

verus! {

/// Marker bound shared by every encodable integer type.
pub trait WithOrWithoutSerde {

}

impl<T> WithOrWithoutSerde for T {

}

/// `n` copies of `byte`.
pub open spec fn repeated(byte: u8, n: nat) -> Seq<u8> {
    Seq::new(n, |i: int| byte)
}

/// An operation that moves the cursor ahead by n bytes.
/// The gap will be filled by zeroes.
#[derive(Clone, Copy, Debug, PartialEq, Eq, PartialOrd, Ord)]
pub struct Advance(usize);

impl Advance {
    /// Instantiates a new [`Advance`] to move the cursor ahead by n bytes.
    pub fn new(n: usize) -> (r: Self)
        ensures
            r.encoding() == repeated(0u8, n as nat),
    {
        Advance(n)
    }
}

impl Op for Advance {
    closed spec fn encoding(&self) -> Seq<u8> {
        repeated(0u8, self.0 as nat)
    }

    fn write_to_io<S: Sink>(&self, stream: &mut S) -> (r: Result<usize, Error>) {
        let f = Fill::new(self.0, 0);
        let r = f.write_to_io(stream);
        proof {
            assert(f.encoding() == self.encoding());
        }
        r
    }

    fn write_to_vec(&self, out: &mut Vec<u8>) -> (k: usize) {
        Fill::new(self.0, 0).write_to_vec(out)
    }

    fn write_at(&self, out: &mut Vec<u8>, at: usize) -> (r: Result<usize, Error>) {
        Fill::new(self.0, 0).write_at(out, at)
    }
}

/// An operation that fills with a value.
#[derive(Clone, Copy, Debug, PartialEq, Eq)]
pub struct Fill(usize, u8);

impl Fill {
    /// Instantiates a new [`Fill`].
    pub fn new(len: usize, chr: u8) -> (r: Self)
        ensures
            r.encoding() == repeated(chr, len as nat),
    {
        Fill(len, chr)
    }
}

impl Op for Fill {
    closed spec fn encoding(&self) -> Seq<u8> {
        repeated(self.1, self.0 as nat)
    }

    fn write_to_io<S: Sink>(&self, stream: &mut S) -> (r: Result<usize, Error>) {
        let ghost pre = stream.out();
        let n = self.0;
        let b = self.1;
        let mut i: usize = 0;
        while i < n
            invariant
                i <= n,
                n == self.0,
                b == self.1,
                pre == old(stream).out(),
                stream.out() == pre + self.encoding().take(i as int),
                stream.infallible() == old(stream).infallible(),
            decreases n - i,
        {
            match stream.put(b) {
                Ok(_) => {
                    proof {
                        assert(self.encoding().take(i + 1) =~= self.encoding().take(
                            i as int,
                        ).push(b));
                        assert(stream.out() =~= pre + self.encoding().take(i + 1));
                    }
                },
                Err(e) => {
                    proof {
                        assert(stream.out() == old(stream).out() + self.encoding().take(i as int));
                        assert(appended_prefix(old(stream).out(), stream.out(), self.encoding()));
                    }
                    return Err(e);
                },
            }
            i += 1;
        }
        proof {
            assert(self.encoding().take(n as int) =~= self.encoding());
        }
        Ok(n)
    }

    fn write_to_vec(&self, out: &mut Vec<u8>) -> (k: usize) {
        let ghost pre = out@;
        let n = self.0;
        let b = self.1;
        let mut i: usize = 0;
        while i < n
            invariant
                i <= n,
                n == self.0,
                b == self.1,
                out@ == pre + self.encoding().take(i as int),
            decreases n - i,
        {
            out.push(b);
            proof {
                assert(out@ =~= pre + self.encoding().take(i + 1));
            }
            i += 1;
        }
        proof {
            assert(self.encoding().take(n as int) =~= self.encoding());
        }
        n
    }

    fn write_at(&self, out: &mut Vec<u8>, at: usize) -> (r: Result<usize, Error>) {
        let n = self.0;
        let b = self.1;
        let len: usize = out.len();
        if at > len || n > len - at {
            return Err(Error::buffer_too_small(n));
        }
        let ghost pre = out@;
        assert(out@ =~= pre.take(at as int) + self.encoding().take(0) + pre.skip(at as int));
        let mut i: usize = 0;
        while i < n
            invariant
                i <= n,
                n == self.0,
                b == self.1,
                at + n <= len,
                len == pre.len(),
                out@.len() == pre.len(),
                out@ == pre.take(at as int) + self.encoding().take(i as int) + pre.skip(at + i),
            decreases n - i,
        {
            out.set(at + i, b);
            proof {
                assert(out@ =~= pre.take(at as int) + self.encoding().take(i + 1) + pre.skip(
                    at + i + 1,
                ));
            }
            i += 1;
        }
        proof {
            assert(self.encoding().take(n as int) =~= self.encoding());
        }
        Ok(n)
    }
}

/// An integer that is encodable.
///
/// An encodable integer has a fixed-width big-endian and little-endian
/// byte encoding ([`be_seq`](EncodableInteger::be_seq) and
/// [`le_seq`](EncodableInteger::le_seq)), and knows how to realize
/// either encoding against a streaming sink or a byte region.
pub trait EncodableInteger: Copy + WithOrWithoutSerde {
    /// The big-endian encoding of the integer.
    spec fn be_seq(self) -> Seq<u8>;

    /// The little-endian encoding of the integer.
    spec fn le_seq(self) -> Seq<u8>;

    /// Returns the number of bytes needed to encode the integer.
    fn n(self) -> (r: usize)
        ensures
            r == self.be_seq().len(),
            r == self.le_seq().len(),
    ;

    /// Writes in big endian to a stream.
    ///
    /// # Errors
    ///
    /// An I/O error may be raised here; only a prefix of the encoding
    /// has then been accepted by the sink.
    fn write_be_io<S: Sink>(self, stream: &mut S) -> (r: Result<(), Error>)
        ensures
            r is Ok ==> final(stream).out() == old(stream).out() + self.be_seq(),
            r matches Err(e) ==> e is Io && appended_prefix(old(stream).out(), final(stream).out(), self.be_seq()),
            final(stream).infallible() == old(stream).infallible(),
            old(stream).infallible() ==> r is Ok,
            self.be_seq().len() == 0 ==> r is Ok,
    ;

    /// Writes in little endian to a stream.
    ///
    /// # Errors
    ///
    /// An I/O error may be raised here; only a prefix of the encoding
    /// has then been accepted by the sink.
    fn write_le_io<S: Sink>(self, stream: &mut S) -> (r: Result<(), Error>)
        ensures
            r is Ok ==> final(stream).out() == old(stream).out() + self.le_seq(),
            r matches Err(e) ==> e is Io && appended_prefix(old(stream).out(), final(stream).out(), self.le_seq()),
            final(stream).infallible() == old(stream).infallible(),
            old(stream).infallible() ==> r is Ok,
            self.le_seq().len() == 0 ==> r is Ok,
    ;

    /// Appends the big-endian encoding to a growable buffer; this
    /// cannot fail.
    fn push_be(self, out: &mut Vec<u8>) -> (k: usize)
        ensures
            k == self.be_seq().len(),
            final(out)@ == old(out)@ + self.be_seq(),
    ;

    /// Appends the little-endian encoding to a growable buffer; this
    /// cannot fail.
    fn push_le(self, out: &mut Vec<u8>) -> (k: usize)
        ensures
            k == self.le_seq().len(),
            final(out)@ == old(out)@ + self.le_seq(),
    ;

    /// Writes in big endian into the region `out[at ..]`, all or
    /// nothing.
    fn write_be_at(self, out: &mut Vec<u8>, at: usize) -> (r: Result<(), Error>)
        ensures
            final(out)@.len() == old(out)@.len(),
            r is Ok ==> at + self.be_seq().len() <= old(out)@.len() && final(out)@ == old(out)@.take(at as int) + self.be_seq() + old(out)@.skip(at + self.be_seq().len()),
            r matches Err(e) ==> e matches Error::OutputBufferTooSmall(m) && m == self.be_seq().len() && at + self.be_seq().len() > old(out)@.len() && final(out)@ == old(out)@,
    ;

    /// Writes in little endian into the region `out[at ..]`, all or
    /// nothing.
    fn write_le_at(self, out: &mut Vec<u8>, at: usize) -> (r: Result<(), Error>)
        ensures
            final(out)@.len() == old(out)@.len(),
            r is Ok ==> at + self.le_seq().len() <= old(out)@.len() && final(out)@ == old(out)@.take(at as int) + self.le_seq() + old(out)@.skip(at + self.le_seq().len()),
            r matches Err(e) ==> e matches Error::OutputBufferTooSmall(m) && m == self.le_seq().len() && at + self.le_seq().len() > old(out)@.len() && final(out)@ == old(out)@,
    ;

    /// Writes in big endian to the front of a buffer.
    ///
    /// # Errors
    ///
    /// [`Error::OutputBufferTooSmall`] is raised if `out` cannot
    /// contain the encoded integer; it is then left untouched.
    fn write_be(self, out: &mut Vec<u8>) -> (r: Result<(), Error>)
        ensures
            final(out)@.len() == old(out)@.len(),
            r is Ok ==> self.be_seq().len() <= old(out)@.len() && final(out)@ == self.be_seq() + old(out)@.skip(self.be_seq().len() as int),
            r matches Err(e) ==> e matches Error::OutputBufferTooSmall(m) && m == self.be_seq().len() && self.be_seq().len() > old(out)@.len() && final(out)@ == old(out)@,
    {
        let ghost pre = out@;
        let r = self.write_be_at(out, 0);
        proof {
            if r is Ok {
                assert(pre.take(0) =~= Seq::<u8>::empty());
                assert(out@ =~= self.be_seq() + pre.skip(self.be_seq().len() as int));
            }
        }
        r
    }

    /// Writes in little endian to the front of a buffer.
    ///
    /// # Errors
    ///
    /// [`Error::OutputBufferTooSmall`] is raised if `out` cannot
    /// contain the encoded integer; it is then left untouched.
    fn write_le(self, out: &mut Vec<u8>) -> (r: Result<(), Error>)
        ensures
            final(out)@.len() == old(out)@.len(),
            r is Ok ==> self.le_seq().len() <= old(out)@.len() && final(out)@ == self.le_seq() + old(out)@.skip(self.le_seq().len() as int),
            r matches Err(e) ==> e matches Error::OutputBufferTooSmall(m) && m == self.le_seq().len() && self.le_seq().len() > old(out)@.len() && final(out)@ == old(out)@,
    {
        let ghost pre = out@;
        let r = self.write_le_at(out, 0);
        proof {
            if r is Ok {
                assert(pre.take(0) =~= Seq::<u8>::empty());
                assert(out@ =~= self.le_seq() + pre.skip(self.le_seq().len() as int));
            }
        }
        r
    }
}

/// An operation that writes an integer.
/// The cursor will be moved ahead by n bytes, n depending on the
/// integer's encoded size.
#[derive(Clone, Copy, Debug, PartialEq, Eq)]
#[non_exhaustive]
pub enum WriteInteger<I> where I: EncodableInteger {
    /// The integer's value, to encode in big-endian.
    BigEndian(I),
    /// The integer's value, to encode in little-endian.
    LittleEndian(I),
}

impl<I> WriteInteger<I> where I: EncodableInteger {
    /// Instantiates a new [`WriteInteger`] to write a big-endian encoded integer.
    pub fn new_be(value: I) -> (r: Self)
        ensures
            r == WriteInteger::<I>::BigEndian(value),
            r.encoding() == value.be_seq(),
    {
        WriteInteger::BigEndian(value)
    }

    /// Instantiates a new [`WriteInteger`] to write a little-endian encoded integer.
    pub fn new_le(value: I) -> (r: Self)
        ensures
            r == WriteInteger::<I>::LittleEndian(value),
            r.encoding() == value.le_seq(),
    {
        WriteInteger::LittleEndian(value)
    }
}

impl<I> Op for WriteInteger<I> where I: EncodableInteger {
    open spec fn encoding(&self) -> Seq<u8> {
        match *self {
            WriteInteger::BigEndian(x) => x.be_seq(),
            WriteInteger::LittleEndian(x) => x.le_seq(),
        }
    }

    fn write_to_io<S: Sink>(&self, stream: &mut S) -> (r: Result<usize, Error>) {
        match *self {
            WriteInteger::BigEndian(x) => match x.write_be_io(stream) {
                Ok(_) => Ok(x.n()),
                Err(e) => Err(e),
            },
            WriteInteger::LittleEndian(x) => match x.write_le_io(stream) {
                Ok(_) => Ok(x.n()),
                Err(e) => Err(e),
            },
        }
    }

    fn write_to_vec(&self, out: &mut Vec<u8>) -> (k: usize) {
        match *self {
            WriteInteger::BigEndian(x) => x.push_be(out),
            WriteInteger::LittleEndian(x) => x.push_le(out),
        }
    }

    fn write_at(&self, out: &mut Vec<u8>, at: usize) -> (r: Result<usize, Error>) {
        match *self {
            WriteInteger::BigEndian(x) => match x.write_be_at(out, at) {
                Ok(_) => Ok(x.n()),
                Err(e) => Err(e),
            },
            WriteInteger::LittleEndian(x) => match x.write_le_at(out, at) {
                Ok(_) => Ok(x.n()),
                Err(e) => Err(e),
            },
        }
    }
}

/// An operation that writes a buffer.
/// The cursor will be moved ahead by the length in bytes of the given
/// buffer.
#[derive(Clone, Copy, Debug, PartialEq, Eq)]
pub struct WriteBuffer<'buf>(&'buf [u8]);

impl<'buf> WriteBuffer<'buf> {
    /// Instantiates a new [`WriteBuffer`].
    ///
    /// The bytes are copied at realization time, never moved: the
    /// source buffer's lifetime is independent of the operation's.
    pub fn new(buffer: &'buf [u8]) -> (r: Self)
        ensures
            r.encoding() == buffer@,
    {
        WriteBuffer(buffer)
    }
}

impl Op for WriteBuffer<'_> {
    closed spec fn encoding(&self) -> Seq<u8> {
        self.0@
    }

    fn write_to_io<S: Sink>(&self, stream: &mut S) -> (r: Result<usize, Error>) {
        let ghost pre = stream.out();
        let n = self.0.len();
        let mut i: usize = 0;
        while i < n
            invariant
                i <= n,
                n == self.0@.len(),
                pre == old(stream).out(),
                stream.out() == pre + self.0@.take(i as int),
                stream.infallible() == old(stream).infallible(),
            decreases n - i,
        {
            match stream.put(self.0[i]) {
                Ok(_) => {
                    proof {
                        assert(self.0@.take(i + 1) =~= self.0@.take(i as int).push(self.0@[
                            i as int
                        ]));
                        assert(stream.out() =~= pre + self.0@.take(i + 1));
                    }
                },
                Err(e) => {
                    proof {
                        assert(stream.out() == old(stream).out() + self.encoding().take(i as int));
                        assert(appended_prefix(old(stream).out(), stream.out(), self.encoding()));
                    }
                    return Err(e);
                },
            }
            i += 1;
        }
        proof {
            assert(self.encoding().take(n as int) =~= self.encoding());
        }
        Ok(n)
    }

    fn write_to_vec(&self, out: &mut Vec<u8>) -> (k: usize) {
        let ghost pre = out@;
        let n = self.0.len();
        let mut i: usize = 0;
        while i < n
            invariant
                i <= n,
                n == self.0@.len(),
                out@ == pre + self.0@.take(i as int),
            decreases n - i,
        {
            out.push(self.0[i]);
            proof {
                assert(out@ =~= pre + self.0@.take(i + 1));
            }
            i += 1;
        }
        proof {
            assert(self.encoding().take(n as int) =~= self.encoding());
        }
        n
    }

    fn write_at(&self, out: &mut Vec<u8>, at: usize) -> (r: Result<usize, Error>) {
        let n = self.0.len();
        let len: usize = out.len();
        if at > len || n > len - at {
            return Err(Error::buffer_too_small(n));
        }
        let ghost pre = out@;
        assert(out@ =~= pre.take(at as int) + self.encoding().take(0) + pre.skip(at as int));
        let mut i: usize = 0;
        while i < n
            invariant
                i <= n,
                n == self.0@.len(),
                at + n <= len,
                len == pre.len(),
                out@.len() == pre.len(),
                out@ == pre.take(at as int) + self.0@.take(i as int) + pre.skip(at + i),
            decreases n - i,
        {
            out.set(at + i, self.0[i]);
            proof {
                assert(out@ =~= pre.take(at as int) + self.0@.take(i + 1) + pre.skip(at + i + 1));
            }
            i += 1;
        }
        proof {
            assert(self.encoding().take(n as int) =~= self.encoding());
        }
        Ok(n)
    }
}

impl EncodableInteger for u8 {
    open spec fn be_seq(self) -> Seq<u8> {
        codec::be_bytes(self as int, 1)
    }

    open spec fn le_seq(self) -> Seq<u8> {
        codec::le_bytes(self as int, 1)
    }

    fn n(self) -> (r: usize) {
        proof {
            codec::lemma_be_bytes_len(self as int, 1);
            codec::lemma_le_bytes_len(self as int, 1);
        }
        1
    }

    fn write_be_io<S: Sink>(self, stream: &mut S) -> (r: Result<(), Error>) {
        proof {
            codec::lemma_be_bytes_len(self as int, 1);
        }
        match codec::put_be(stream, self as u64, 1) {
            Ok(_) => Ok(()),
            Err(e) => Err(e),
        }
    }

    fn write_le_io<S: Sink>(self, stream: &mut S) -> (r: Result<(), Error>) {
        proof {
            codec::lemma_le_bytes_len(self as int, 1);
        }
        match codec::put_le(stream, self as u64, 1) {
            Ok(_) => Ok(()),
            Err(e) => Err(e),
        }
    }

    fn push_be(self, out: &mut Vec<u8>) -> (k: usize) {
        proof {
            codec::lemma_be_bytes_len(self as int, 1);
        }
        codec::push_be(out, self as u64, 1)
    }

    fn push_le(self, out: &mut Vec<u8>) -> (k: usize) {
        proof {
            codec::lemma_le_bytes_len(self as int, 1);
        }
        codec::push_le(out, self as u64, 1)
    }

    fn write_be_at(self, out: &mut Vec<u8>, at: usize) -> (r: Result<(), Error>) {
        proof {
            codec::lemma_be_bytes_len(self as int, 1);
        }
        let len: usize = out.len();
        if at > len || 1 > len - at {
            return Err(Error::buffer_too_small(1));
        }
        codec::set_be(out, at, self as u64, 1);
        Ok(())
    }

    fn write_le_at(self, out: &mut Vec<u8>, at: usize) -> (r: Result<(), Error>) {
        proof {
            codec::lemma_le_bytes_len(self as int, 1);
        }
        let len: usize = out.len();
        if at > len || 1 > len - at {
            return Err(Error::buffer_too_small(1));
        }
        codec::set_le(out, at, self as u64, 1);
        Ok(())
    }
}

impl EncodableInteger for u16 {
    open spec fn be_seq(self) -> Seq<u8> {
        codec::be_bytes(self as int, 2)
    }

    open spec fn le_seq(self) -> Seq<u8> {
        codec::le_bytes(self as int, 2)
    }

    fn n(self) -> (r: usize) {
        proof {
            codec::lemma_be_bytes_len(self as int, 2);
            codec::lemma_le_bytes_len(self as int, 2);
        }
        2
    }

    fn write_be_io<S: Sink>(self, stream: &mut S) -> (r: Result<(), Error>) {
        proof {
            codec::lemma_be_bytes_len(self as int, 2);
        }
        match codec::put_be(stream, self as u64, 2) {
            Ok(_) => Ok(()),
            Err(e) => Err(e),
        }
    }

    fn write_le_io<S: Sink>(self, stream: &mut S) -> (r: Result<(), Error>) {
        proof {
            codec::lemma_le_bytes_len(self as int, 2);
        }
        match codec::put_le(stream, self as u64, 2) {
            Ok(_) => Ok(()),
            Err(e) => Err(e),
        }
    }

    fn push_be(self, out: &mut Vec<u8>) -> (k: usize) {
        proof {
            codec::lemma_be_bytes_len(self as int, 2);
        }
        codec::push_be(out, self as u64, 2)
    }

    fn push_le(self, out: &mut Vec<u8>) -> (k: usize) {
        proof {
            codec::lemma_le_bytes_len(self as int, 2);
        }
        codec::push_le(out, self as u64, 2)
    }

    fn write_be_at(self, out: &mut Vec<u8>, at: usize) -> (r: Result<(), Error>) {
        proof {
            codec::lemma_be_bytes_len(self as int, 2);
        }
        let len: usize = out.len();
        if at > len || 2 > len - at {
            return Err(Error::buffer_too_small(2));
        }
        codec::set_be(out, at, self as u64, 2);
        Ok(())
    }

    fn write_le_at(self, out: &mut Vec<u8>, at: usize) -> (r: Result<(), Error>) {
        proof {
            codec::lemma_le_bytes_len(self as int, 2);
        }
        let len: usize = out.len();
        if at > len || 2 > len - at {
            return Err(Error::buffer_too_small(2));
        }
        codec::set_le(out, at, self as u64, 2);
        Ok(())
    }
}

impl EncodableInteger for u32 {
    open spec fn be_seq(self) -> Seq<u8> {
        codec::be_bytes(self as int, 4)
    }

    open spec fn le_seq(self) -> Seq<u8> {
        codec::le_bytes(self as int, 4)
    }

    fn n(self) -> (r: usize) {
        proof {
            codec::lemma_be_bytes_len(self as int, 4);
            codec::lemma_le_bytes_len(self as int, 4);
        }
        4
    }

    fn write_be_io<S: Sink>(self, stream: &mut S) -> (r: Result<(), Error>) {
        proof {
            codec::lemma_be_bytes_len(self as int, 4);
        }
        match codec::put_be(stream, self as u64, 4) {
            Ok(_) => Ok(()),
            Err(e) => Err(e),
        }
    }

    fn write_le_io<S: Sink>(self, stream: &mut S) -> (r: Result<(), Error>) {
        proof {
            codec::lemma_le_bytes_len(self as int, 4);
        }
        match codec::put_le(stream, self as u64, 4) {
            Ok(_) => Ok(()),
            Err(e) => Err(e),
        }
    }

    fn push_be(self, out: &mut Vec<u8>) -> (k: usize) {
        proof {
            codec::lemma_be_bytes_len(self as int, 4);
        }
        codec::push_be(out, self as u64, 4)
    }

    fn push_le(self, out: &mut Vec<u8>) -> (k: usize) {
        proof {
            codec::lemma_le_bytes_len(self as int, 4);
        }
        codec::push_le(out, self as u64, 4)
    }

    fn write_be_at(self, out: &mut Vec<u8>, at: usize) -> (r: Result<(), Error>) {
        proof {
            codec::lemma_be_bytes_len(self as int, 4);
        }
        let len: usize = out.len();
        if at > len || 4 > len - at {
            return Err(Error::buffer_too_small(4));
        }
        codec::set_be(out, at, self as u64, 4);
        Ok(())
    }

    fn write_le_at(self, out: &mut Vec<u8>, at: usize) -> (r: Result<(), Error>) {
        proof {
            codec::lemma_le_bytes_len(self as int, 4);
        }
        let len: usize = out.len();
        if at > len || 4 > len - at {
            return Err(Error::buffer_too_small(4));
        }
        codec::set_le(out, at, self as u64, 4);
        Ok(())
    }
}

impl EncodableInteger for u64 {
    open spec fn be_seq(self) -> Seq<u8> {
        codec::be_bytes(self as int, 8)
    }

    open spec fn le_seq(self) -> Seq<u8> {
        codec::le_bytes(self as int, 8)
    }

    fn n(self) -> (r: usize) {
        proof {
            codec::lemma_be_bytes_len(self as int, 8);
            codec::lemma_le_bytes_len(self as int, 8);
        }
        8
    }

    fn write_be_io<S: Sink>(self, stream: &mut S) -> (r: Result<(), Error>) {
        proof {
            codec::lemma_be_bytes_len(self as int, 8);
        }
        match codec::put_be(stream, self, 8) {
            Ok(_) => Ok(()),
            Err(e) => Err(e),
        }
    }

    fn write_le_io<S: Sink>(self, stream: &mut S) -> (r: Result<(), Error>) {
        proof {
            codec::lemma_le_bytes_len(self as int, 8);
        }
        match codec::put_le(stream, self, 8) {
            Ok(_) => Ok(()),
            Err(e) => Err(e),
        }
    }

    fn push_be(self, out: &mut Vec<u8>) -> (k: usize) {
        proof {
            codec::lemma_be_bytes_len(self as int, 8);
        }
        codec::push_be(out, self, 8)
    }

    fn push_le(self, out: &mut Vec<u8>) -> (k: usize) {
        proof {
            codec::lemma_le_bytes_len(self as int, 8);
        }
        codec::push_le(out, self, 8)
    }

    fn write_be_at(self, out: &mut Vec<u8>, at: usize) -> (r: Result<(), Error>) {
        proof {
            codec::lemma_be_bytes_len(self as int, 8);
        }
        let len: usize = out.len();
        if at > len || 8 > len - at {
            return Err(Error::buffer_too_small(8));
        }
        codec::set_be(out, at, self, 8);
        Ok(())
    }

    fn write_le_at(self, out: &mut Vec<u8>, at: usize) -> (r: Result<(), Error>) {
        proof {
            codec::lemma_le_bytes_len(self as int, 8);
        }
        let len: usize = out.len();
        if at > len || 8 > len - at {
            return Err(Error::buffer_too_small(8));
        }
        codec::set_le(out, at, self, 8);
        Ok(())
    }
}


/// Round trip: re-interpreting the big-endian encoding of an integer
/// as a big-endian unsigned integer reproduces the value.
pub proof fn lemma_be_round_trip_u8(v: u8)
    ensures
        codec::be_to_int(v.be_seq()) == v as int,
{
    codec::lemma_pow_256_widths();
    codec::lemma_be_round_trip(v as int, 1);
}

/// Round trip: re-interpreting the big-endian encoding of an integer
/// as a big-endian unsigned integer reproduces the value.
pub proof fn lemma_be_round_trip_u16(v: u16)
    ensures
        codec::be_to_int(v.be_seq()) == v as int,
{
    codec::lemma_pow_256_widths();
    codec::lemma_be_round_trip(v as int, 2);
}

/// Round trip: re-interpreting the big-endian encoding of an integer
/// as a big-endian unsigned integer reproduces the value.
pub proof fn lemma_be_round_trip_u32(v: u32)
    ensures
        codec::be_to_int(v.be_seq()) == v as int,
{
    codec::lemma_pow_256_widths();
    codec::lemma_be_round_trip(v as int, 4);
}

/// Round trip: re-interpreting the big-endian encoding of an integer
/// as a big-endian unsigned integer reproduces the value.
pub proof fn lemma_be_round_trip_u64(v: u64)
    ensures
        codec::be_to_int(v.be_seq()) == v as int,
{
    codec::lemma_pow_256_widths();
    codec::lemma_be_round_trip(v as int, 8);
}

} // verus!

