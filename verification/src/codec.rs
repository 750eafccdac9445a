//! Fixed-width, endianness-aware integer encoding.
//!
//! The encodings are defined by the spec functions [`le_bytes`] and
//! [`be_bytes`]: the byte string of a non-negative value, truncated to
//! exactly `n` bytes (values are treated as unsigned bit patterns, no
//! sign extension).  [`be_to_int`] interprets a byte string back as a
//! big-endian unsigned integer.

use vstd::prelude::*;

use vstd::arithmetic::div_mod::{lemma_mod_breakdown, lemma_small_mod};
use vstd::arithmetic::power::{lemma_pow0, lemma_pow1, lemma_pow_adds, lemma_pow_positive, pow};

use crate::appended_prefix;
use crate::error::Error;
use crate::Sink;

verus! {

/// The `n`-byte little-endian encoding of `v`: least significant byte
/// first, higher bytes dropped.
pub open spec fn le_bytes(v: int, n: nat) -> Seq<u8>
    decreases n,
{
    if n == 0 {
        Seq::empty()
    } else {
        seq![(v % 256) as u8] + le_bytes(v / 256, (n - 1) as nat)
    }
}

/// The `n`-byte big-endian encoding of `v`: most significant byte
/// first, higher bytes dropped.
pub open spec fn be_bytes(v: int, n: nat) -> Seq<u8>
    decreases n,
{
    if n == 0 {
        Seq::empty()
    } else {
        be_bytes(v / 256, (n - 1) as nat) + seq![(v % 256) as u8]
    }
}

/// The unsigned integer a byte string denotes when read in big-endian
/// order.
pub open spec fn be_to_int(s: Seq<u8>) -> int
    decreases s.len(),
{
    if s.len() == 0 {
        0
    } else {
        256 * be_to_int(s.drop_last()) + s.last()
    }
}

pub proof fn lemma_le_bytes_len(v: int, n: nat)
    ensures
        le_bytes(v, n).len() == n,
    decreases n,
{
    if n > 0 {
        lemma_le_bytes_len(v / 256, (n - 1) as nat);
    }
}

pub proof fn lemma_be_bytes_len(v: int, n: nat)
    ensures
        be_bytes(v, n).len() == n,
    decreases n,
{
    if n > 0 {
        lemma_be_bytes_len(v / 256, (n - 1) as nat);
    }
}

/// Round trip: re-interpreting the `n`-byte big-endian encoding of a
/// non-negative value as a big-endian unsigned integer reproduces the
/// value modulo `256^n`; in particular the value itself whenever it
/// fits in `n` bytes.
pub proof fn lemma_be_round_trip(v: int, n: nat)
    requires
        0 <= v,
    ensures
        0 < pow(256, n),
        be_to_int(be_bytes(v, n)) == v % pow(256, n),
        v < pow(256, n) ==> be_to_int(be_bytes(v, n)) == v,
    decreases n,
{
    lemma_pow_positive(256, n);
    if n == 0 {
        assert(be_to_int(be_bytes(v, 0)) == 0);
        lemma_pow0(256);
        assert(v % 1 == 0) by (nonlinear_arith);
    } else {
        let m = (n - 1) as nat;
        lemma_be_round_trip(v / 256, m);
        lemma_be_bytes_len(v / 256, m);
        lemma_be_bytes_len(v, n);
        let s = be_bytes(v, n);
        assert(s == be_bytes(v / 256, m) + seq![(v % 256) as u8]);
        assert(s.len() == n);
        assert(s.drop_last() =~= be_bytes(v / 256, m));
        assert(s.last() == (v % 256) as u8);
        assert(be_to_int(s) == 256 * be_to_int(be_bytes(v / 256, m)) + (v % 256));
        assert(be_to_int(s) == 256 * ((v / 256) % pow(256, m)) + (v % 256));
        lemma_mod_breakdown(v, 256, pow(256, m));
        lemma_pow1(256);
        lemma_pow_adds(256, m, 1);
        assert(pow(256, n) == 256 * pow(256, m));
        assert(v % pow(256, n) == 256 * ((v / 256) % pow(256, m)) + v % 256);
    }
    if v < pow(256, n) {
        lemma_small_mod(v as nat, pow(256, n) as nat);
    }
}

/// The powers of 256 for the supported widths.
pub proof fn lemma_pow_256_widths()
    ensures
        pow(256, 1) == 0x100,
        pow(256, 2) == 0x10000,
        pow(256, 4) == 0x1_0000_0000,
        pow(256, 8) == 0x1_0000_0000_0000_0000,
{
    lemma_pow1(256);
    lemma_pow_adds(256, 1, 1);
    assert(pow(256, 2) == 0x10000);
    lemma_pow_adds(256, 2, 2);
    assert(pow(256, 4) == pow(256, 2) * pow(256, 2));
    assert(pow(256, 4) == 0x1_0000_0000) by (nonlinear_arith)
        requires
            pow(256, 4) == pow(256, 2) * pow(256, 2),
            pow(256, 2) == 0x10000,
    ;
    lemma_pow_adds(256, 4, 4);
    assert(pow(256, 8) == pow(256, 4) * pow(256, 4));
    assert(pow(256, 8) == 0x1_0000_0000_0000_0000) by (nonlinear_arith)
        requires
            pow(256, 8) == pow(256, 4) * pow(256, 4),
            pow(256, 4) == 0x1_0000_0000,
    ;
}

/// Writes the `n`-byte little-endian encoding of `v` to a sink, least
/// significant byte first.
pub(crate) fn put_le<S: Sink>(stream: &mut S, v: u64, n: usize) -> (r: Result<usize, Error>)
    ensures
        r matches Ok(k) ==> k == n && final(stream).out() == old(stream).out()
            + le_bytes(v as int, n as nat),
        r matches Err(e) ==> e is Io && appended_prefix(
            old(stream).out(),
            final(stream).out(),
            le_bytes(v as int, n as nat),
        ),
        final(stream).infallible() == old(stream).infallible(),
        old(stream).infallible() ==> r is Ok,
    decreases n,
{
    proof {
        lemma_le_bytes_len(v as int, n as nat);
    }
    if n == 0 {
        assert(final(stream).out() =~= old(stream).out() + le_bytes(v as int, 0));
        Ok(0)
    } else {
        let ghost pre = stream.out();
        let ghost whole = le_bytes(v as int, n as nat);
        let ghost tail = le_bytes(v as int / 256, (n - 1) as nat);
        proof {
            lemma_le_bytes_len(v as int / 256, (n - 1) as nat);
            assert(whole == seq![(v % 256) as u8] + tail);
        }
        if let Err(e) = stream.put((v % 256) as u8) {
            proof {
                assert(stream.out() =~= pre + whole.take(0));
                assert(appended_prefix(pre, stream.out(), whole));
            }
            return Err(e);
        }
        let ghost mid = stream.out();
        match put_le(stream, v / 256, n - 1) {
            Ok(_) => {
                proof {
                    assert(stream.out() =~= pre + whole);
                }
                Ok(n)
            },
            Err(e) => {
                proof {
                    let j = choose|j: int|
                        0 <= j <= tail.len() && stream.out() == mid + tail.take(j);
                    assert(stream.out() =~= pre + whole.take(j + 1));
                    assert(appended_prefix(pre, stream.out(), whole));
                }
                Err(e)
            },
        }
    }
}

/// Writes the `n`-byte big-endian encoding of `v` to a sink, most
/// significant byte first.
pub(crate) fn put_be<S: Sink>(stream: &mut S, v: u64, n: usize) -> (r: Result<usize, Error>)
    ensures
        r matches Ok(k) ==> k == n && final(stream).out() == old(stream).out()
            + be_bytes(v as int, n as nat),
        r matches Err(e) ==> e is Io && appended_prefix(
            old(stream).out(),
            final(stream).out(),
            be_bytes(v as int, n as nat),
        ),
        final(stream).infallible() == old(stream).infallible(),
        old(stream).infallible() ==> r is Ok,
    decreases n,
{
    proof {
        lemma_be_bytes_len(v as int, n as nat);
    }
    if n == 0 {
        assert(final(stream).out() =~= old(stream).out() + be_bytes(v as int, 0));
        Ok(0)
    } else {
        let ghost pre = stream.out();
        let ghost whole = be_bytes(v as int, n as nat);
        let ghost high = be_bytes(v as int / 256, (n - 1) as nat);
        proof {
            lemma_be_bytes_len(v as int / 256, (n - 1) as nat);
            assert(whole == high + seq![(v % 256) as u8]);
        }
        if let Err(e) = put_be(stream, v / 256, n - 1) {
            proof {
                let j = choose|j: int| 0 <= j <= high.len() && stream.out() == pre + high.take(j);
                assert(stream.out() =~= pre + whole.take(j));
                assert(appended_prefix(pre, stream.out(), whole));
            }
            return Err(e);
        }
        match stream.put((v % 256) as u8) {
            Ok(_) => {
                proof {
                    assert(stream.out() =~= pre + whole);
                }
                Ok(n)
            },
            Err(e) => {
                proof {
                    assert(stream.out() =~= pre + whole.take(n - 1));
                    assert(appended_prefix(pre, stream.out(), whole));
                }
                Err(e)
            },
        }
    }
}

/// Appends the `n`-byte little-endian encoding of `v` to a growable
/// buffer.
pub(crate) fn push_le(out: &mut Vec<u8>, v: u64, n: usize) -> (k: usize)
    ensures
        k == n,
        final(out)@ == old(out)@ + le_bytes(v as int, n as nat),
    decreases n,
{
    if n == 0 {
        assert(final(out)@ =~= old(out)@ + le_bytes(v as int, 0));
        0
    } else {
        let ghost pre = out@;
        out.push((v % 256) as u8);
        push_le(out, v / 256, n - 1);
        proof {
            lemma_le_bytes_len(v as int / 256, (n - 1) as nat);
            assert(out@ =~= pre + le_bytes(v as int, n as nat));
        }
        n
    }
}

/// Appends the `n`-byte big-endian encoding of `v` to a growable
/// buffer.
pub(crate) fn push_be(out: &mut Vec<u8>, v: u64, n: usize) -> (k: usize)
    ensures
        k == n,
        final(out)@ == old(out)@ + be_bytes(v as int, n as nat),
    decreases n,
{
    if n == 0 {
        assert(final(out)@ =~= old(out)@ + be_bytes(v as int, 0));
        0
    } else {
        let ghost pre = out@;
        push_be(out, v / 256, n - 1);
        out.push((v % 256) as u8);
        proof {
            lemma_be_bytes_len(v as int / 256, (n - 1) as nat);
            assert(out@ =~= pre + be_bytes(v as int, n as nat));
        }
        n
    }
}

/// Writes the `n`-byte little-endian encoding of `v` into the region
/// `out[at .. at + n]`, leaving every other byte of the region as it
/// was.
pub(crate) fn set_le(out: &mut Vec<u8>, at: usize, v: u64, n: usize)
    requires
        at + n <= old(out)@.len(),
    ensures
        final(out)@ == old(out)@.take(at as int) + le_bytes(v as int, n as nat) + old(
            out,
        )@.skip(at + n),
    decreases n,
{
    proof {
        lemma_le_bytes_len(v as int, n as nat);
    }
    if n == 0 {
        assert(final(out)@ =~= old(out)@.take(at as int) + le_bytes(v as int, 0) + old(
            out,
        )@.skip(at as int));
    } else {
        let len: usize = out.len();
        assert(at + n <= len);
        let ghost pre = out@;
        out.set(at, (v % 256) as u8);
        let ghost mid = out@;
        set_le(out, at + 1, v / 256, n - 1);
        proof {
            lemma_le_bytes_len(v as int / 256, (n - 1) as nat);
            assert(out@ == mid.take(at + 1) + le_bytes(v as int / 256, (n - 1) as nat)
                + mid.skip(at + n));
            assert(out@ =~= pre.take(at as int) + le_bytes(v as int, n as nat) + pre.skip(
                at + n,
            ));
        }
    }
}

/// Writes the `n`-byte big-endian encoding of `v` into the region
/// `out[at .. at + n]`, leaving every other byte of the region as it
/// was.
pub(crate) fn set_be(out: &mut Vec<u8>, at: usize, v: u64, n: usize)
    requires
        at + n <= old(out)@.len(),
    ensures
        final(out)@ == old(out)@.take(at as int) + be_bytes(v as int, n as nat) + old(
            out,
        )@.skip(at + n),
    decreases n,
{
    proof {
        lemma_be_bytes_len(v as int, n as nat);
    }
    if n == 0 {
        assert(final(out)@ =~= old(out)@.take(at as int) + be_bytes(v as int, 0) + old(
            out,
        )@.skip(at as int));
    } else {
        let len: usize = out.len();
        assert(at + n <= len);
        let ghost pre = out@;
        set_be(out, at, v / 256, n - 1);
        let ghost mid = out@;
        proof {
            lemma_be_bytes_len(v as int / 256, (n - 1) as nat);
        }
        out.set(at + n - 1, (v % 256) as u8);
        proof {
            assert(mid == pre.take(at as int) + be_bytes(v as int / 256, (n - 1) as nat)
                + pre.skip(at + n - 1));
            assert(out@ =~= pre.take(at as int) + be_bytes(v as int, n as nat) + pre.skip(
                at + n,
            ));
        }
    }
}

} // verus!
