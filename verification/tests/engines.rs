use shellcoder::error::Error;
use shellcoder::fixed;
use shellcoder::growable;
use shellcoder::io as streaming;
use shellcoder::ops::{Advance, Fill, WriteBuffer, WriteInteger};
use shellcoder::Op;
use shellcoder::Shellcoder;

#[test]
fn growable_fill_ten() {
    let mut coder = growable::Shellcoder::new();
    assert_eq!(coder.add(&Fill::new(10, 0x41)).unwrap(), 10);
    assert_eq!(coder.as_bytes(), &[0x41u8; 10]);
}

#[test]
fn fixed_fill_ten_into_nine() {
    let mut coder = fixed::Shellcoder::new(vec![0u8; 9]);
    let err = coder.add(&Fill::new(10, 0x41)).unwrap_err();
    assert!(matches!(err, Error::OutputBufferTooSmall(10)));
    assert_eq!(coder.get(), &[] as &[u8]);
}

#[test]
fn growable_integer_endianness() {
    let mut coder = growable::Shellcoder::new();
    assert_eq!(coder.add(&WriteInteger::new_be(0xdeadbeef_u32)).unwrap(), 4);
    assert_eq!(coder.as_bytes(), &[0xde, 0xad, 0xbe, 0xef]);

    let mut coder = growable::Shellcoder::new();
    assert_eq!(coder.add(&WriteInteger::new_le(0xdeadbeef_u32)).unwrap(), 4);
    assert_eq!(coder.as_bytes(), &[0xef, 0xbe, 0xad, 0xde]);
}

#[test]
fn growable_advance_then_integer() {
    let mut coder = growable::Shellcoder::new();
    assert_eq!(coder.advance(8).unwrap(), 8);
    assert_eq!(coder.int_le(0x10000fcde_u64).unwrap(), 8);
    assert_eq!(
        coder.as_bytes(),
        &[
            0x00, 0x00, 0x00, 0x00, 0x00, 0x00, 0x00, 0x00, 0xde, 0xfc, 0x00, 0x00, 0x01, 0x00,
            0x00, 0x00,
        ]
    );
}

#[test]
fn accessors_are_idempotent() {
    let mut coder = growable::Shellcoder::new();
    coder.fill(4, 0xcc).unwrap();
    let first: Vec<u8> = coder.as_bytes().to_vec();
    let second: Vec<u8> = coder.as_bytes().to_vec();
    assert_eq!(first, second);

    let mut coder = fixed::Shellcoder::new(vec![0u8; 8]);
    coder.fill(4, 0xcc).unwrap();
    let first: Vec<u8> = coder.get().to_vec();
    let second: Vec<u8> = coder.get().to_vec();
    assert_eq!(first, second);
    assert_eq!(first, vec![0xcc; 4]);
}

#[test]
fn fixed_commits_in_call_order() {
    let mut coder = fixed::Shellcoder::new(vec![0u8; 24]);
    assert_eq!(coder.int_le(0x100000fba_u64).unwrap(), 8);
    assert_eq!(coder.advance(8).unwrap(), 8);
    assert_eq!(coder.int_le(0x10000fcde_u64).unwrap(), 8);
    assert_eq!(
        coder.get(),
        &[
            0xba, 0x0f, 0x00, 0x00, 0x01, 0x00, 0x00, 0x00, 0x00, 0x00, 0x00, 0x00, 0x00, 0x00,
            0x00, 0x00, 0xde, 0xfc, 0x00, 0x00, 0x01, 0x00, 0x00, 0x00,
        ]
    );
}

#[test]
fn fixed_failed_add_commits_nothing() {
    let mut coder = fixed::Shellcoder::new(vec![0u8; 6]);
    assert_eq!(coder.push_buffer(b"pwnd").unwrap(), 4);
    assert_eq!(coder.get(), b"pwnd");

    // Only two bytes remain: a four-byte operation must be rejected
    // whole, leaving the committed prefix exactly as it was.
    let err = coder.push_buffer(b"more").unwrap_err();
    assert!(matches!(err, Error::OutputBufferTooSmall(4)));
    assert_eq!(coder.get(), b"pwnd");

    assert_eq!(coder.push_buffer(b"ok").unwrap(), 2);
    assert_eq!(coder.get(), b"pwndok");
}

#[test]
fn growable_bound_violation_keeps_bytes() {
    let mut coder = growable::Shellcoder::new_with_max_len(5);
    assert_eq!(coder.fill(5, 0x01).unwrap(), 5);

    // The bound is checked only after the write: the offending bytes
    // stay, and the reported size is the buffer's new length.
    let err = coder.fill(3, 0x02).unwrap_err();
    assert!(matches!(err, Error::OutputBufferTooSmall(8)));
    assert_eq!(coder.as_bytes(), &[1, 1, 1, 1, 1, 2, 2, 2]);

    let err = coder.add(&Advance::new(2)).unwrap_err();
    assert!(matches!(err, Error::OutputBufferTooSmall(10)));
    assert_eq!(coder.as_bytes(), &[1, 1, 1, 1, 1, 2, 2, 2, 0, 0]);
}

#[test]
fn streaming_engine_reports_counts() {
    let mut coder = streaming::Shellcoder::new(Vec::new());
    assert_eq!(coder.advance(2).unwrap(), 2);
    assert_eq!(coder.int_be(0xcafe_u16).unwrap(), 2);
    assert_eq!(coder.push_buffer(&[9, 9]).unwrap(), 2);
    let sink = coder.into_inner();
    assert_eq!(sink, vec![0x00, 0x00, 0xca, 0xfe, 0x09, 0x09]);
}

#[test]
fn write_at_touches_only_its_span() {
    let mut region = vec![0x11u8; 8];
    assert_eq!(Fill::new(3, 0xaa).write_at(&mut region, 2).unwrap(), 3);
    assert_eq!(region, vec![0x11, 0x11, 0xaa, 0xaa, 0xaa, 0x11, 0x11, 0x11]);

    let err = Fill::new(3, 0xbb).write_at(&mut region, 6).unwrap_err();
    assert!(matches!(err, Error::OutputBufferTooSmall(3)));
    assert_eq!(region, vec![0x11, 0x11, 0xaa, 0xaa, 0xaa, 0x11, 0x11, 0x11]);
}

#[test]
fn write_buffer_copies_bytes() {
    let source = vec![1u8, 2, 3, 4];
    let op = WriteBuffer::new(source.as_slice());
    let mut coder = growable::Shellcoder::new();
    assert_eq!(coder.add(&op).unwrap(), 4);
    assert_eq!(coder.as_bytes(), source.as_slice());

    let mut region = vec![0u8; 3];
    let err = op.write_to(&mut region).unwrap_err();
    assert!(matches!(err, Error::OutputBufferTooSmall(4)));
    assert_eq!(region, vec![0, 0, 0]);
}

#[test]
fn big_endian_round_trip() {
    let mut coder = growable::Shellcoder::new();
    coder.int_be(0xcafe_u16).unwrap();
    let bytes = coder.as_bytes();
    let back: u16 = ((bytes[0] as u16) << 8) | bytes[1] as u16;
    assert_eq!(back, 0xcafe);

    let mut coder = growable::Shellcoder::new();
    coder.int_be(0x0102030405060708_u64).unwrap();
    let mut back: u64 = 0;
    for byte in coder.as_bytes() {
        back = (back << 8) | *byte as u64;
    }
    assert_eq!(back, 0x0102030405060708);
}

#[test]
fn fixed_into_inner_returns_region() {
    let mut coder = fixed::Shellcoder::new(vec![0x33u8; 6]);
    assert_eq!(coder.push_buffer(b"hi").unwrap(), 2);
    let region = coder.into_inner();
    assert_eq!(region, vec![b'h', b'i', 0x33, 0x33, 0x33, 0x33]);
}

#[test]
fn streaming_empty_operations_succeed() {
    let mut coder = streaming::Shellcoder::new(Vec::new());
    assert_eq!(coder.advance(0).unwrap(), 0);
    assert_eq!(coder.fill(0, 0x41).unwrap(), 0);
    assert_eq!(coder.push_buffer(&[]).unwrap(), 0);
    assert_eq!(coder.into_inner(), Vec::<u8>::new());
}

#[test]
fn error_io_accessor() {
    let io_error = std::io::Error::new(std::io::ErrorKind::WriteZero, "sink closed");
    let err = Error::Io(io_error);
    assert!(err.io().is_some());
    assert_eq!(err.io().unwrap().kind(), std::io::ErrorKind::WriteZero);

    assert!(Error::OutputBufferTooSmall(3).io().is_none());
    assert!(Error::IntegerOverflow.io().is_none());
}

#[test]
fn empty_operations_write_nothing() {
    let mut coder = growable::Shellcoder::new();
    assert_eq!(coder.advance(0).unwrap(), 0);
    assert_eq!(coder.fill(0, 0xff).unwrap(), 0);
    assert_eq!(coder.push_buffer(&[]).unwrap(), 0);
    assert_eq!(coder.as_bytes(), &[] as &[u8]);
}
