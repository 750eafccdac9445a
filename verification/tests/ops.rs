use shellcoder::error::Error;
use shellcoder::ops::{Advance, EncodableInteger, Fill, WriteInteger};
use shellcoder::Op;

#[test]
fn test_io() {
    {
        let mut stream = Vec::new();
        let advance = Advance::new(0);
        assert_eq!(advance.write_to_io(&mut stream).unwrap(), 0);
        assert!(stream.is_empty());
    }
    {
        let mut stream = Vec::new();
        let advance = Advance::new(42);
        assert_eq!(advance.write_to_io(&mut stream).unwrap(), 42);
        assert_eq!(stream.len(), 42);
        assert_eq!(
            stream.as_slice(),
            &[
                0, 0, 0, 0, 0, 0, 0, 0, 0, 0, 0, 0, 0, 0, 0, 0, 0, 0, 0, 0, 0, 0, 0, 0, 0, 0, 0,
                0, 0, 0, 0, 0, 0, 0, 0, 0, 0, 0, 0, 0, 0, 0,
            ]
        );
    }
    {
        let mut stream = vec![42u8; 2];
        let advance = Advance::new(42);
        assert_eq!(advance.write_to_io(&mut stream).unwrap(), 42);
        assert_eq!(stream.len(), 44);
        assert_eq!(
            stream.as_slice(),
            &[
                42, 42, 0, 0, 0, 0, 0, 0, 0, 0, 0, 0, 0, 0, 0, 0, 0, 0, 0, 0, 0, 0, 0, 0, 0, 0,
                0, 0, 0, 0, 0, 0, 0, 0, 0, 0, 0, 0, 0, 0, 0, 0, 0, 0,
            ]
        );
    }
}

#[test]
fn test() {
    {
        let mut stream = vec![0u8; 10];
        let advance = Advance::new(10);
        assert_eq!(advance.write_to(&mut stream).unwrap(), 10);
        assert_eq!(stream.len(), 10);
        assert_eq!(stream.as_slice(), &[0, 0, 0, 0, 0, 0, 0, 0, 0, 0,]);
    }
    {
        let mut stream = vec![0u8; 9];
        let advance = Advance::new(10);
        let err = advance.write_to(&mut stream).unwrap_err();
        assert!(matches!(err, Error::OutputBufferTooSmall(10)));
        assert!(err.io().is_none());
        assert_eq!(stream.len(), 9);
        assert_eq!(stream.as_slice(), &[0, 0, 0, 0, 0, 0, 0, 0, 0,]);
    }
}

#[test]
fn ops_test_io() {
    {
        let mut stream = Vec::new();
        let fill = Fill::new(0, 0x41);
        assert_eq!(fill.write_to_io(&mut stream).unwrap(), 0);
        assert_eq!(stream.len(), 0);
    }
    {
        let mut stream = Vec::new();
        let fill = Fill::new(42, 0x41);
        assert_eq!(fill.write_to_io(&mut stream).unwrap(), 42);
        assert_eq!(stream.len(), 42);
        assert_eq!(
            String::from_utf8(stream).as_deref(),
            Ok("AAAAAAAAAAAAAAAAAAAAAAAAAAAAAAAAAAAAAAAAAA")
        );
    }
    {
        let mut stream = vec![0x42u8; 4];
        let fill = Fill::new(42, 0x41);
        assert_eq!(fill.write_to_io(&mut stream).unwrap(), 42);
        assert_eq!(stream.len(), 46);
        assert_eq!(
            String::from_utf8(stream).as_deref(),
            Ok("BBBBAAAAAAAAAAAAAAAAAAAAAAAAAAAAAAAAAAAAAAAAAA")
        );
    }
}

#[test]
fn ops_test() {
    {
        let mut stream = vec![0u8; 10];
        let fill = Fill::new(10, 0x41);
        assert_eq!(fill.write_to(&mut stream).unwrap(), 10);
        assert_eq!(stream.len(), 10);
        assert_eq!(String::from_utf8(stream).as_deref(), Ok("AAAAAAAAAA"));
    }
    {
        let mut stream = vec![0u8; 9];
        let fill = Fill::new(10, 0x41);
        let err = fill.write_to(&mut stream).unwrap_err();
        assert!(matches!(err, Error::OutputBufferTooSmall(10)));
        assert!(err.io().is_none());
        assert_eq!(stream.len(), 9);
        assert_eq!(stream.as_slice(), &[0, 0, 0, 0, 0, 0, 0, 0, 0,]);
    }
}

#[test]
fn test_constructors() {
    assert_eq!(WriteInteger::new_be(1u8), WriteInteger::BigEndian(1u8));
    assert_eq!(<_ as EncodableInteger>::n(1u8), 1);
    assert_eq!(WriteInteger::new_le(1u8), WriteInteger::LittleEndian(1u8));
    assert_eq!(WriteInteger::new_be(1u16), WriteInteger::BigEndian(1u16));
    assert_eq!(<_ as EncodableInteger>::n(1u16), 2);
    assert_eq!(WriteInteger::new_le(1u16), WriteInteger::LittleEndian(1u16));
    assert_eq!(WriteInteger::new_be(1u32), WriteInteger::BigEndian(1u32));
    assert_eq!(<_ as EncodableInteger>::n(1u32), 4);
    assert_eq!(WriteInteger::new_le(1u32), WriteInteger::LittleEndian(1u32));
    assert_eq!(WriteInteger::new_be(1u64), WriteInteger::BigEndian(1u64));
    assert_eq!(<_ as EncodableInteger>::n(1u64), 8);
    assert_eq!(WriteInteger::new_le(1u64), WriteInteger::LittleEndian(1u64));
}

#[test]
fn test_encodable_integer_io() {
    {
        let mut stream = Vec::new();
        assert_eq!(WriteInteger::new_be(1u8).write_to_io(&mut stream).unwrap(), 1);
        assert_eq!(stream.len(), 1);
        assert_eq!(WriteInteger::new_le(2u8).write_to_io(&mut stream).unwrap(), 1);
        assert_eq!(stream.len(), 2);
        assert_eq!(stream.as_slice(), &[1, 2]);
    }

    {
        let mut stream = vec![2u8; 1];
        assert_eq!(WriteInteger::new_be(1u8).write_to_io(&mut stream).unwrap(), 1);
        assert_eq!(stream.len(), 2);
        assert_eq!(stream.as_slice(), &[2u8, 1u8]);
    }

    {
        let mut stream = Vec::new();
        assert_eq!(
            WriteInteger::new_be(0xdeadu16).write_to_io(&mut stream).unwrap(),
            2
        );
        assert_eq!(stream.len(), 2);
        assert_eq!(stream.as_slice(), &[0xde, 0xad]);
    }

    {
        let mut stream = Vec::new();
        assert_eq!(
            WriteInteger::new_le(0xdeadu16).write_to_io(&mut stream).unwrap(),
            2
        );
        assert_eq!(stream.len(), 2);
        assert_eq!(stream.as_slice(), &[0xad, 0xde]);
    }

    {
        let mut stream = Vec::new();
        assert_eq!(
            WriteInteger::new_be(0xdeadbeefu32).write_to_io(&mut stream).unwrap(),
            4
        );
        assert_eq!(stream.len(), 4);
        assert_eq!(stream.as_slice(), &[0xde, 0xad, 0xbe, 0xef]);
    }

    {
        let mut stream = Vec::new();
        assert_eq!(
            WriteInteger::new_le(0xdeadbeefu32).write_to_io(&mut stream).unwrap(),
            4
        );
        assert_eq!(stream.len(), 4);
        assert_eq!(stream.as_slice(), &[0xef, 0xbe, 0xad, 0xde]);
    }

    {
        let mut stream = Vec::new();
        assert_eq!(
            WriteInteger::new_be(0xdeadbeefcafebabeu64)
                .write_to_io(&mut stream)
                .unwrap(),
            8
        );
        assert_eq!(stream.len(), 8);
        assert_eq!(stream.as_slice(), &[0xde, 0xad, 0xbe, 0xef, 0xca, 0xfe, 0xba, 0xbe]);
    }

    {
        let mut stream = Vec::new();
        assert_eq!(
            WriteInteger::new_le(0xdeadbeefcafebabeu64)
                .write_to_io(&mut stream)
                .unwrap(),
            8
        );
        assert_eq!(stream.len(), 8);
        assert_eq!(stream.as_slice(), &[0xbe, 0xba, 0xfe, 0xca, 0xef, 0xbe, 0xad, 0xde]);
    }
}
