use binary_decode::{Cursor, Error, InvalidTag};
use std::convert::Infallible;

#[test]
fn decode_u32_from_two_bytes_is_unexpected_end() {
    let mut c = Cursor::new(vec![0x01u8, 0x02]);
    assert_eq!(c.decode::<u32>(), Err(Error::UnexpectedEnd));
}

#[test]
fn decode_integers_big_endian() {
    let mut c = Cursor::new(vec![
        0xabu8, 0x12, 0x34, 0xde, 0xad, 0xbe, 0xef, 0x01, 0x02, 0x03, 0x04, 0x05, 0x06, 0x07,
        0x08,
    ]);
    assert_eq!(c.decode::<u8>(), Ok(0xab));
    assert_eq!(c.decode::<u16>(), Ok(0x1234));
    assert_eq!(c.decode::<u32>(), Ok(0xdeadbeef));
    assert_eq!(c.decode::<u64>(), Ok(0x0102030405060708));
    assert_eq!(c.position(), 15);
    assert_eq!(c.decode::<u8>(), Err(Error::UnexpectedEnd));
}

#[test]
fn decode_round_trips_encoded_values() {
    for v in [0u32, 1, 255, 256, 0x00ff_ff00, u32::MAX] {
        let mut c = Cursor::new(v.to_be_bytes().to_vec());
        assert_eq!(c.decode::<u32>(), Ok(v));
        assert_eq!(c.position(), 4);
    }
    for v in [0u64, 1, u64::MAX, 0x8000_0000_0000_0001] {
        let mut c = Cursor::new(v.to_be_bytes().to_vec());
        assert_eq!(c.decode::<u64>(), Ok(v));
    }
    for v in [0u16, 0x0100, u16::MAX] {
        let mut c = Cursor::new(v.to_be_bytes().to_vec());
        assert_eq!(c.decode::<u16>(), Ok(v));
    }
    for v in [false, true] {
        let mut c = Cursor::new(vec![v as u8, 0x55]);
        assert_eq!(c.decode::<bool>(), Ok(v));
        assert_eq!(c.position(), 1);
    }
}

#[test]
fn decode_truncated_sources_are_unexpected_end() {
    let mut c = Cursor::new(vec![1u8; 7]);
    assert_eq!(c.decode::<u64>(), Err(Error::UnexpectedEnd));
    let mut c = Cursor::new(vec![1u8]);
    assert_eq!(c.decode::<u16>(), Err(Error::UnexpectedEnd));
    let mut c = Cursor::new(Vec::<u8>::new());
    assert_eq!(c.decode::<bool>(), Err(Error::UnexpectedEnd));
    let mut c = Cursor::new(Vec::<u8>::new());
    assert_eq!(c.decode::<u8>(), Err(Error::UnexpectedEnd));
}

#[test]
fn decode_bool_with_invalid_tag_is_deserialize_error() {
    let mut c = Cursor::new(vec![7u8, 0]);
    assert_eq!(c.decode::<bool>(), Err(Error::Deserialize(InvalidTag { tag: 7 })));
    let mut c = Cursor::new(vec![0xffu8]);
    assert_eq!(c.decode::<bool>(), Err(Error::Deserialize(InvalidTag { tag: 0xff })));
}

#[test]
fn error_constructors_build_their_variant() {
    let e: Error<InvalidTag> = Error::unexpected_end();
    assert_eq!(e, Error::UnexpectedEnd);
    let e = Error::deserialize(InvalidTag { tag: 3 });
    assert_eq!(e, Error::Deserialize(InvalidTag { tag: 3 }));
    let e: Error<Infallible> = Error::unexpected_end();
    assert!(matches!(e, Error::UnexpectedEnd));
}
