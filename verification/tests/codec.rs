use waht::addr::{SocketAddr, SocketAddrV4, SocketAddrV6};
use waht::proto::codec::{CodecError, Wire};
use waht::proto::traits::{encode_to_vec, Decode, Encode};
use waht::proto::util::TypedBytes;
use waht::proto::FrameError;

#[test]
fn integers_match_postcard() {
    for v in [0u64, 1, 127, 128, 16383, 16384, u32::MAX as u64, u64::MAX] {
        let encoded = encode_to_vec(&v);
        assert_eq!(encoded, postcard::to_allocvec(&v).unwrap());
        assert_eq!(u64::decode(&encoded), Ok(v));
    }
    for v in [0u32, 1, 127, 128, 65535, u32::MAX] {
        let encoded = encode_to_vec(&v);
        assert_eq!(encoded, postcard::to_allocvec(&v).unwrap());
        assert_eq!(u32::decode(&encoded), Ok(v));
    }
    for v in [0u16, 127, 128, 300, u16::MAX] {
        let encoded = encode_to_vec(&v);
        assert_eq!(encoded, postcard::to_allocvec(&v).unwrap());
        assert_eq!(u16::decode(&encoded), Ok(v));
    }
    let mut out = Vec::new();
    300u16.put(&mut out);
    assert_eq!(out, vec![0xac, 0x02]);
}

#[test]
fn compound_values_match_postcard() {
    let strings = vec!["".to_string(), "topic".to_string(), "h\u{e9}llo".to_string()];
    assert_eq!(encode_to_vec(&strings), postcard::to_allocvec(&strings).unwrap());
    assert_eq!(Vec::<String>::decode(&encode_to_vec(&strings)), Ok(strings));
    let some: Option<u16> = Some(700);
    assert_eq!(encode_to_vec(&some), postcard::to_allocvec(&some).unwrap());
    assert_eq!(Option::<u16>::decode(&encode_to_vec(&some)), Ok(some));
    let none: Option<u16> = None;
    assert_eq!(encode_to_vec(&none), postcard::to_allocvec(&none).unwrap());
    let flags = vec![true, false, true];
    assert_eq!(encode_to_vec(&flags), postcard::to_allocvec(&flags).unwrap());
    let key = [7u8; 32];
    assert_eq!(encode_to_vec(&key), postcard::to_allocvec(&key).unwrap());
    assert_eq!(<[u8; 32]>::decode(&encode_to_vec(&key)), Ok(key));
}

#[test]
fn every_decoding_error_is_told_apart() {
    let malformed = |e: CodecError| FrameError::Malformed(e);
    assert_eq!(u64::decode(&[0x80]), Err(malformed(CodecError::DeserializeUnexpectedEnd)));
    assert_eq!(u16::decode(&[0xff, 0xff, 0x04]), Err(malformed(CodecError::DeserializeBadVarint)));
    assert_eq!(u16::decode(&[0xff, 0xff, 0x03]), Ok(u16::MAX));
    assert_eq!(bool::decode(&[2]), Err(malformed(CodecError::DeserializeBadBool)));
    assert_eq!(
        Option::<u16>::decode(&[2, 0]),
        Err(malformed(CodecError::DeserializeBadOption))
    );
    assert_eq!(
        String::decode(&[2, 0xff, 0xff]),
        Err(malformed(CodecError::DeserializeBadUtf8))
    );
    assert_eq!(
        <[u8; 32]>::decode(&[0; 31]),
        Err(malformed(CodecError::DeserializeUnexpectedEnd))
    );
    assert_eq!(SocketAddr::decode(&[2, 0, 0]), Err(malformed(CodecError::SerdeDeCustom)));
    assert_eq!(
        Vec::<u64>::decode(&[3, 1, 2]),
        Err(malformed(CodecError::DeserializeUnexpectedEnd))
    );
}

#[test]
fn same_errors_as_postcard() {
    let cases: Vec<Vec<u8>> = vec![
        vec![],
        vec![0x80],
        vec![0xff, 0xff, 0x04],
        vec![0xff, 0xff, 0xff, 0x01],
        vec![0x80, 0x00],
        vec![0x05, 0x06],
    ];
    for case in cases {
        let ours = u16::decode(&case);
        let theirs: Result<u16, postcard::Error> = postcard::from_bytes(&case);
        match (ours, theirs) {
            (Ok(a), Ok(b)) => assert_eq!(a, b),
            (
                Err(FrameError::Malformed(CodecError::DeserializeUnexpectedEnd)),
                Err(postcard::Error::DeserializeUnexpectedEnd),
            ) => {}
            (
                Err(FrameError::Malformed(CodecError::DeserializeBadVarint)),
                Err(postcard::Error::DeserializeBadVarint),
            ) => {}
            (a, b) => panic!("{case:?}: {a:?} but {b:?}"),
        }
    }
}

#[test]
fn encode_writes_to_the_front_of_a_slice() {
    let mut buf = [9u8; 6];
    assert_eq!(300u16.encode(&mut buf), Ok(2));
    assert_eq!(buf, [0xac, 0x02, 9, 9, 9, 9]);
    assert_eq!(300u16.encoded_len(), Ok(2));
    let mut short = [9u8; 1];
    assert_eq!(
        300u16.encode(&mut short),
        Err(FrameError::Malformed(CodecError::SerializeBufferFull))
    );
    assert_eq!(short, [9]);
}

#[test]
fn decode_ignores_what_follows() {
    assert_eq!(u16::decode(&[0xac, 0x02, 1, 2, 3]), Ok(300));
    let (v, rest) = u16::take(&[0xac, 0x02, 1, 2, 3]).unwrap();
    assert_eq!(v, 300);
    assert_eq!(rest, &[1, 2, 3]);
}

#[test]
fn socket_addresses_are_a_variant_and_a_tuple() {
    let v4 = SocketAddr::V4(SocketAddrV4 { ip: [127, 0, 0, 1], port: 1000 });
    let expected = postcard::to_allocvec(&(0u32, [127u8, 0, 0, 1], 1000u16)).unwrap();
    assert_eq!(encode_to_vec(&v4), expected);
    assert_eq!(SocketAddr::decode(&expected), Ok(v4));
    let v6 = SocketAddr::V6(SocketAddrV6 { ip: [3; 16], port: 9, flowinfo: 0, scope_id: 0 });
    let expected = postcard::to_allocvec(&(1u32, [3u8; 16], 9u16)).unwrap();
    assert_eq!(encode_to_vec(&v6), expected);
    assert_eq!(SocketAddr::decode(&expected), Ok(v6));
}

#[test]
fn flow_and_scope_do_not_travel() {
    let local = SocketAddr::V6(SocketAddrV6 { ip: [3; 16], port: 9, flowinfo: 4, scope_id: 5 });
    let plain = SocketAddr::V6(SocketAddrV6 { ip: [3; 16], port: 9, flowinfo: 0, scope_id: 0 });
    assert_eq!(SocketAddr::decode(&encode_to_vec(&local)), Ok(plain));
}

#[test]
fn typed_bytes_hold_an_encoding() {
    let b: TypedBytes<u16> = TypedBytes::encode(&300).unwrap();
    assert_eq!(b.as_bytes(), &[0xac, 0x02]);
    assert_eq!(b.decode(), Ok(300));
    assert_eq!(b.clone().into_bytes(), bytes::Bytes::from_static(&[0xac, 0x02]));
    let mut old = bytes::BytesMut::new();
    old.extend_from_slice(b"left over");
    let b: TypedBytes<u16> = TypedBytes::encode_into(old, &300).unwrap();
    assert_eq!(b.as_bytes(), &[0xac, 0x02]);
    assert_eq!(encode_to_vec(&b), vec![2, 0xac, 0x02]);
    let encoded = encode_to_vec(&b);
    let (again, rest) = TypedBytes::<u16>::take(&encoded).unwrap();
    assert_eq!(again.as_bytes(), &[0xac, 0x02]);
    assert!(rest.is_empty());
    let claimed: TypedBytes<u16> = TypedBytes::new(bytes::Bytes::from_static(&[0x80]));
    assert_eq!(
        claimed.decode(),
        Err(FrameError::Malformed(CodecError::DeserializeUnexpectedEnd))
    );
}
