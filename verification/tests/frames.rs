use waht::addr::{SocketAddr, SocketAddrV4};
use waht::proto::codec::CodecError;
use waht::proto::crypto::{Proof, SealedEnvelope, SigningKey, VerificationError, VerifiedEnvelope};
use waht::proto::data::{
    AnnounceRequest, AnnounceResponse, Authorization, ControlMessage, DataFramePayload, FrameType,
    QueryRequest, QueryResponse,
};
use waht::proto::traits::{encode_to_vec, Decode};
use waht::proto::util::TypedBytes;
use waht::proto::wire::{
    Ack, AnnouncePayload, Announcement, End, Error, Frame, FramePayload, Hello, PeerInfo,
    ProvideHash, Query, QueryKeys, QueryPayload, QueryPeers, QuerySettings, Redirect, SignedFrame,
    UnsignedFrame, UpdateTopic,
};
use waht::proto::FrameError;

fn announcement() -> Announcement {
    Announcement {
        timestamp: 77,
        payload: AnnouncePayload::ProvideHash(ProvideHash { target: [9; 32] }),
    }
}

fn signed(key: &SigningKey) -> Frame {
    let envelope =
        SealedEnvelope::sign_and_encode(key, &SignedFrame::Announce(announcement())).unwrap();
    Frame { rid: Some(5), payload: FramePayload::Signed(envelope) }
}

#[test]
fn unsigned_frames_match_postcard() {
    let hello = Frame {
        rid: None,
        payload: FramePayload::Unsigned(UnsignedFrame::Hello(Hello { version: 1, peer_id: [2; 32] })),
    };
    let expected =
        postcard::to_allocvec(&(None::<u64>, 0u32, 0u32, (1u16, [2u8; 32]))).unwrap();
    assert_eq!(encode_to_vec(&hello), expected);

    let query = Query {
        settings: QuerySettings { stop_after: 6, keepalive: false, federate: true },
        query: QueryPayload::Keys(QueryKeys { keys: vec![[7; 32]] }),
    };
    let frame =
        Frame { rid: Some(300), payload: FramePayload::Unsigned(UnsignedFrame::Query(query)) };
    let expected = postcard::to_allocvec(&(
        Some(300u64),
        0u32,
        1u32,
        (6u32, false, true),
        (1u32, vec![[7u8; 32]]),
    ))
    .unwrap();
    assert_eq!(encode_to_vec(&frame), expected);

    let ack = Frame {
        rid: None,
        payload: FramePayload::Unsigned(UnsignedFrame::Ack(Ack { rid: 9 })),
    };
    assert_eq!(
        encode_to_vec(&ack),
        postcard::to_allocvec(&(None::<u64>, 0u32, 2u32, 9u64)).unwrap()
    );
    let end = Frame { rid: None, payload: FramePayload::Unsigned(UnsignedFrame::End(End {})) };
    assert_eq!(encode_to_vec(&end), postcard::to_allocvec(&(None::<u64>, 0u32, 3u32)).unwrap());
    let error = Frame {
        rid: None,
        payload: FramePayload::Unsigned(UnsignedFrame::Error(Error {
            code: 4,
            message: Some("no".to_string()),
        })),
    };
    assert_eq!(
        encode_to_vec(&error),
        postcard::to_allocvec(&(None::<u64>, 0u32, 4u32, 4u32, Some("no"))).unwrap()
    );
    let redirect = Redirect { server: "other".to_string(), topics: vec![[1; 32]] };
    assert_eq!(
        encode_to_vec(&redirect),
        postcard::to_allocvec(&("other", vec![[1u8; 32]])).unwrap()
    );
}

#[test]
fn frames_are_decoded_again() {
    let frame = Frame {
        rid: Some(8),
        payload: FramePayload::Unsigned(UnsignedFrame::Query(Query {
            settings: QuerySettings { stop_after: 1, keepalive: true, federate: false },
            query: QueryPayload::Peers(QueryPeers { peer_ids: vec![[1; 32], [2; 32]] }),
        })),
    };
    let bytes = encode_to_vec(&frame);
    let again = Frame::decode(&bytes).unwrap();
    assert_eq!(again.rid, Some(8));
    match again.payload {
        FramePayload::Unsigned(UnsignedFrame::Query(q)) => {
            assert_eq!(q.settings.stop_after, 1);
            assert!(q.settings.keepalive);
            assert!(!q.settings.federate);
            match q.query {
                QueryPayload::Peers(p) => assert_eq!(p.peer_ids, vec![[1; 32], [2; 32]]),
                _ => panic!("not a query for peers"),
            }
        }
        _ => panic!("not a query"),
    }
    assert_eq!(
        Frame::decode(&bytes[..bytes.len() - 1]).err(),
        Some(FrameError::Malformed(CodecError::DeserializeUnexpectedEnd))
    );
    assert_eq!(
        Frame::decode(&[0, 2]).err(),
        Some(FrameError::Malformed(CodecError::SerdeDeCustom))
    );
}

#[test]
fn announcements_match_postcard() {
    let addr = SocketAddr::V4(SocketAddrV4 { ip: [10, 0, 0, 1], port: 80 });
    let info = Announcement {
        timestamp: 3,
        payload: AnnouncePayload::PeerInfo(PeerInfo { addr, relay: None }),
    };
    assert_eq!(
        encode_to_vec(&info),
        postcard::to_allocvec(&(3u64, 0u32, (0u32, [10u8, 0, 0, 1], 80u16), None::<u8>)).unwrap()
    );
    assert_eq!(
        encode_to_vec(&announcement()),
        postcard::to_allocvec(&(77u64, 1u32, [9u8; 32])).unwrap()
    );
    let key = SigningKey::from_bytes(&[4; 32]);
    let topic = SealedEnvelope::sign_and_encode(&key, &UpdateTopic { value: [6; 32] }).unwrap();
    let update = Announcement { timestamp: 1, payload: AnnouncePayload::UpdateTopic(topic) };
    let bytes = encode_to_vec(&update);
    assert_eq!(&bytes[..2], &[1, 2]);
    assert_eq!(bytes.len(), 2 + 32 + 1 + 64 + 1 + 32);
}

#[test]
fn signatures_are_those_of_dalek() {
    let secret = [42u8; 32];
    let key = SigningKey::from_bytes(&secret);
    let dalek = ed25519_dalek::SigningKey::from_bytes(&secret);
    assert_eq!(key.verifying_key(), dalek.verifying_key().to_bytes());
    let (issuer, seal) = Proof::sign(&key, b"payload");
    assert_eq!(issuer, dalek.verifying_key().to_bytes());
    let Proof::EdSignature(signature) = seal;
    let expected = ed25519_dalek::Signer::sign(&dalek, b"payload");
    assert_eq!(signature, expected.to_bytes());
}

#[test]
fn wrong_signatures_are_refused() {
    let key = SigningKey::from_bytes(&[1; 32]);
    let other = SigningKey::from_bytes(&[2; 32]);
    let (issuer, seal) = Proof::sign(&key, b"payload");
    assert_eq!(seal.verify(&issuer, b"payload"), Ok(true));
    assert_eq!(seal.verify(&issuer, b"other"), Err(VerificationError::BadEdSignature));
    assert_eq!(
        seal.verify(&other.verifying_key(), b"payload"),
        Err(VerificationError::BadEdSignature)
    );
    let Proof::EdSignature(mut signature) = seal;
    signature[0] ^= 1;
    assert_eq!(
        Proof::EdSignature(signature).verify(&issuer, b"payload"),
        Err(VerificationError::BadEdSignature)
    );
    let no_point = [2u8; 32];
    assert_eq!(seal.verify(&no_point, b"payload"), Err(VerificationError::BadEdSignature));
}

#[test]
fn generated_keys_differ() {
    let (id_a, key_a) = waht::util::generate_peer_id();
    let (id_b, _) = waht::util::generate_peer_id();
    assert_ne!(id_a, id_b);
    assert_eq!(id_a, key_a.verifying_key());
    let (issuer, seal) = Proof::sign(&key_a, b"x");
    assert_eq!(issuer, id_a);
    assert_eq!(seal.verify(&id_a, b"x"), Ok(true));
}

#[test]
fn sealed_values_are_opened_again() {
    let key = SigningKey::from_bytes(&[3; 32]);
    let envelope = SealedEnvelope::sign_and_encode(&key, &300u16).unwrap();
    assert_eq!(envelope.verify(), Ok(true));
    let opened = envelope.clone().verify_and_decode().unwrap();
    assert_eq!(opened.payload, 300);
    assert_eq!(opened.issuer, key.verifying_key());
    let bytes = encode_to_vec(&envelope);
    let sealed_again = opened.into_sealed().unwrap();
    assert_eq!(encode_to_vec(&sealed_again), bytes);
    let parts = postcard::to_allocvec(&(key.verifying_key(), 0u32)).unwrap();
    assert_eq!(&bytes[..parts.len()], &parts[..]);
}

#[test]
fn forged_envelopes_stay_closed() {
    let key = SigningKey::from_bytes(&[3; 32]);
    let (issuer, seal) = Proof::sign(&key, b"something else");
    let forged: SealedEnvelope<u16> =
        SealedEnvelope::from_parts(issuer, seal, TypedBytes::copy_from_slice(&[5]));
    assert_eq!(
        forged.clone().verify_and_decode().err(),
        Some(FrameError::Verification(VerificationError::BadEdSignature))
    );
    assert_eq!(forged.clone().decode_checked(Ok(true)).unwrap().payload, 5);
    assert_eq!(
        forged.decode_checked(Err(VerificationError::BadEdSignature)).err(),
        Some(FrameError::Verification(VerificationError::BadEdSignature))
    );
}

#[test]
fn sealed_garbage_is_malformed() {
    let key = SigningKey::from_bytes(&[3; 32]);
    let (issuer, seal) = Proof::sign(&key, &[0x80]);
    let garbage: SealedEnvelope<u16> =
        SealedEnvelope::from_parts(issuer, seal, TypedBytes::copy_from_slice(&[0x80]));
    assert_eq!(
        garbage.verify_and_decode().err(),
        Some(FrameError::Malformed(CodecError::DeserializeUnexpectedEnd))
    );
}

#[test]
fn verified_envelopes_are_mapped_and_split() {
    let key = SigningKey::from_bytes(&[3; 32]);
    let (issuer, seal) = Proof::sign(&key, b"x");
    let v = VerifiedEnvelope::new(3u16, issuer, seal);
    let mapped = v.map(|x: u16| x as u32 + 1);
    let (payload, who, _) = mapped.split();
    assert_eq!(payload, 4);
    assert_eq!(who, issuer);
}

#[test]
fn signed_frames_name_their_issuer() {
    let key = SigningKey::from_bytes(&[8; 32]);
    let data = signed(&key).verify_if_signed().unwrap();
    assert_eq!(data.meta.rid, Some(5));
    let who: Authorization = data.meta.authorization.unwrap();
    assert_eq!(who.issuer, key.verifying_key());
    match data.payload {
        DataFramePayload::Announce(a) => assert_eq!(a.timestamp, 77),
        _ => panic!("not an announcement"),
    }
    let unsigned = Frame {
        rid: Some(1),
        payload: FramePayload::Unsigned(UnsignedFrame::Ack(Ack { rid: 2 })),
    };
    let data = unsigned.verify_if_signed().unwrap();
    assert!(data.meta.authorization.is_none());
    assert_eq!(data.meta.rid, Some(1));
}

#[test]
fn refused_signature_refuses_the_frame() {
    let key = SigningKey::from_bytes(&[8; 32]);
    let refused = signed(&key).verify_with(Err(VerificationError::BadEdSignature));
    assert_eq!(
        refused.err(),
        Some(FrameError::Verification(VerificationError::BadEdSignature))
    );
    assert!(signed(&key).verify_with(Ok(true)).is_ok());
    let mut bytes = encode_to_vec(&signed(&key));
    let last = bytes.len() - 1;
    bytes[last] ^= 1;
    let tampered = Frame::decode(&bytes).unwrap();
    assert_eq!(
        tampered.verify_into::<AnnounceRequest>().err(),
        Some(FrameError::Verification(VerificationError::BadEdSignature))
    );
}

#[test]
fn frames_of_other_types_are_refused() {
    let key = SigningKey::from_bytes(&[8; 32]);
    assert!(signed(&key).verify_into::<AnnounceRequest>().is_ok());
    assert!(signed(&key).verify_into::<QueryResponse>().is_ok());
    assert_eq!(
        signed(&key).verify_into::<ControlMessage>().err(),
        Some(FrameError::InvalidFrameType)
    );
    assert_eq!(
        signed(&key).verify_into::<QueryRequest>().err(),
        Some(FrameError::InvalidFrameType)
    );
    assert_eq!(
        signed(&key).verify_into::<AnnounceResponse>().err(),
        Some(FrameError::InvalidFrameType)
    );
}

#[test]
fn messages_survive_their_payload() {
    let hello = ControlMessage::Hello(Hello { version: 1, peer_id: [5; 32] });
    match ControlMessage::from_payload(hello.into_payload()) {
        Ok(ControlMessage::Hello(h)) => assert_eq!(h.peer_id, [5; 32]),
        _ => panic!("not a hello"),
    }
    match AnnounceResponse::from_payload(AnnounceResponse::Ack(Ack { rid: 6 }).into_payload()) {
        Ok(AnnounceResponse::Ack(a)) => assert_eq!(a.rid, 6),
        _ => panic!("not an ack"),
    }
    assert!(matches!(
        QueryRequest::from_payload(QueryRequest::End(End {}).into_payload()),
        Ok(QueryRequest::End(_))
    ));
    assert!(matches!(
        AnnounceRequest::from_payload(AnnounceRequest::End(End {}).into_payload()),
        Ok(AnnounceRequest::End(_))
    ));
    assert!(matches!(
        QueryResponse::from_payload(QueryResponse::Announce(announcement()).into_payload()),
        Ok(QueryResponse::Announce(_))
    ));
}

#[test]
fn carried_messages_are_read_back() {
    let key = SigningKey::from_bytes(&[8; 32]);
    let payload = AnnounceRequest::Announce(announcement()).into_payload();
    let frame = Frame::carrying(payload, Some(4), &key).unwrap();
    assert!(matches!(frame.payload, FramePayload::Signed(_)));
    let (message, meta) = frame.verify_into::<AnnounceRequest>().unwrap();
    assert_eq!(meta.rid, Some(4));
    assert_eq!(meta.authorization.unwrap().issuer, key.verifying_key());
    match message {
        AnnounceRequest::Announce(a) => assert_eq!(a.timestamp, 77),
        _ => panic!("not an announcement"),
    }
    let payload = AnnounceResponse::Ack(Ack { rid: 3 }).into_payload();
    let frame = Frame::carrying(payload, None, &key).unwrap();
    assert!(matches!(frame.payload, FramePayload::Unsigned(UnsignedFrame::Ack(_))));
}

#[test]
fn ends_and_errors_are_allowed_on_all_streams() {
    let end = || DataFramePayload::End(End {});
    let error = || DataFramePayload::Error(Error { code: 4, message: Some("no".to_owned()) });
    assert!(matches!(ControlMessage::from_payload(end()), Ok(ControlMessage::End(_))));
    assert!(matches!(AnnounceRequest::from_payload(end()), Ok(AnnounceRequest::End(_))));
    assert!(matches!(AnnounceResponse::from_payload(end()), Ok(AnnounceResponse::End(_))));
    assert!(matches!(QueryRequest::from_payload(end()), Ok(QueryRequest::End(_))));
    assert!(matches!(QueryResponse::from_payload(end()), Ok(QueryResponse::End(_))));
    match ControlMessage::from_payload(error()) {
        Ok(ControlMessage::Error(e)) => {
            assert_eq!(e.code, 4);
            assert!(matches!(
                ControlMessage::Error(e).into_payload(),
                DataFramePayload::Error(Error { code: 4, .. })
            ));
        }
        _ => panic!("not an error"),
    }
    assert!(matches!(AnnounceRequest::from_payload(error()), Ok(AnnounceRequest::Error(_))));
    assert!(matches!(AnnounceResponse::from_payload(error()), Ok(AnnounceResponse::Error(_))));
    assert!(matches!(QueryRequest::from_payload(error()), Ok(QueryRequest::Error(_))));
    assert!(matches!(QueryResponse::from_payload(error()), Ok(QueryResponse::Error(_))));
}
