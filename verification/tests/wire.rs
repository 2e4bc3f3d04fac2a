//! Frames, payloads, identities and certificate hashes as bytes.

use bytes::{Bytes, BytesMut};
use clatter::bytearray::ByteArray;
use pq_noise::certhash::{certhashes_to_string, distinct, is_subset, Certhash};
use pq_noise::config::Config;
use pq_noise::error::{DecodingError, Error};
use pq_noise::framed_pq::{decode_length_prefixed_pq, encode_length_prefixed_pq};
use pq_noise::identity::{IdentityKeypair, IdentityPublicKey};
use pq_noise::output::{FlushAction, Next, Output, ReadAction, ReadOutcome};
use pq_noise::output::{SendOutcome, Sent, WriteAction, MAX_FRAME_LEN};
use pq_noise::payload::{NoiseExtensions, NoiseHandshakePayload};
use pq_noise::varint::{read_varint, sizeof_varint, write_varint};
use quick_protobuf::BytesReader;

#[test]
fn frame_is_prefix_and_message() {
    let mut wire = BytesMut::new();
    encode_length_prefixed_pq(&[9; 0x0102], &mut wire);
    assert_eq!(&wire[..2], &[0x01, 0x02]);
    assert_eq!(wire.len(), 2 + 0x0102);
    encode_length_prefixed_pq(b"", &mut wire);
    encode_length_prefixed_pq(b"next", &mut wire);

    assert_eq!(decode_length_prefixed_pq(&mut wire).unwrap(), Bytes::from(vec![9; 0x0102]));
    assert_eq!(decode_length_prefixed_pq(&mut wire).unwrap(), Bytes::new());
    assert_eq!(decode_length_prefixed_pq(&mut wire).unwrap(), Bytes::from_static(b"next"));
    assert!(decode_length_prefixed_pq(&mut wire).is_none());
}

#[test]
fn partial_frame_is_left_alone() {
    let mut whole = BytesMut::new();
    encode_length_prefixed_pq(b"message", &mut whole);
    for n in 0..whole.len() {
        let mut part = BytesMut::from(&whole[..n]);
        assert!(decode_length_prefixed_pq(&mut part).is_none());
        assert_eq!(part, whole[..n]);
    }
    assert_eq!(decode_length_prefixed_pq(&mut whole).unwrap(), Bytes::from_static(b"message"));
}

#[test]
fn prefix_counts_modulo_65536() {
    let mut wire = BytesMut::new();
    encode_length_prefixed_pq(&vec![5u8; 65536 + 3], &mut wire);
    assert_eq!(&wire[..2], &[0, 3]);
    assert_eq!(decode_length_prefixed_pq(&mut wire).unwrap(), Bytes::from_static(&[5, 5, 5]));
    assert_eq!(wire.len(), 65536);
}

#[test]
fn varints_read_as_quick_protobuf_reads_them() {
    let cases: &[&[u8]] = &[
        &[],
        &[0],
        &[0x7f],
        &[0x80],
        &[0x80, 0x01],
        &[0xac, 0x02],
        &[0xff, 0xff, 0xff, 0xff, 0x0f],
        &[0xff, 0xff, 0xff, 0xff, 0x7f],
        &[0xff, 0xff, 0xff, 0xff, 0xff, 0xff, 0xff, 0xff, 0xff, 0x01],
        &[0xff, 0xff, 0xff, 0xff, 0xff, 0xff, 0xff, 0xff, 0xff, 0x7f],
        &[0xff, 0xff, 0xff, 0xff, 0xff, 0xff, 0xff, 0xff, 0xff, 0xff],
        &[0x81, 0x80, 0x80, 0x80, 0x80, 0x80, 0x80, 0x80, 0x80, 0x00, 0x55],
        &[0x80, 0x80, 0x80, 0x80, 0x80, 0x80, 0x80, 0x80, 0x80, 0x80, 0x01],
    ];
    for bytes in cases {
        let ours = read_varint(bytes);
        let mut reader = BytesReader::from_bytes(bytes);
        match reader.read_varint64(bytes) {
            Ok(value) => {
                let used = bytes.len() - reader.len();
                assert_eq!(ours, Some((value, used)), "{:?}", bytes);
            }
            Err(_) => assert_eq!(ours, None, "{:?}", bytes),
        }
        let mut reader = BytesReader::from_bytes(bytes);
        if let Ok(value) = reader.read_varint32(bytes) {
            assert_eq!(ours.unwrap().0 as u32, value);
        }
    }
}

#[test]
fn varints_are_written_as_quick_protobuf_writes_them() {
    for shift in 0..64 {
        for delta in 0..3u64 {
            let value = (1u64 << shift).wrapping_sub(1).wrapping_add(delta);
            let mut out = BytesMut::new();
            write_varint(&mut out, value);
            let mut expected = Vec::new();
            quick_protobuf::Writer::new(&mut expected).write_varint(value).unwrap();
            assert_eq!(&out[..], &expected[..]);
            assert_eq!(sizeof_varint(value), expected.len());
            assert_eq!(read_varint(&out), Some((value, expected.len())));
        }
    }
}

fn encoded(p: &NoiseHandshakePayload) -> Vec<u8> {
    let mut out = BytesMut::new();
    p.write_message(&mut out);
    assert_eq!(out.len(), p.get_size());
    out.to_vec()
}

#[test]
fn payload_bytes() {
    assert_eq!(encoded(&NoiseHandshakePayload::default()), Vec::<u8>::new());
    let p = NoiseHandshakePayload {
        identity_key: vec![1, 2, 3],
        identity_sig: vec![4, 5],
        extensions: None,
    };
    assert_eq!(encoded(&p), vec![0x0a, 3, 1, 2, 3, 0x12, 2, 4, 5]);
    let p = NoiseHandshakePayload {
        identity_key: vec![],
        identity_sig: vec![],
        extensions: Some(NoiseExtensions {
            webtransport_certhashes: vec![vec![7], vec![]],
            stream_muxers: vec!["yamux".to_string(), "".to_string()],
        }),
    };
    assert_eq!(
        encoded(&p),
        vec![
            0x22, 14, 0x0a, 1, 7, 0x0a, 0, 0x12, 5, b'y', b'a', b'm', b'u', b'x', 0x12, 0
        ]
    );
}

#[test]
fn payload_round_trip() {
    let long = NoiseHandshakePayload {
        identity_key: (0..300u32).map(|i| i as u8).collect(),
        identity_sig: vec![0xee; 666],
        extensions: Some(NoiseExtensions {
            webtransport_certhashes: vec![vec![0x12; 34], vec![], vec![1]],
            stream_muxers: vec!["/yamux/1.0.0".to_string(), "\u{e9}\u{1f600}".to_string()],
        }),
    };
    assert_eq!(NoiseHandshakePayload::from_reader(&encoded(&long)).unwrap(), long);
    let none = NoiseHandshakePayload {
        identity_key: vec![],
        identity_sig: vec![],
        extensions: Some(NoiseExtensions::default()),
    };
    assert_eq!(encoded(&none), vec![0x22, 0]);
    assert_eq!(NoiseHandshakePayload::from_reader(&[0x22, 0]).unwrap(), none);
    assert_eq!(
        NoiseHandshakePayload::from_reader(&[]).unwrap(),
        NoiseHandshakePayload::default()
    );
}

#[test]
fn payload_reader_is_lenient_and_strict_where_it_should_be() {
    // The last of several fields counts; unknown fields of every wire type are
    // passed over.
    let bytes = [
        0x0a, 1, 1, // identity key
        0x0a, 2, 2, 3, // and again
        0x18, 0x96, 0x01, // field 3, a number
        0x29, 1, 2, 3, 4, 5, 6, 7, 8, // field 5, eight bytes
        0x35, 1, 2, 3, 4, // field 6, four bytes
        0x3a, 2, 9, 9, // field 7, length-delimited
        0x92, 0x00, 1, 8, // the signature, with a tag longer than need be
    ];
    let p = NoiseHandshakePayload::from_reader(&bytes).unwrap();
    assert_eq!(p.identity_key, vec![2, 3]);
    assert_eq!(p.identity_sig, vec![8]);
    assert!(p.extensions.is_none());

    let refused: &[&[u8]] = &[
        &[0x0a],                   // no length
        &[0x0a, 5, 1],             // cut off
        &[0x0b],                   // a group begins
        &[0x0c],                   // a group ends
        &[0x0e],                   // no wire type
        &[0x29, 1, 2],             // eight bytes cut off
        &[0x35, 1],                // four bytes cut off
        &[0x3a, 0x80],             // length cut off
        &[0x3a, 4, 1],             // unknown field cut off
        &[0x22, 2, 0x0a, 5],       // extensions that overrun their length
        &[0x22, 4, 0x12, 2, 0xff, 0xfe], // no UTF-8
        &[0x80, 0x80, 0x80, 0x80, 0x80, 0x80, 0x80, 0x80, 0x80, 0x80], // endless
    ];
    for bytes in refused {
        assert!(NoiseHandshakePayload::from_reader(bytes).is_err(), "{:?}", bytes);
    }
}

#[test]
fn ed25519_identity_is_that_of_libp2p() {
    let keypair = IdentityKeypair::generate_ed25519();
    let key = keypair.public();
    let inner = match &key {
        IdentityPublicKey::Libp2p(inner) => inner.clone(),
        IdentityPublicKey::FnDsa(_) => panic!("not an Ed25519 key"),
    };
    let bytes = key.encode_protobuf();
    assert_eq!(bytes, inner.encode_protobuf());
    assert_eq!(&bytes[..4], &[0x08, 0x01, 0x12, 0x20]);
    assert_eq!(bytes.len(), 36);
    assert_eq!(IdentityPublicKey::try_decode_protobuf(&bytes).unwrap(), key);
    assert_eq!(key.to_peer_id().to_bytes(), inner.to_peer_id().to_bytes());
    assert_eq!(&key.to_peer_id().to_bytes()[..2], &[0x00, 0x24]);

    let sig = keypair.sign(b"message").unwrap();
    assert_eq!(sig.len(), 64);
    assert!(key.verify(b"message", &sig));
    assert!(!key.verify(b"massage", &sig));
    assert!(inner.verify(b"message", &sig));
    assert_eq!(key.clone(), key);
}

#[test]
fn fndsa_identity_travels_as_bytes() {
    let keypair = IdentityKeypair::generate_fndsa();
    let key = keypair.public();
    let bytes = key.encode_protobuf();
    assert_eq!(bytes.len(), 902);
    assert_eq!(&bytes[..5], &[0x08, 0x04, 0x12, 0x81, 0x07]);
    assert_eq!(IdentityPublicKey::try_decode_protobuf(&bytes).unwrap(), key);
    let id = key.to_peer_id().to_bytes();
    assert_eq!(&id[..2], &[0x12, 0x20]);
    assert_eq!(id.len(), 34);
    // The form of a peer id, to the crate that defines it.
    assert_eq!(libp2p_identity::PeerId::from_bytes(&id).unwrap().to_bytes(), id);

    let sig = keypair.sign(b"message").unwrap();
    assert!(key.verify(b"message", &sig));
    assert!(!key.verify(b"massage", &sig));

    let mut broken = bytes.clone();
    broken[5] ^= 0xff;
    match IdentityPublicKey::try_decode_protobuf(&broken) {
        Err(DecodingError::FailedToParse { what, cause }) => {
            assert_eq!(what, "FN-DSA-512 public key");
            assert_eq!(cause, "not a valid FN-DSA-512 verifying key encoding");
        }
        _ => panic!("a broken key was accepted"),
    }
    assert!(matches!(
        IdentityPublicKey::try_decode_protobuf(&bytes[..901]),
        Err(DecodingError::Identity(_))
    ));
}

#[test]
fn sha256_peer_id_of_a_known_key() {
    // The digest in a hashed peer id is the SHA-256 digest of the encoded key.
    let keypair = IdentityKeypair::generate_fndsa();
    let key = keypair.public();
    let digest = clatter_sha256(&key.encode_protobuf());
    assert_eq!(&key.to_peer_id().to_bytes()[2..], &digest[..]);
    assert_eq!(
        clatter_sha256(b"abc")[..4],
        [0xba, 0x78, 0x16, 0xbf],
        "the digest of \"abc\" in the standard"
    );
}

fn clatter_sha256(data: &[u8]) -> Vec<u8> {
    <clatter::crypto::hash::Sha256 as clatter::traits::Hash>::hash(data).as_slice().to_vec()
}

#[test]
fn certhash_bytes_and_text() {
    let hash = Certhash::wrap(0x12, vec![0xab; 32]).unwrap();
    let bytes = hash.to_bytes();
    assert_eq!(&bytes[..2], &[0x12, 0x20]);
    assert_eq!(&bytes[2..], &[0xab; 32]);
    assert_eq!(Certhash::read(&bytes).unwrap(), hash);
    assert!(Certhash::read(&bytes[..20]).is_none());
    assert!(Certhash::wrap(0x12, vec![0; 65]).is_none());

    let other = Certhash::wrap(0x1234, vec![1, 2]).unwrap();
    assert_eq!(other.to_bytes(), vec![0xb4, 0x24, 2, 1, 2]);
    let both = vec![hash.clone(), other.clone()];
    let text = certhashes_to_string(&both);
    let one = certhashes_to_string(&vec![hash]);
    let two = certhashes_to_string(&vec![other]);
    assert!(one.starts_with("/certhash/u"));
    assert_eq!(text, one + &two);
    assert_eq!(certhashes_to_string(&vec![]), "");
}

#[test]
fn certhash_sets() {
    let a = Certhash::wrap(1, vec![1]).unwrap();
    let b = Certhash::wrap(1, vec![2]).unwrap();
    let c = Certhash::wrap(2, vec![1]).unwrap();
    let many = vec![a.clone(), b.clone(), a.clone(), c.clone(), b.clone()];
    assert_eq!(distinct(&many), vec![a.clone(), b.clone(), c.clone()]);
    assert!(is_subset(&vec![c.clone(), a.clone()], &many));
    assert!(is_subset(&vec![], &many));
    assert!(!is_subset(&vec![a.clone(), b], &vec![a, c]));
}

/// Runs a classic handshake between a responder and an initiator with the given
/// certificate hashes, and returns what the initiator gets.
fn classic_with_certhashes(report: Vec<Certhash>, expect: Vec<Certhash>) -> Result<(), Error> {
    let a = IdentityKeypair::generate_ed25519();
    let b = IdentityKeypair::generate_ed25519();
    let mut server = Config::new(&a)
        .unwrap()
        .with_prologue(vec![7])
        .with_webtransport_certhashes(report)
        .clone()
        .into_responder()
        .unwrap();
    let mut client = Config::new(&b)
        .unwrap()
        .with_webtransport_certhashes(expect)
        .with_prologue(vec![7])
        .into_initiator()
        .unwrap();
    let mut up = BytesMut::new();
    let mut down = BytesMut::new();
    client.send_empty(&mut up).unwrap();
    let p = server.link_mut().decode(&mut up).unwrap().unwrap();
    server.recv_empty(Some(Ok(p))).unwrap();
    server.send_identity(&mut down).unwrap();
    let p = client.link_mut().decode(&mut down).unwrap().unwrap();
    client.recv_identity(Some(Ok(p))).unwrap();
    client.send_identity(&mut up).unwrap();
    let p = server.link_mut().decode(&mut up).unwrap().unwrap();
    assert!(p.extensions.is_none(), "only a responder reports certificate hashes");
    server.recv_identity(Some(Ok(p))).unwrap();
    server.finish().map(|_| ())?;
    client.finish().map(|_| ())
}

#[test]
fn initiator_insists_on_certhashes() {
    let a = Certhash::wrap(0x12, vec![1; 32]).unwrap();
    let b = Certhash::wrap(0x12, vec![2; 32]).unwrap();
    let c = Certhash::wrap(0x12, vec![3; 32]).unwrap();
    assert!(classic_with_certhashes(vec![], vec![]).is_ok());
    assert!(classic_with_certhashes(vec![a.clone()], vec![]).is_ok());
    assert!(classic_with_certhashes(vec![a.clone(), b.clone()], vec![b.clone()]).is_ok());
    match classic_with_certhashes(vec![a.clone(), b.clone()], vec![b.clone(), c.clone()]) {
        Err(Error::UnknownWebTransportCerthashes(expected, received)) => {
            assert_eq!(expected, vec![b.clone(), c.clone()]);
            assert_eq!(received, vec![a, b]);
        }
        _ => panic!("a hash is missing"),
    }
    match classic_with_certhashes(vec![], vec![c.clone()]) {
        Err(Error::UnknownWebTransportCerthashes(expected, received)) => {
            assert_eq!(expected, vec![c]);
            assert_eq!(received, vec![]);
        }
        _ => panic!("no hash was reported"),
    }
}

#[test]
fn reads_are_served_from_the_last_frame() {
    let mut out = Output::new(());
    let mut buf = [0u8; 4];
    assert!(matches!(out.poll_read(&mut buf), ReadAction::PollNext));
    assert!(matches!(out.on_next::<()>(Next::Pending), ReadOutcome::Pending));
    assert!(matches!(out.on_next::<()>(Next::End), ReadOutcome::Ready(Ok(0))));
    assert!(matches!(out.on_next(Next::Failed("broken")), ReadOutcome::Ready(Err("broken"))));
    // An empty frame hands out nothing; the next one is polled for.
    assert!(matches!(out.on_next::<()>(Next::Frame(Bytes::new())), ReadOutcome::Again));
    assert!(matches!(out.poll_read(&mut buf), ReadAction::PollNext));

    let frame = Bytes::from_static(b"abcdef");
    assert!(matches!(out.on_next::<()>(Next::Frame(frame)), ReadOutcome::Again));
    assert!(matches!(out.poll_read(&mut buf), ReadAction::Ready(4)));
    assert_eq!(&buf, b"abcd");
    assert!(matches!(out.poll_read(&mut []), ReadAction::Ready(0)));
    assert!(matches!(out.poll_read(&mut buf), ReadAction::Ready(2)));
    assert_eq!(&buf, b"efcd");
    assert!(matches!(out.poll_read(&mut buf), ReadAction::PollNext));
    out.into_link();
}

#[test]
fn writes_are_gathered_into_frames() {
    let mut out = Output::new(());
    assert!(matches!(out.poll_flush(), FlushAction::FlushLink));
    assert!(matches!(out.poll_write(b"abc"), WriteAction::Ready(3)));
    assert!(matches!(out.poll_write(b""), WriteAction::Ready(0)));
    assert!(matches!(out.poll_write(b"de"), WriteAction::Ready(2)));
    assert!(matches!(out.poll_flush(), FlushAction::SendFrame));
    assert_eq!(out.frame(), b"abcde");
    // A frame that could not be sent is kept.
    assert!(matches!(out.on_sent::<()>(Sent::Pending), SendOutcome::Pending));
    assert!(matches!(out.on_sent(Sent::Failed("full")), SendOutcome::Failed("full")));
    assert_eq!(out.frame(), b"abcde");
    assert!(matches!(out.on_sent::<()>(Sent::Done), SendOutcome::Again));
    assert!(matches!(out.poll_flush(), FlushAction::FlushLink));

    let big = vec![1u8; MAX_FRAME_LEN + 10];
    assert!(matches!(out.poll_write(b"xy"), WriteAction::Ready(2)));
    match out.poll_write(&big) {
        WriteAction::Ready(n) => assert_eq!(n, MAX_FRAME_LEN - 2),
        WriteAction::SendFrame => panic!("the frame is not full"),
    }
    assert!(matches!(out.poll_write(b"z"), WriteAction::SendFrame));
    assert_eq!(out.frame().len(), MAX_FRAME_LEN);
    assert_eq!(&out.frame()[..3], b"xy\x01");
    assert!(matches!(out.on_sent::<()>(Sent::Done), SendOutcome::Again));
    assert!(matches!(out.poll_write(b"z"), WriteAction::Ready(1)));
    assert_eq!(out.frame(), b"z");
    assert_eq!(MAX_FRAME_LEN, 65535 - 1024);
}
