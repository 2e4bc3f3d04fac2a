//! Handshakes and sessions, driven in memory.

use bytes::BytesMut;
use pq_noise::classic_session::ClassicHandshakeSession;
use pq_noise::config::{fresh_pq_or_classic, pq_or_classic, Arm, Config, PqConfig};
use pq_noise::error::{Error, IoErrorKind};
use pq_noise::framed::Codec;
use pq_noise::framed_pq::{frame_arrived, PqCodec};
use pq_noise::handshake::State;
use pq_noise::handshake_pq::{HandshakeStep, PqState};
use pq_noise::identity::{IdentityKeypair, PeerId};
use pq_noise::output::{FlushAction, Next, Output, ReadAction, Sent, WriteAction};
use pq_noise::output_io::OutputIo;
use pq_noise::payload::NoiseHandshakePayload;
use pq_noise::pq_session::PqHandshakeSession;
use pq_noise::protocol::STATIC_KEY_DOMAIN;
use pq_noise::protocol_pq::{verify_pq_static_sig, PqStaticKeypair};

type PqSide = PqState<PqCodec<PqHandshakeSession>>;
type ClassicSide = State<Codec<ClassicHandshakeSession>>;

/// What a side did when it was given a turn.
#[derive(Debug, PartialEq)]
enum Turn {
    Acted,
    Waiting,
    Done,
}

fn pq_turn(side: &mut PqSide, inbox: &mut BytesMut, outbox: &mut BytesMut) -> Result<Turn, Error> {
    match side.next_step() {
        HandshakeStep::SendEmpty => side.send_empty(outbox)?,
        HandshakeStep::SendIdentity => {
            assert!(side.identity_fits());
            side.send_identity(outbox)?
        }
        HandshakeStep::RecvEmpty => match side.link_mut().decode(inbox) {
            Ok(None) => return Ok(Turn::Waiting),
            Ok(Some(p)) => side.recv_empty(Some(Ok(p)))?,
            Err(e) => side.recv_empty(Some(Err(e)))?,
        },
        HandshakeStep::RecvIdentity => match side.link_mut().decode(inbox) {
            Ok(None) => return Ok(Turn::Waiting),
            Ok(Some(p)) => side.recv_identity(Some(Ok(p)))?,
            Err(e) => side.recv_identity(Some(Err(e)))?,
        },
        HandshakeStep::Finish => return Ok(Turn::Done),
    }
    Ok(Turn::Acted)
}

fn classic_turn(
    side: &mut ClassicSide,
    inbox: &mut BytesMut,
    outbox: &mut BytesMut,
) -> Result<Turn, Error> {
    match side.next_step() {
        HandshakeStep::SendEmpty => side.send_empty(outbox)?,
        HandshakeStep::SendIdentity => side.send_identity(outbox)?,
        HandshakeStep::RecvEmpty => match side.link_mut().decode(inbox) {
            Ok(None) => return Ok(Turn::Waiting),
            Ok(Some(p)) => side.recv_empty(Some(Ok(p)))?,
            Err(e) => side.recv_empty(Some(Err(e)))?,
        },
        HandshakeStep::RecvIdentity => match side.link_mut().decode(inbox) {
            Ok(None) => return Ok(Turn::Waiting),
            Ok(Some(p)) => side.recv_identity(Some(Ok(p)))?,
            Err(e) => side.recv_identity(Some(Err(e)))?,
        },
        HandshakeStep::Finish => return Ok(Turn::Done),
    }
    Ok(Turn::Acted)
}

type Session = (PeerId, Output<OutputIo>);

/// Runs both sides of a pqXX handshake; no pipe ever holds more than `capacity`
/// bytes. Returns what the responder and the initiator got.
fn pq_handshake(
    responder: PqConfig,
    initiator: PqConfig,
    capacity: usize,
) -> Result<(Session, Session), Error> {
    let mut server = responder.into_session(false)?;
    let mut client = initiator.into_session(true)?;
    let mut to_server = BytesMut::new();
    let mut to_client = BytesMut::new();
    for _ in 0..16 {
        let c = pq_turn(&mut client, &mut to_client, &mut to_server)?;
        assert!(to_server.len() <= capacity);
        let s = pq_turn(&mut server, &mut to_server, &mut to_client)?;
        assert!(to_client.len() <= capacity);
        if c == Turn::Done && s == Turn::Done {
            let (client_key, server_io) = server.finish()?;
            let (server_key, client_io) = client.finish()?;
            return Ok((
                (client_key.to_peer_id(), server_io),
                (server_key.to_peer_id(), client_io),
            ));
        }
    }
    panic!("the handshake does not end");
}

fn classic_handshake(responder: Config, initiator: Config) -> Result<(Session, Session), Error> {
    let mut server = responder.into_responder()?;
    let mut client = initiator.into_initiator()?;
    let mut to_server = BytesMut::new();
    let mut to_client = BytesMut::new();
    for _ in 0..16 {
        let c = classic_turn(&mut client, &mut to_client, &mut to_server)?;
        let s = classic_turn(&mut server, &mut to_server, &mut to_client)?;
        if c == Turn::Done && s == Turn::Done {
            let (client_key, server_io) = server.finish()?;
            let (server_key, client_io) = client.finish()?;
            return Ok((
                (client_key.to_peer_id(), server_io),
                (server_key.to_peer_id(), client_io),
            ));
        }
    }
    panic!("the handshake does not end");
}

fn send_frame(session: &mut Output<OutputIo>, wire: &mut BytesMut) {
    let frame = session.frame().to_vec();
    session.link_mut().encode(&frame, wire).unwrap();
    session.on_sent::<()>(Sent::Done);
}

fn write_all(session: &mut Output<OutputIo>, wire: &mut BytesMut, data: &[u8]) {
    let mut rest = data;
    while !rest.is_empty() {
        match session.poll_write(rest) {
            WriteAction::Ready(n) => rest = &rest[n..],
            WriteAction::SendFrame => send_frame(session, wire),
        }
    }
}

fn flush(session: &mut Output<OutputIo>, wire: &mut BytesMut) {
    while matches!(session.poll_flush(), FlushAction::SendFrame) {
        send_frame(session, wire);
    }
}

fn read_exact(session: &mut Output<OutputIo>, wire: &mut BytesMut, buf: &mut [u8]) {
    let mut off = 0;
    while off < buf.len() {
        match session.poll_read(&mut buf[off..]) {
            ReadAction::Ready(n) => off += n,
            ReadAction::PollNext => match session.link_mut().decode(wire).unwrap() {
                Some(frame) => {
                    session.on_next::<()>(Next::Frame(frame));
                }
                None => panic!("nothing left to read"),
            },
        }
    }
}

#[test]
fn pq_xx_round_trip() {
    let server_id = IdentityKeypair::generate_ed25519();
    let client_id = IdentityKeypair::generate_ed25519();
    let server = PqConfig::new(&server_id).unwrap();
    let client = PqConfig::new(&client_id).unwrap();

    let ((reported_client_id, mut server_session), (reported_server_id, mut client_session)) =
        pq_handshake(server, client, 64 * 1024).expect("pqXX handshake completes");

    assert_eq!(reported_client_id, client_id.public().to_peer_id());
    assert_eq!(reported_server_id, server_id.public().to_peer_id());

    let payloads: &[&[u8]] = &[b"ping", b"hello, post-quantum world", &[0xAB; 4096]];
    let mut wire = BytesMut::new();
    for m in payloads {
        let len = (m.len() as u64).to_be_bytes();
        write_all(&mut client_session, &mut wire, &len);
        write_all(&mut client_session, &mut wire, m);
    }
    flush(&mut client_session, &mut wire);
    for m in payloads {
        let mut len_buf = [0u8; 8];
        read_exact(&mut server_session, &mut wire, &mut len_buf);
        let len = u64::from_be_bytes(len_buf);
        let mut buf = vec![0u8; len as usize];
        read_exact(&mut server_session, &mut wire, &mut buf);
        assert_eq!(buf.as_slice(), *m);
    }
    assert!(wire.is_empty());
}

#[test]
fn pq_or_classic_picks_pq_arm() {
    let a_id = IdentityKeypair::generate_ed25519();
    let b_id = IdentityKeypair::generate_ed25519();
    let a = pq_or_classic(&a_id).unwrap();
    let b = pq_or_classic(&b_id).unwrap();

    let (a, b) = match (
        a.into_arm("/noise/pqxx/1.0.0").unwrap(),
        b.into_arm("/noise/pqxx/1.0.0").unwrap(),
    ) {
        (Arm::Pq(a), Arm::Pq(b)) => (a, b),
        _ => panic!("the post-quantum arm was not picked"),
    };
    let ((server_saw_client, _), (client_saw_server, _)) =
        pq_handshake(a, b, 32 * 1024).expect("PQ arm succeeds");
    assert_eq!(server_saw_client, b_id.public().to_peer_id());
    assert_eq!(client_saw_server, a_id.public().to_peer_id());
}

#[test]
fn pq_or_classic_picks_classic_arm() {
    let a_id = IdentityKeypair::generate_ed25519();
    let b_id = IdentityKeypair::generate_ed25519();
    let a = pq_or_classic(&a_id).unwrap();
    let b = pq_or_classic(&b_id).unwrap();

    let (a, b) = match (a.into_arm("/noise").unwrap(), b.into_arm("/noise").unwrap()) {
        (Arm::Classic(a), Arm::Classic(b)) => (a, b),
        _ => panic!("the classic arm was not picked"),
    };
    let ((server_saw_client, _), (client_saw_server, _)) =
        classic_handshake(a, b).expect("classic arm succeeds");
    assert_eq!(server_saw_client, b_id.public().to_peer_id());
    assert_eq!(client_saw_server, a_id.public().to_peer_id());
}

#[test]
fn pq_or_classic_rejects_unknown_protocol() {
    let a_id = IdentityKeypair::generate_ed25519();
    let b_id = IdentityKeypair::generate_ed25519();
    let a = pq_or_classic(&a_id).unwrap();
    let b = pq_or_classic(&b_id).unwrap();

    let res_a = a.into_arm("/noise/wat/9.9.9");
    let res_b = b.into_arm("/noise/wat/9.9.9");
    assert!(res_a.is_err(), "unknown protocol must error out");
    match res_b {
        Err(Error::PqHandshake(text)) => {
            assert_eq!(text, "unexpected negotiated protocol: /noise/wat/9.9.9")
        }
        _ => panic!("unknown protocol must error out"),
    }
}

#[test]
fn pq_only_vs_classic_only_fails() {
    let a_id = IdentityKeypair::generate_ed25519();
    let b_id = IdentityKeypair::generate_ed25519();
    let mut pq = PqConfig::new(&a_id).unwrap().into_session(false).unwrap();
    let mut classic = Config::new(&b_id).unwrap().into_initiator().unwrap();

    let mut to_pq = BytesMut::new();
    let mut to_classic = BytesMut::new();
    let mut failed = false;
    for _ in 0..16 {
        let c = classic_turn(&mut classic, &mut to_classic, &mut to_pq);
        let p = pq_turn(&mut pq, &mut to_pq, &mut to_classic);
        if c.is_err() || p.is_err() {
            failed = true;
            break;
        }
        if matches!(c, Ok(Turn::Done)) && matches!(p, Ok(Turn::Done)) {
            break;
        }
    }
    assert!(failed, "PQ <-> classic must NOT successfully handshake");
}

// The identity may be of another kind: the handshake is the same.
#[test]
fn pq_handshake_with_fndsa_identity() {
    let server_id = IdentityKeypair::generate_fndsa();
    let client_id = IdentityKeypair::generate_fndsa();
    let server = PqConfig::new(&server_id).unwrap();
    let client = PqConfig::new(&client_id).unwrap();

    let ((reported_client_id, mut server_session), (reported_server_id, mut client_session)) =
        pq_handshake(server, client, 64 * 1024).expect("pqXX with FN-DSA identity completes");

    assert_eq!(reported_client_id, client_id.public().to_peer_id());
    assert_eq!(reported_server_id, server_id.public().to_peer_id());

    // Round-trip a small message to confirm the encrypted channel works.
    let msg = b"hello via FN-DSA-signed pq Noise";
    let mut wire = BytesMut::new();
    write_all(&mut client_session, &mut wire, msg);
    flush(&mut client_session, &mut wire);
    let mut buf = vec![0u8; msg.len()];
    read_exact(&mut server_session, &mut wire, &mut buf);
    assert_eq!(buf.as_slice(), msg);
}

// 8 KB pipes: the handshake must complete without overflowing them.
#[test]
fn pq_handshake_fits_in_one_buffer_pass() {
    let server_id = IdentityKeypair::generate_ed25519();
    let client_id = IdentityKeypair::generate_ed25519();
    let server = PqConfig::new(&server_id).unwrap();
    let client = PqConfig::new(&client_id).unwrap();

    let res = pq_handshake(server, client, 8 * 1024);
    assert!(res.is_ok(), "handshake completed within 8 KB pipes");
}

#[test]
fn keypair_generates_and_signs() {
    let id_keys = IdentityKeypair::generate_ed25519();
    let pq = PqStaticKeypair::new().expect("keygen");

    assert_eq!(pq.public().len(), 1184);

    let authentic = pq.into_authentic(&id_keys).expect("sign");
    verify_pq_static_sig(
        &id_keys.public(),
        authentic.keypair.public(),
        &authentic.identity.signature,
    )
    .expect("sig must verify");
}

#[test]
fn cross_domain_sig_does_not_verify() {
    // A signature made under the *classic* domain must NOT verify against the
    // PQ verifier: it protects against cross-protocol downgrade.
    let id_keys = IdentityKeypair::generate_ed25519();
    let pq = PqStaticKeypair::new().unwrap();

    let classic_sig = id_keys
        .sign(&[STATIC_KEY_DOMAIN.as_bytes(), pq.public()].concat())
        .unwrap();

    let result = verify_pq_static_sig(&id_keys.public(), pq.public(), &classic_sig);
    assert!(matches!(result, Err(Error::BadSignature)));
}

#[test]
fn pq_handshake_with_other_prologue_fails() {
    let server_id = IdentityKeypair::generate_ed25519();
    let client_id = IdentityKeypair::generate_ed25519();
    let server = PqConfig::new(&server_id).unwrap().with_prologue(vec![1, 2, 3]);
    let client = PqConfig::new(&client_id).unwrap().with_prologue(vec![1, 2, 4]);
    match pq_handshake(server, client, 64 * 1024) {
        Err(Error::Io(e)) => {
            assert_eq!(e.kind, IoErrorKind::InvalidData);
            assert_eq!(e.message, "Cipher(Decrypt)");
        }
        _ => panic!("different prologues must not lead to a session"),
    }
}

#[test]
fn pq_handshake_with_same_prologue_completes() {
    let server_id = IdentityKeypair::generate_ed25519();
    let client_id = IdentityKeypair::generate_fndsa();
    let server = PqConfig::new(&server_id).unwrap().with_prologue(vec![1, 2, 3]);
    let client = PqConfig::new(&client_id).unwrap().with_prologue(vec![1, 2, 3]);
    let ((client_seen, _), (server_seen, _)) = pq_handshake(server, client, 64 * 1024).unwrap();
    assert_eq!(client_seen, client_id.public().to_peer_id());
    assert_eq!(server_seen, server_id.public().to_peer_id());
}

#[test]
fn pq_session_refuses_a_tampered_frame() {
    let server_id = IdentityKeypair::generate_ed25519();
    let client_id = IdentityKeypair::generate_ed25519();
    let server = PqConfig::new(&server_id).unwrap();
    let client = PqConfig::new(&client_id).unwrap();
    let ((_, mut server_session), (_, mut client_session)) =
        pq_handshake(server, client, 64 * 1024).unwrap();

    let mut wire = BytesMut::new();
    write_all(&mut client_session, &mut wire, b"first");
    flush(&mut client_session, &mut wire);
    // The frame: its length, five bytes of ciphertext, a tag.
    assert_eq!(wire.len(), 2 + 5 + 16);
    let mut tampered = BytesMut::from(&wire[..]);
    tampered[4] ^= 1;
    let e = server_session.link_mut().decode(&mut tampered).unwrap_err();
    assert_eq!(e.message, "Cipher(Decrypt)");
    assert!(tampered.is_empty());
    // The frame that was not tampered with still opens.
    let mut buf = [0u8; 5];
    read_exact(&mut server_session, &mut wire, &mut buf);
    assert_eq!(&buf, b"first");

    let mut short = BytesMut::from(&[0u8, 3, 1, 2, 3][..]);
    let e = server_session.link_mut().decode(&mut short).unwrap_err();
    assert_eq!(e.message, "TooShort");
}

#[test]
fn sessions_carry_both_directions() {
    let a_id = IdentityKeypair::generate_ed25519();
    let b_id = IdentityKeypair::generate_ed25519();
    let ((_, mut server), (_, mut client)) =
        classic_handshake(Config::new(&a_id).unwrap(), Config::new(&b_id).unwrap()).unwrap();
    let mut up = BytesMut::new();
    let mut down = BytesMut::new();
    write_all(&mut client, &mut up, b"question");
    flush(&mut client, &mut up);
    write_all(&mut server, &mut down, b"answer");
    flush(&mut server, &mut down);
    let mut question = [0u8; 8];
    read_exact(&mut server, &mut up, &mut question);
    assert_eq!(&question, b"question");
    let mut answer = [0u8; 6];
    read_exact(&mut client, &mut down, &mut answer);
    assert_eq!(&answer, b"answer");

    let mut tampered = BytesMut::new();
    write_all(&mut client, &mut tampered, b"more");
    flush(&mut client, &mut tampered);
    tampered[2] ^= 0x80;
    let e = server.link_mut().decode(&mut tampered).unwrap_err();
    assert_eq!(e.message, "decrypt error");
}

#[test]
fn long_stream_is_cut_into_frames() {
    let a_id = IdentityKeypair::generate_ed25519();
    let b_id = IdentityKeypair::generate_ed25519();
    let ((_, mut server), (_, mut client)) = pq_handshake(
        PqConfig::new(&a_id).unwrap(),
        PqConfig::new(&b_id).unwrap(),
        64 * 1024,
    )
    .unwrap();
    let data: Vec<u8> = (0..200_000u32).map(|i| (i % 251) as u8).collect();
    let mut wire = BytesMut::new();
    write_all(&mut client, &mut wire, &data);
    flush(&mut client, &mut wire);
    // Three full frames and one with the rest, each with a prefix and a tag.
    assert_eq!(wire.len(), data.len() + 4 * (2 + 16));
    let mut got = vec![0u8; data.len()];
    // Odd sizes, so that reads and frames do not line up.
    for chunk in got.chunks_mut(777) {
        read_exact(&mut server, &mut wire, chunk);
    }
    assert!(got == data);
    assert!(wire.is_empty());
}

#[test]
fn finishing_too_early_fails() {
    let id = IdentityKeypair::generate_ed25519();
    let fresh = PqConfig::new(&id).unwrap().into_session(true).unwrap();
    assert!(fresh.is_initiator());
    assert!(matches!(fresh.finish(), Err(Error::AuthenticationFailed)));

    let fresh = Config::new(&id).unwrap().into_initiator().unwrap();
    match fresh.finish() {
        Err(Error::Io(e)) => {
            assert_eq!(e.kind, IoErrorKind::Other);
            assert_eq!(e.message, "expect key to always be present at end of XX session");
        }
        _ => panic!("a handshake that has not begun cannot be finished"),
    }

    // After two messages the remote's static key is known, but the handshake is
    // not over.
    let mut server = PqConfig::new(&id).unwrap().into_session(false).unwrap();
    let mut client = PqConfig::new(&id).unwrap().into_session(true).unwrap();
    let mut up = BytesMut::new();
    let mut down = BytesMut::new();
    pq_turn(&mut client, &mut down, &mut up).unwrap();
    pq_turn(&mut server, &mut up, &mut down).unwrap();
    pq_turn(&mut server, &mut up, &mut down).unwrap();
    pq_turn(&mut client, &mut down, &mut up).unwrap();
    match client.finish() {
        Err(Error::PqHandshake(text)) => assert_eq!(text, "finalize: InvalidState"),
        _ => panic!("a handshake cannot be finished half-way"),
    }

    let mut server = Config::new(&id).unwrap().into_responder().unwrap();
    let mut client = Config::new(&id).unwrap().into_initiator().unwrap();
    let mut up = BytesMut::new();
    let mut down = BytesMut::new();
    classic_turn(&mut client, &mut down, &mut up).unwrap();
    classic_turn(&mut server, &mut up, &mut down).unwrap();
    classic_turn(&mut server, &mut up, &mut down).unwrap();
    classic_turn(&mut client, &mut down, &mut up).unwrap();
    assert!(matches!(client.finish(), Err(Error::Noise(_))));
}

#[test]
fn writing_out_of_turn_fails() {
    let id = IdentityKeypair::generate_ed25519();
    let mut server = PqConfig::new(&id).unwrap().into_session(false).unwrap();
    let mut wire = BytesMut::new();
    match server.send_empty(&mut wire) {
        Err(Error::Io(e)) => assert_eq!(e.message, "InvalidState"),
        _ => panic!("a responder cannot send first"),
    }
    assert!(wire.is_empty());
    assert_eq!(server.next_step(), HandshakeStep::RecvEmpty);

    let mut server = Config::new(&id).unwrap().into_responder().unwrap();
    match server.send_empty(&mut wire) {
        Err(Error::Io(e)) => assert_eq!(e.message, "state error: NotTurnToWrite"),
        _ => panic!("a responder cannot send first"),
    }
    assert!(wire.is_empty());
}

#[test]
fn failed_handshake_stays_failed() {
    let id = IdentityKeypair::generate_ed25519();
    let mut server = PqConfig::new(&id).unwrap().into_session(false).unwrap();
    let mut client = PqConfig::new(&id).unwrap().into_session(true).unwrap();
    let mut up = BytesMut::new();
    let mut down = BytesMut::new();
    pq_turn(&mut client, &mut down, &mut up).unwrap();
    // e and an empty payload, after the prefix
    assert_eq!(up.len(), 2 + 1184);
    pq_turn(&mut server, &mut up, &mut down).unwrap();
    pq_turn(&mut server, &mut up, &mut down).unwrap();
    let last = down.len() - 1;
    down[last] ^= 1;
    match pq_turn(&mut client, &mut down, &mut up) {
        Err(Error::Io(e)) => assert_eq!(e.message, "Cipher(Decrypt)"),
        _ => panic!("a tampered message was accepted"),
    }
    match client.send_empty(&mut up) {
        Err(Error::Io(e)) => assert_eq!(e.message, "ErrorState"),
        _ => panic!("a failed handshake went on"),
    }
}

#[test]
fn missing_signature_fails_authentication() {
    let id = IdentityKeypair::generate_ed25519();
    let key = id.public();
    let mut side = PqConfig::new(&id).unwrap().into_session(true).unwrap();
    let payload = NoiseHandshakePayload {
        identity_key: key.encode_protobuf(),
        identity_sig: vec![],
        extensions: None,
    };
    side.recv_identity(Some(Ok(payload))).unwrap();
    let (_, side) = side.with_link(());
    assert!(matches!(side.authenticate(&[0u8; 1184]), Err(Error::AuthenticationFailed)));

    let mut side = PqConfig::new(&id).unwrap().into_session(true).unwrap();
    let payload = NoiseHandshakePayload {
        identity_key: key.encode_protobuf(),
        identity_sig: vec![7; 64],
        extensions: None,
    };
    side.recv_identity(Some(Ok(payload))).unwrap();
    let (_, side) = side.with_link(());
    assert!(matches!(side.authenticate(&[0u8; 1184]), Err(Error::BadSignature)));

    let mut side = PqConfig::new(&id).unwrap().into_session(true).unwrap();
    let payload = NoiseHandshakePayload {
        identity_key: vec![1, 2, 3],
        identity_sig: vec![7; 64],
        extensions: None,
    };
    assert!(matches!(side.recv_identity(Some(Ok(payload))), Err(Error::InvalidKey(_))));

    // The classic handshake counts a missing signature as a bad one.
    let mut side = Config::new(&id).unwrap().into_initiator().unwrap();
    let payload = NoiseHandshakePayload {
        identity_key: key.encode_protobuf(),
        identity_sig: vec![],
        extensions: None,
    };
    side.recv_identity(Some(Ok(payload))).unwrap();
    let (_, side) = side.with_link(());
    assert!(matches!(side.authenticate(&[0u8; 32]), Err(Error::BadSignature)));

    let side = Config::new(&id).unwrap().into_initiator().unwrap();
    let (_, side) = side.with_link(());
    assert!(matches!(side.authenticate(&[0u8; 32]), Err(Error::AuthenticationFailed)));
}

#[test]
fn ended_link_and_unexpected_payload() {
    let id = IdentityKeypair::generate_ed25519();
    let mut side = PqConfig::new(&id).unwrap().into_session(false).unwrap();
    match side.recv_empty(None) {
        Err(Error::Io(e)) => {
            assert_eq!(e.kind, IoErrorKind::UnexpectedEof);
            assert_eq!(e.message, "eof");
        }
        _ => panic!("nothing came"),
    }
    let payload = NoiseHandshakePayload {
        identity_key: vec![1],
        identity_sig: vec![],
        extensions: None,
    };
    match side.recv_empty(Some(Ok(payload))) {
        Err(Error::Io(e)) => {
            assert_eq!(e.kind, IoErrorKind::InvalidData);
            assert_eq!(e.message, "Expected empty payload.");
        }
        _ => panic!("the payload is not empty"),
    }
    assert_eq!(side.next_step(), HandshakeStep::RecvEmpty);
    side.recv_empty(Some(Ok(NoiseHandshakePayload::default()))).unwrap();
    assert_eq!(side.next_step(), HandshakeStep::SendIdentity);
}

#[test]
fn protocols_are_offered_in_order() {
    let id = IdentityKeypair::generate_ed25519();
    let both = pq_or_classic(&id).unwrap();
    assert_eq!(both.protocol_info(), ["/noise/pqxx/1.0.0", "/noise"]);
    assert_eq!(PqConfig::new(&id).unwrap().protocol_info(), ["/noise/pqxx/1.0.0"]);
    assert_eq!(Config::new(&id).unwrap().protocol_info(), ["/noise"]);
}

#[test]
fn payload_too_long_for_a_message_does_not_fit() {
    let id = IdentityKeypair::generate_ed25519();
    let mut side = PqConfig::new(&id).unwrap().into_session(true).unwrap();
    let mut payload = NoiseHandshakePayload {
        identity_key: vec![],
        identity_sig: vec![],
        extensions: None,
    };
    // The first message adds 1184 bytes to the payload, and the field adds 4.
    payload.identity_key = vec![0; 65535 - 1184 - 4];
    assert!(side.link_mut().fits(&payload));
    payload.identity_key.push(0);
    assert!(!side.link_mut().fits(&payload));
    assert!(!side.link_mut().is_finished());
}

#[test]
fn first_messages_end_in_the_payload() {
    let id = IdentityKeypair::generate_ed25519();
    let payload = NoiseHandshakePayload {
        identity_key: vec![5, 6],
        identity_sig: vec![],
        extensions: None,
    };
    let bytes = [0x0a, 2, 5, 6];

    let mut client = PqConfig::new(&id).unwrap().into_session(true).unwrap();
    let mut server = PqConfig::new(&id).unwrap().into_session(false).unwrap();
    let mut wire = BytesMut::new();
    client.link_mut().encode(&payload, &mut wire).unwrap();
    assert_eq!(wire.len(), 2 + 1184 + 4);
    assert_eq!(&wire[2 + 1184..], &bytes);
    let got = server.link_mut().decode(&mut wire).unwrap().unwrap();
    assert_eq!(got.identity_key, vec![5, 6]);
    assert!(wire.is_empty());

    let mut client = Config::new(&id).unwrap().into_initiator().unwrap();
    let mut server = Config::new(&id).unwrap().into_responder().unwrap();
    client.link_mut().encode(&payload, &mut wire).unwrap();
    assert_eq!(wire.len(), 2 + 32 + 4);
    assert_eq!(&wire[2 + 32..], &bytes);
    let got = server.link_mut().decode(&mut wire).unwrap().unwrap();
    assert_eq!(got.identity_key, vec![5, 6]);
    assert!(wire.is_empty());
}

#[test]
fn bytes_that_are_no_identity_are_refused() {
    let id = IdentityKeypair::generate_ed25519();
    let mut side = PqConfig::new(&id).unwrap().into_session(true).unwrap();
    let mut wire = BytesMut::new();
    side.send_empty(&mut wire).unwrap();
    let payload = NoiseHandshakePayload {
        identity_key: vec![1, 2, 3],
        identity_sig: vec![4],
        extensions: None,
    };
    assert!(matches!(side.recv_identity(Some(Ok(payload))), Err(Error::InvalidKey(_))));
    assert_eq!(side.next_step(), HandshakeStep::RecvIdentity);
}

#[test]
fn signature_of_another_key_fails_authentication() {
    let server_id = IdentityKeypair::generate_ed25519();
    let client_id = IdentityKeypair::generate_ed25519();
    let mut server = PqConfig::new(&server_id).unwrap().into_session(false).unwrap();
    let mut client = PqConfig::new(&client_id).unwrap().into_session(true).unwrap();
    let mut up = BytesMut::new();
    let mut down = BytesMut::new();
    assert_eq!(pq_turn(&mut client, &mut down, &mut up).unwrap(), Turn::Acted);
    assert_eq!(pq_turn(&mut server, &mut up, &mut down).unwrap(), Turn::Acted);
    assert_eq!(pq_turn(&mut server, &mut up, &mut down).unwrap(), Turn::Acted);
    let mut payload = client.link_mut().decode(&mut down).unwrap().unwrap();
    payload.identity_key = client_id.public().encode_protobuf();
    client.recv_identity(Some(Ok(payload))).unwrap();
    assert_eq!(pq_turn(&mut client, &mut down, &mut up).unwrap(), Turn::Acted);
    assert_eq!(pq_turn(&mut server, &mut up, &mut down).unwrap(), Turn::Acted);
    assert_eq!(pq_turn(&mut server, &mut up, &mut down).unwrap(), Turn::Acted);
    assert_eq!(pq_turn(&mut client, &mut down, &mut up).unwrap(), Turn::Acted);
    assert!(server.finish().is_ok());
    assert!(matches!(client.finish(), Err(Error::BadSignature)));
}

#[test]
fn copies_of_a_configuration_are_the_same() {
    let a_id = IdentityKeypair::generate_ed25519();
    let b_id = IdentityKeypair::generate_fndsa();
    let a = PqConfig::new(&a_id).unwrap().with_prologue(vec![1, 2]);
    let b = PqConfig::new(&b_id).unwrap().with_prologue(vec![1, 2]);
    for _ in 0..2 {
        let ((client, _), (server, _)) = pq_handshake(a.clone(), b.clone(), 4096).unwrap();
        assert_eq!(client, b_id.public().to_peer_id());
        assert_eq!(server, a_id.public().to_peer_id());
    }
    let both = pq_or_classic(&a_id).unwrap().clone();
    assert!(matches!(both.clone().into_arm("/noise/pqxx/1.0.0"), Ok(Arm::Pq(_))));
    assert!(matches!(both.into_arm("/noise"), Ok(Arm::Classic(_))));
}

#[test]
fn fresh_identity_has_both_arms() {
    let (id, both) = fresh_pq_or_classic().unwrap();
    let (other_id, other) = fresh_pq_or_classic().unwrap();
    let (pq, other_pq) = match (
        both.clone().into_arm("/noise/pqxx/1.0.0").unwrap(),
        other.clone().into_arm("/noise/pqxx/1.0.0").unwrap(),
    ) {
        (Arm::Pq(a), Arm::Pq(b)) => (a, b),
        _ => panic!("not the post-quantum arm"),
    };
    let ((client, _), (server, _)) = pq_handshake(pq, other_pq, 4096).unwrap();
    assert_eq!(client, other_id.public().to_peer_id());
    assert_eq!(server, id.public().to_peer_id());
    let (classic, other_classic) =
        match (both.into_arm("/noise").unwrap(), other.into_arm("/noise").unwrap()) {
            (Arm::Classic(a), Arm::Classic(b)) => (a, b),
            _ => panic!("not the classic arm"),
        };
    let ((client, _), (server, _)) = classic_handshake(classic, other_classic).unwrap();
    assert_eq!(client, other_id.public().to_peer_id());
    assert_eq!(server, id.public().to_peer_id());
}

#[test]
fn count_of_messages_stops_at_the_end() {
    let id = IdentityKeypair::generate_ed25519();
    let mut side = PqConfig::new(&id).unwrap().into_session(true).unwrap();
    for _ in 0..6 {
        side.sent();
    }
    assert_eq!(side.next_step(), HandshakeStep::Finish);
    side.recv_empty(Some(Ok(NoiseHandshakePayload::default()))).unwrap();
    assert_eq!(side.next_step(), HandshakeStep::Finish);

    let mut side = Config::new(&id).unwrap().into_initiator().unwrap();
    for _ in 0..6 {
        side.sent();
    }
    side.recv_empty(Some(Ok(NoiseHandshakePayload::default()))).unwrap();
    assert_eq!(side.next_step(), HandshakeStep::Finish);
}

#[test]
fn whole_frames_are_told_from_parts() {
    assert!(!frame_arrived(&BytesMut::from(&[0u8][..])));
    assert!(!frame_arrived(&BytesMut::from(&[0u8, 2, 7][..])));
    assert!(frame_arrived(&BytesMut::from(&[0u8, 2, 7, 8][..])));
    assert!(frame_arrived(&BytesMut::from(&[0u8, 0][..])));
}
