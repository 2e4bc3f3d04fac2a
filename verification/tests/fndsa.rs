//! FN-DSA-512 keys and signatures.

use pq_noise::error::DecodingError;
use pq_noise::fndsa::{Keypair, PublicKey, SecretKey};
use pq_noise::fndsa::{PUBLIC_KEY_LENGTH, SECRET_KEY_LENGTH, SIGNATURE_LENGTH};

#[test]
fn keypair_sign_verify_roundtrip() {
    let kp = Keypair::generate();
    let pk = kp.public();
    let msg = b"hello, post-quantum world";
    let sig = kp.sign(msg);

    assert_eq!(sig.len(), SIGNATURE_LENGTH);
    assert!(pk.verify(msg, &sig));
}

#[test]
fn tampered_sig_does_not_verify() {
    let kp = Keypair::generate();
    let pk = kp.public();
    let msg = b"important message";
    let mut sig = kp.sign(msg);
    sig[SIGNATURE_LENGTH / 2] ^= 0xAA;
    assert!(!pk.verify(msg, &sig));
}

#[test]
fn wrong_message_does_not_verify() {
    let kp = Keypair::generate();
    let pk = kp.public();
    let sig = kp.sign(b"message A");
    assert!(!pk.verify(b"message B", &sig));
}

#[test]
fn wrong_pubkey_does_not_verify() {
    let kp1 = Keypair::generate();
    let kp2 = Keypair::generate();
    let msg = b"hello";
    let sig = kp1.sign(msg);
    assert!(!kp2.public().verify(msg, &sig));
}

#[test]
fn pubkey_byte_roundtrip() {
    let kp = Keypair::generate();
    let pk1 = kp.public();
    let bytes = pk1.to_bytes();
    let pk2 = PublicKey::try_from_bytes(&bytes).expect("valid bytes");
    assert_eq!(pk1, pk2);
}

#[test]
fn pubkey_wrong_length_rejected() {
    assert!(PublicKey::try_from_bytes(&[0u8; 32]).is_err());
    assert!(PublicKey::try_from_bytes(&[0u8; PUBLIC_KEY_LENGTH + 1]).is_err());
}

#[test]
fn pubkey_invalid_bytes_rejected() {
    // Right length but not a valid encoded key.
    let bogus = [0u8; PUBLIC_KEY_LENGTH];
    assert!(PublicKey::try_from_bytes(&bogus).is_err());
}

#[test]
fn secret_key_byte_roundtrip() {
    let kp = Keypair::generate();
    let mut sk_bytes = kp.secret().to_bytes();
    let sk = SecretKey::try_from_bytes(&mut sk_bytes).expect("valid bytes");
    assert_eq!(sk.as_ref(), kp.secret().as_ref());
    assert!(sk_bytes.iter().all(|b| *b == 0), "input should be zeroed");
}

#[test]
fn lengths_are_those_of_degree_512() {
    assert_eq!(PUBLIC_KEY_LENGTH, fn_dsa::vrfy_key_size(fn_dsa::FN_DSA_LOGN_512));
    assert_eq!(SECRET_KEY_LENGTH, fn_dsa::sign_key_size(fn_dsa::FN_DSA_LOGN_512));
    assert_eq!(SIGNATURE_LENGTH, fn_dsa::signature_size(fn_dsa::FN_DSA_LOGN_512));
}

#[test]
fn refused_public_key_says_why() {
    match PublicKey::try_from_bytes(&[0u8; 32]) {
        Err(DecodingError::FailedToParse { what, cause }) => {
            assert_eq!(what, "FN-DSA-512 public key");
            assert_eq!(cause, "could not convert slice to array");
        }
        _ => panic!("a short key was accepted"),
    }
    match PublicKey::try_from_bytes(&[0u8; PUBLIC_KEY_LENGTH]) {
        Err(DecodingError::FailedToParse { what, cause }) => {
            assert_eq!(what, "FN-DSA-512 public key");
            assert_eq!(cause, "not a valid FN-DSA-512 verifying key encoding");
        }
        _ => panic!("an all-zero key was accepted"),
    }
}

#[test]
fn refused_secret_key_leaves_the_input() {
    let mut short = [7u8; 12];
    match SecretKey::try_from_bytes(&mut short) {
        Err(DecodingError::FailedToParse { what, cause }) => {
            assert_eq!(what, "FN-DSA-512 secret key");
            assert_eq!(cause, "could not convert slice to array");
        }
        _ => panic!("a short key was accepted"),
    }
    assert_eq!(short, [7u8; 12]);

    let mut bogus = [7u8; SECRET_KEY_LENGTH];
    match SecretKey::try_from_bytes(&mut bogus) {
        Err(DecodingError::FailedToParse { what, cause }) => {
            assert_eq!(what, "FN-DSA-512 secret key");
            assert_eq!(cause, "not a valid FN-DSA-512 signing key encoding");
        }
        _ => panic!("a malformed key was accepted"),
    }
    assert!(bogus.iter().all(|b| *b == 7));
}

#[test]
fn secret_key_gives_back_its_keypair() {
    let kp = Keypair::generate();
    let public = kp.public();
    let restored = Keypair::from(kp.secret());
    assert_eq!(restored.public(), public);
    let sig = restored.sign(b"signed after restoring");
    assert!(public.verify(b"signed after restoring", &sig));
    let secret = SecretKey::from(kp.clone());
    assert_eq!(secret.as_ref(), kp.secret().as_ref());
}

#[test]
fn fresh_pair_signs() {
    let (pair, sig) = Keypair::generate_and_sign(b"message");
    assert_eq!(sig.len(), SIGNATURE_LENGTH);
    assert!(pair.public().verify(b"message", &sig));
    assert!(!pair.public().verify(b"massage", &sig));
    let (_, empty) = Keypair::generate_and_sign(b"");
    assert_eq!(empty.len(), SIGNATURE_LENGTH);
}

#[test]
fn reloaded_pair_signs() {
    let pair = Keypair::generate();
    let mut bytes = pair.secret().to_bytes();
    let reloaded = Keypair::from(SecretKey::try_from_bytes(&mut bytes).unwrap());
    let sig = reloaded.sign(b"message");
    assert!(pair.public().verify(b"message", &sig));
}

#[test]
fn debug_texts_are_short() {
    let pair = Keypair::generate();
    let bytes = pair.public().to_bytes();
    let public = format!("FnDsaPublicKey({:02x?}…)", &bytes[..8]);
    assert_eq!(pair.public().debug_text(), public);
    assert_eq!(format!("{:?}", pair.public()), public);
    assert_eq!(format!("{:#?}", pair.public()), public);
    assert_eq!(format!("{pair:?}"), format!("FnDsaKeypair {{ public: {public} }}"));
    assert_eq!(format!("{pair:#?}"), format!("FnDsaKeypair {{\n    public: {public},\n}}"));
    assert_eq!(pair.debug_text(false), format!("{pair:?}"));
    assert_eq!(format!("{:?}", pair.secret()), "FnDsaSecretKey");
    assert_eq!(format!("{:?}", Some(pair.public())), format!("Some({public})"));
}

#[test]
fn coefficients_of_a_public_key_are_below_the_modulus() {
    let mut key = [0u8; PUBLIC_KEY_LENGTH];
    key[0] = 9;
    assert!(PublicKey::try_from_bytes(&key).is_ok());
    // The first coefficient is the first 14 bits after the header.
    key[1] = 0xc0;
    assert!(PublicKey::try_from_bytes(&key).is_ok());
    key[2] = 0x04;
    assert!(PublicKey::try_from_bytes(&key).is_err());
    key[1] = 0;
    key[2] = 0;
    // The last one is the last 14 bits.
    key[PUBLIC_KEY_LENGTH - 2] = 0x30;
    assert!(PublicKey::try_from_bytes(&key).is_ok());
    key[PUBLIC_KEY_LENGTH - 1] = 0x01;
    assert!(PublicKey::try_from_bytes(&key).is_err());
    key[PUBLIC_KEY_LENGTH - 1] = 0;
    key[0] = 8;
    assert!(PublicKey::try_from_bytes(&key).is_err());
}
