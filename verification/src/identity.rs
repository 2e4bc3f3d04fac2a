//! The long-lived identity keys of peers.
//!
//! An identity is a key of the `libp2p_identity` crate (built here for Ed25519
//! alone) or an FN-DSA-512 key. What a handshake needs of it is the same for
//! both: to sign, to verify, and to travel as bytes.

use vstd::prelude::*;
use vstd::slice::slice_subrange;
use vstd::slice::slice_to_vec;
use clatter::bytearray::ByteArray;
use clatter::crypto::hash::Sha256;
use libp2p_identity::Keypair as Libp2pKeypair;
use libp2p_identity::PublicKey as Libp2pPublicKey;
use libp2p_identity::DecodingError as Libp2pDecodingError;
use libp2p_identity::SigningError as Libp2pSigningError;
use crate::error::DecodingError;
use crate::fndsa;
use crate::fndsa::keygen_makes;
use crate::fndsa::signature_verifies;
use crate::fndsa::signing_makes;
use crate::fndsa::sound_signing_key;
use crate::fndsa::verifying_key_decodes;
use crate::fndsa::verifying_key_of;

verus! {

#[verifier::external_type_specification]
#[verifier::external_body]
pub struct ExLibp2pKeypair(Libp2pKeypair);

#[verifier::external_type_specification]
#[verifier::external_body]
pub struct ExLibp2pPublicKey(Libp2pPublicKey);

// ---------------------------------------------------------------------------
// Keys of `libp2p_identity`
// ---------------------------------------------------------------------------

/// A public key as `PublicKey::encode_protobuf` writes it.
pub uninterp spec fn libp2p_key(key: Libp2pPublicKey) -> Seq<u8>;

/// The public key of a pair, as `PublicKey::encode_protobuf` writes it.
pub uninterp spec fn libp2p_pair_key(pair: Libp2pKeypair) -> Seq<u8>;

/// Whether `PublicKey::verify` accepts a signature under the key that is
/// written as `key`.
pub uninterp spec fn libp2p_verifies(key: Seq<u8>, message: Seq<u8>, signature: Seq<u8>) -> bool;

/// The key, as it is written, that `PublicKey::try_decode_protobuf` makes of
/// some bytes: `None` where it refuses them.
pub uninterp spec fn libp2p_decodes(bytes: Seq<u8>) -> Option<Seq<u8>>;

/// Length of an Ed25519 public key as `libp2p_identity` writes it.
pub const LIBP2P_KEY_LENGTH: usize = 36;

/// What holds of a public key as it is written: it takes 36 bytes, and they
/// decode to the same key.
pub open spec fn libp2p_written(key: Seq<u8>) -> bool {
    key.len() == LIBP2P_KEY_LENGTH && libp2p_decodes(key) == Some(key)
}

/// What stands before the 32 bytes of an Ed25519 key as it is written: the key
/// type (1) and the field that holds the key, with its length.
pub open spec fn ed25519_header() -> Seq<u8> {
    seq![0x08u8, 0x01u8, 0x12u8, 0x20u8]
}

/// Whether `Keypair::generate_ed25519` can make a pair with the public key that
/// is written as `key`.
pub uninterp spec fn ed25519_generates(key: Seq<u8>) -> bool;

/// `Keypair::generate_ed25519`. Which pair comes out is left to chance; its
/// public key is written as an Ed25519 key, and what is written decodes to
/// itself.
#[verifier::external_body]
fn libp2p_generate_ed25519() -> (r: Libp2pKeypair)
    ensures
        ed25519_generates(libp2p_pair_key(r)),
        libp2p_written(libp2p_pair_key(r)),
        libp2p_pair_key(r).take(4) == ed25519_header(),
{
    Libp2pKeypair::generate_ed25519()
}

/// `Keypair::sign`: with an Ed25519 pair, always a signature, of 64 bytes, and
/// one that the public key of the pair accepts.
#[verifier::external_body]
fn libp2p_sign(pair: &Libp2pKeypair, message: &[u8]) -> (r: Result<Vec<u8>, Libp2pSigningError>)
    ensures
        match r {
            Ok(signature) => {
                &&& signature@.len() == 64
                &&& libp2p_verifies(libp2p_pair_key(*pair), message@, signature@)
            },
            Err(_) => false,
        },
{
    pair.sign(message)
}

/// `Keypair::public`. An Ed25519 key, as it is written, decodes to itself.
#[verifier::external_body]
fn libp2p_public(pair: &Libp2pKeypair) -> (r: Libp2pPublicKey)
    ensures
        libp2p_key(r) == libp2p_pair_key(*pair),
        libp2p_written(libp2p_key(r)),
{
    pair.public()
}

/// `PublicKey::verify`.
#[verifier::external_body]
fn libp2p_verify(key: &Libp2pPublicKey, message: &[u8], signature: &[u8]) -> (r: bool)
    ensures
        r == libp2p_verifies(libp2p_key(*key), message@, signature@),
{
    key.verify(message, signature)
}

/// `PublicKey::encode_protobuf`. An Ed25519 key, as it is written, decodes to
/// itself.
#[verifier::external_body]
fn libp2p_encode(key: &Libp2pPublicKey) -> (r: Vec<u8>)
    ensures
        r@ == libp2p_key(*key),
        libp2p_written(r@),
{
    key.encode_protobuf()
}

/// `PublicKey::try_decode_protobuf`.
#[verifier::external_body]
fn libp2p_decode(bytes: &[u8]) -> (r: Result<Libp2pPublicKey, Libp2pDecodingError>)
    ensures
        match r {
            Ok(key) => libp2p_decodes(bytes@) == Some(libp2p_key(key)),
            Err(_) => libp2p_decodes(bytes@) is None,
        },
{
    Libp2pPublicKey::try_decode_protobuf(bytes)
}

/// `PublicKey::to_peer_id`, as bytes: a key as short as an Ed25519 key is its
/// own digest, in a multihash of code 0.
#[verifier::external_body]
fn libp2p_peer_id(key: &Libp2pPublicKey) -> (r: Vec<u8>)
    ensures
        r@ == inline_peer_id(libp2p_key(*key)),
{
    key.to_peer_id().to_bytes()
}

/// `Clone::clone` on a `PublicKey`: the same key.
#[verifier::external_body]
fn libp2p_clone(key: &Libp2pPublicKey) -> (r: Libp2pPublicKey)
    ensures
        libp2p_key(r) == libp2p_key(*key),
{
    key.clone()
}

// ---------------------------------------------------------------------------
// Peer ids
// ---------------------------------------------------------------------------

/// The SHA-256 digest of some bytes.
pub uninterp spec fn sha256(bytes: Seq<u8>) -> Seq<u8>;

/// `clatter`'s `Hash::hash` for `Sha256`: the digest, of 32 bytes.
#[verifier::external_body]
fn sha256_digest(bytes: &[u8]) -> (r: Vec<u8>)
    ensures
        r@ == sha256(bytes@),
        r@.len() == 32,
{
    <Sha256 as clatter::traits::Hash>::hash(bytes).as_slice().to_vec()
}

/// The peer id of a key that is its own digest.
pub open spec fn inline_peer_id(key: Seq<u8>) -> Seq<u8> {
    seq![0x00u8, key.len() as u8] + key
}

/// The peer id of a key that is hashed.
pub open spec fn hashed_peer_id(key: Seq<u8>) -> Seq<u8> {
    seq![0x12u8, 0x20u8] + sha256(key)
}

/// Identifies a peer: the multihash of its identity key.
#[derive(Debug, PartialEq, Eq, Hash)]
pub struct PeerId {
    bytes: Vec<u8>,
}

impl View for PeerId {
    type V = Seq<u8>;

    closed spec fn view(&self) -> Seq<u8> {
        self.bytes@
    }
}

impl PeerId {
    /// The multihash.
    pub fn to_bytes(&self) -> (r: Vec<u8>)
        ensures
            r@ == self@,
    {
        slice_to_vec(self.bytes.as_slice())
    }
}

// ---------------------------------------------------------------------------
// Identities
// ---------------------------------------------------------------------------

/// A public identity key, as mathematical values.
pub enum IdentityView {
    /// A key of `libp2p_identity`, as it is written.
    Libp2p(Seq<u8>),
    /// The bytes of an FN-DSA-512 key.
    FnDsa(Seq<u8>),
}

/// What stands before the bytes of an FN-DSA-512 key: the key type (4) and the
/// field that holds the key, with its length of 897 bytes.
pub open spec fn fndsa_header() -> Seq<u8> {
    seq![0x08u8, 0x04u8, 0x12u8, 0x81u8, 0x07u8]
}

/// Length of an FN-DSA-512 key as it is written.
pub const FNDSA_KEY_LENGTH: usize = 902;

/// `bytes` are in the form of an FN-DSA-512 key.
pub open spec fn has_fndsa_form(bytes: Seq<u8>) -> bool {
    bytes.len() == FNDSA_KEY_LENGTH && bytes.take(5) == fndsa_header()
}

impl IdentityView {
    /// The key as it is written.
    pub open spec fn encoding(self) -> Seq<u8> {
        match self {
            IdentityView::Libp2p(key) => key,
            IdentityView::FnDsa(key) => fndsa_header() + key,
        }
    }

    /// Whether a signature is accepted under the key.
    pub open spec fn verifies(self, message: Seq<u8>, signature: Seq<u8>) -> bool {
        match self {
            IdentityView::Libp2p(key) => libp2p_verifies(key, message, signature),
            IdentityView::FnDsa(key) => signature_verifies(key, message, signature),
        }
    }

    /// The peer that the key identifies.
    pub open spec fn peer_id(self) -> Seq<u8> {
        match self {
            IdentityView::Libp2p(key) => inline_peer_id(key),
            IdentityView::FnDsa(key) => hashed_peer_id(self.encoding()),
        }
    }
}

/// What holds of every identity key: it can be written in 902 bytes, and what is
/// written decodes to the same key.
pub open spec fn valid_identity(key: IdentityView) -> bool {
    key.encoding().len() <= FNDSA_KEY_LENGTH && decoded_identity(key.encoding()) == Some(key)
}

/// The key that some bytes hold, if they hold one.
pub open spec fn decoded_identity(bytes: Seq<u8>) -> Option<IdentityView> {
    if has_fndsa_form(bytes) {
        if verifying_key_decodes(bytes.skip(5)) {
            Some(IdentityView::FnDsa(bytes.skip(5)))
        } else {
            None
        }
    } else {
        match libp2p_decodes(bytes) {
            Some(key) => Some(IdentityView::Libp2p(key)),
            None => None,
        }
    }
}

/// What a key is written as gives the key back, and tells keys apart.
pub proof fn lemma_identity_encoding(key: IdentityView, other: IdentityView)
    requires
        valid_identity(key),
        valid_identity(other),
    ensures
        decoded_identity(key.encoding()) == Some(key),
        key.encoding() == other.encoding() <==> key == other,
        match key {
            IdentityView::Libp2p(bytes) => key.encoding() == bytes,
            IdentityView::FnDsa(bytes) => key.encoding() == seq![
                0x08u8,
                0x04u8,
                0x12u8,
                0x81u8,
                0x07u8,
            ] + bytes,
        },
{
}

/// What some bytes hold is a key that is written as just these bytes, where they
/// begin as an FN-DSA-512 key does and have its length; whether they hold one
/// then rests on the 897 bytes that follow the header alone.
pub proof fn lemma_fndsa_identity_is_read(key: Seq<u8>)
    requires
        key.len() == 897,
    ensures
        decoded_identity(seq![0x08u8, 0x04u8, 0x12u8, 0x81u8, 0x07u8] + key) == if
            verifying_key_decodes(key) {
            Some(IdentityView::FnDsa(key))
        } else {
            None
        },
{
    lemma_fndsa_form(key);
}

/// Bytes of any other form are left to `libp2p_identity`.
pub proof fn lemma_other_identity_is_read(bytes: Seq<u8>)
    requires
        bytes.len() != 902 || bytes.take(5) != seq![0x08u8, 0x04u8, 0x12u8, 0x81u8, 0x07u8],
    ensures
        decoded_identity(bytes) is Some <==> libp2p_decodes(bytes) is Some,
        libp2p_decodes(bytes) matches Some(key) ==> decoded_identity(bytes) == Some(
            IdentityView::Libp2p(key),
        ),
{
}

/// A key, as mathematical values, is of its scheme and holds the bytes of the
/// key; the key of a pair is that of its public half.
pub proof fn lemma_identity_values(key: IdentityPublicKey, pair: IdentityKeypair)
    ensures
        match key {
            IdentityPublicKey::Libp2p(inner) => key@ == IdentityView::Libp2p(libp2p_key(inner)),
            IdentityPublicKey::FnDsa(inner) => key@ == IdentityView::FnDsa(inner@),
        },
        match pair {
            IdentityKeypair::Libp2p(inner) => pair.key() == IdentityView::Libp2p(
                libp2p_pair_key(inner),
            ),
            IdentityKeypair::FnDsa(inner) => pair.key() == IdentityView::FnDsa(
                inner.public_bytes(),
            ),
        },
{
}

/// A signature is accepted under an identity just where the scheme of the
/// identity accepts it, for that very message and signature.
pub proof fn lemma_identity_verifies(key: Seq<u8>, message: Seq<u8>, signature: Seq<u8>)
    ensures
        IdentityView::Libp2p(key).verifies(message, signature) <==> libp2p_verifies(
            key,
            message,
            signature,
        ),
        IdentityView::FnDsa(key).verifies(message, signature) <==> signature_verifies(
            key,
            message,
            signature,
        ),
{
}

/// A peer id is a multihash: a short key stands in it as it is, after code 0 and
/// its length; of an FN-DSA-512 key it holds the SHA-256 digest of what the key
/// is written as, after code 0x12 and the length 32.
pub proof fn lemma_peer_id(key: Seq<u8>)
    ensures
        IdentityView::Libp2p(key).peer_id().skip(2) == key,
        IdentityView::Libp2p(key).peer_id()[0] == 0,
        key.len() < 256 ==> IdentityView::Libp2p(key).peer_id()[1] == key.len(),
        IdentityView::FnDsa(key).peer_id().skip(2) == sha256(
            seq![0x08u8, 0x04u8, 0x12u8, 0x81u8, 0x07u8] + key,
        ),
        IdentityView::FnDsa(key).peer_id()[0] == 0x12,
        IdentityView::FnDsa(key).peer_id()[1] == 0x20,
{
    assert(IdentityView::Libp2p(key).peer_id().skip(2) == key);
    let digest = sha256(seq![0x08u8, 0x04u8, 0x12u8, 0x81u8, 0x07u8] + key);
    assert(IdentityView::FnDsa(key).peer_id().skip(2) == digest);
}

proof fn lemma_fndsa_form(key: Seq<u8>)
    requires
        key.len() == fndsa::PUBLIC_KEY_LENGTH,
    ensures
        has_fndsa_form(fndsa_header() + key),
        (fndsa_header() + key).skip(5) == key,
{
    assert((fndsa_header() + key).take(5) == fndsa_header());
    assert((fndsa_header() + key).skip(5) == key);
}

/// An identity: a key pair.
pub enum IdentityKeypair {
    Libp2p(Libp2pKeypair),
    FnDsa(fndsa::Keypair),
}

/// The public key of an identity.
#[derive(Debug, PartialEq, Eq)]
pub enum IdentityPublicKey {
    Libp2p(Libp2pPublicKey),
    FnDsa(fndsa::PublicKey),
}

impl View for IdentityPublicKey {
    type V = IdentityView;

    open spec fn view(&self) -> IdentityView {
        match *self {
            IdentityPublicKey::Libp2p(key) => IdentityView::Libp2p(libp2p_key(key)),
            IdentityPublicKey::FnDsa(key) => IdentityView::FnDsa(key@),
        }
    }
}

impl Clone for IdentityPublicKey {
    fn clone(&self) -> (r: Self)
        ensures
            r@ == self@,
    {
        match self {
            IdentityPublicKey::Libp2p(key) => IdentityPublicKey::Libp2p(libp2p_clone(key)),
            IdentityPublicKey::FnDsa(key) => IdentityPublicKey::FnDsa(key.clone()),
        }
    }
}

impl IdentityKeypair {
    /// The public key of the pair.
    pub open spec fn key(&self) -> IdentityView {
        match *self {
            IdentityKeypair::Libp2p(pair) => IdentityView::Libp2p(libp2p_pair_key(pair)),
            IdentityKeypair::FnDsa(pair) => IdentityView::FnDsa(pair.public_bytes()),
        }
    }

    /// The pair can sign. An FN-DSA-512 pair can where it was generated, here or
    /// elsewhere; see [`sound_signing_key`].
    pub open spec fn genuine(&self) -> bool {
        match *self {
            IdentityKeypair::Libp2p(_) => true,
            IdentityKeypair::FnDsa(pair) => sound_signing_key(pair.secret_bytes()),
        }
    }

    /// Signing a message with the pair can give the signature.
    pub open spec fn signs(&self, message: Seq<u8>, signature: Seq<u8>) -> bool {
        match *self {
            IdentityKeypair::Libp2p(pair) => libp2p_verifies(
                libp2p_pair_key(pair),
                message,
                signature,
            ),
            IdentityKeypair::FnDsa(pair) => signing_makes(pair.secret_bytes(), message, signature),
        }
    }

    /// Makes a fresh Ed25519 identity.
    pub fn generate_ed25519() -> (r: IdentityKeypair)
        ensures
            r is Libp2p,
            r.genuine(),
            ed25519_generates(r.key().encoding()),
            valid_identity(r.key()),
            r.key().encoding().len() == LIBP2P_KEY_LENGTH,
            r.key().encoding().take(4) == ed25519_header(),
    {
        IdentityKeypair::Libp2p(libp2p_generate_ed25519())
    }

    /// Makes a fresh FN-DSA-512 identity.
    pub fn generate_fndsa() -> (r: IdentityKeypair)
        ensures
            r is FnDsa,
            r.genuine(),
            r->FnDsa_0.public_bytes() == verifying_key_of(r->FnDsa_0.secret_bytes()),
            keygen_makes(r->FnDsa_0.secret_bytes()),
            valid_identity(r.key()),
            r.key().encoding().len() == FNDSA_KEY_LENGTH,
    {
        let pair = fndsa::Keypair::generate();
        proof {
            lemma_fndsa_form(pair.public_bytes());
        }
        IdentityKeypair::FnDsa(pair)
    }

    /// Signs a message. The public key accepts the signature.
    pub fn sign(&self, msg: &[u8]) -> (r: Result<Vec<u8>, Libp2pSigningError>)
        requires
            self.genuine(),
        ensures
            r is Ok,
            0 < r->Ok_0@.len() <= fndsa::SIGNATURE_LENGTH,
            self.signs(msg@, r->Ok_0@),
            self.key().verifies(msg@, r->Ok_0@),
            match *self {
                IdentityKeypair::Libp2p(pair) => libp2p_verifies(
                    libp2p_pair_key(pair),
                    msg@,
                    r->Ok_0@,
                ),
                IdentityKeypair::FnDsa(pair) => {
                    &&& signing_makes(pair.secret_bytes(), msg@, r->Ok_0@)
                    &&& signature_verifies(pair.public_bytes(), msg@, r->Ok_0@)
                },
            },
    {
        match self {
            IdentityKeypair::Libp2p(pair) => libp2p_sign(pair, msg),
            IdentityKeypair::FnDsa(pair) => Ok(pair.sign(msg)),
        }
    }

    /// The public key.
    pub fn public(&self) -> (r: IdentityPublicKey)
        ensures
            r@ == self.key(),
            valid_identity(r@),
            match (*self, r) {
                (IdentityKeypair::Libp2p(pair), IdentityPublicKey::Libp2p(key)) => {
                    libp2p_key(key) == libp2p_pair_key(pair)
                },
                (IdentityKeypair::FnDsa(pair), IdentityPublicKey::FnDsa(key)) => {
                    key@ == pair.public_bytes()
                },
                _ => false,
            },
    {
        match self {
            IdentityKeypair::Libp2p(pair) => IdentityPublicKey::Libp2p(libp2p_public(pair)),
            IdentityKeypair::FnDsa(pair) => {
                let key = pair.public();
                proof {
                    lemma_fndsa_form(key@);
                }
                IdentityPublicKey::FnDsa(key)
            },
        }
    }
}

impl IdentityPublicKey {
    /// Whether `sig` is a signature of `msg` under this key.
    pub fn verify(&self, msg: &[u8], sig: &[u8]) -> (r: bool)
        ensures
            r == self@.verifies(msg@, sig@),
            match *self {
                IdentityPublicKey::Libp2p(key) => r == libp2p_verifies(
                    libp2p_key(key),
                    msg@,
                    sig@,
                ),
                IdentityPublicKey::FnDsa(key) => r == signature_verifies(key@, msg@, sig@),
            },
    {
        match self {
            IdentityPublicKey::Libp2p(key) => libp2p_verify(key, msg, sig),
            IdentityPublicKey::FnDsa(key) => key.verify(msg, sig),
        }
    }

    /// The key as bytes. They decode to the same key.
    pub fn encode_protobuf(&self) -> (r: Vec<u8>)
        ensures
            r@ == self@.encoding(),
            valid_identity(self@),
            match *self {
                IdentityPublicKey::Libp2p(key) => r@ == libp2p_key(key),
                IdentityPublicKey::FnDsa(key) => r@ == seq![
                    0x08u8,
                    0x04u8,
                    0x12u8,
                    0x81u8,
                    0x07u8,
                ] + key@,
            },
    {
        match self {
            IdentityPublicKey::Libp2p(key) => libp2p_encode(key),
            IdentityPublicKey::FnDsa(key) => {
                let bytes = key.to_bytes();
                let mut r: Vec<u8> = vec![0x08u8, 0x04u8, 0x12u8, 0x81u8, 0x07u8];
                r.extend_from_slice(bytes.as_slice());
                assert(r@ == fndsa_header() + key@);
                proof {
                    lemma_fndsa_form(key@);
                }
                r
            },
        }
    }

    /// Reads a key from bytes.
    pub fn try_decode_protobuf(bytes: &[u8]) -> (r: Result<IdentityPublicKey, DecodingError>)
        ensures
            match r {
                Ok(IdentityPublicKey::Libp2p(key)) => {
                    &&& libp2p_decodes(bytes@) == Some(libp2p_key(key))
                    &&& !(bytes@.len() == 902 && bytes@.take(5) == seq![
                        0x08u8,
                        0x04u8,
                        0x12u8,
                        0x81u8,
                        0x07u8,
                    ])
                },
                Ok(IdentityPublicKey::FnDsa(key)) => bytes@ == seq![
                    0x08u8,
                    0x04u8,
                    0x12u8,
                    0x81u8,
                    0x07u8,
                ] + key@,
                Err(_) => if bytes@.len() == 902 && bytes@.take(5) == seq![
                    0x08u8,
                    0x04u8,
                    0x12u8,
                    0x81u8,
                    0x07u8,
                ] {
                    !verifying_key_decodes(bytes@.skip(5))
                } else {
                    libp2p_decodes(bytes@) is None
                },
            },
            match r {
                Ok(key) => decoded_identity(bytes@) == Some(key@),
                Err(e) => {
                    &&& decoded_identity(bytes@) is None
                    &&& if has_fndsa_form(bytes@) {
                        e.says(
                            "FN-DSA-512 public key"@,
                            "not a valid FN-DSA-512 verifying key encoding"@,
                        )
                    } else {
                        e is Identity
                    }
                },
            },
    {
        let fndsa_form: bool = bytes.len() == FNDSA_KEY_LENGTH && bytes[0] == 0x08 && bytes[1] == 0x04
            && bytes[2] == 0x12 && bytes[3] == 0x81 && bytes[4] == 0x07;
        assert(fndsa_form == has_fndsa_form(bytes@)) by {
            if fndsa_form {
                assert(bytes@.take(5) =~= fndsa_header());
            }
            if has_fndsa_form(bytes@) {
                assert(forall|i: int| 0 <= i < 5 ==> bytes@[i] == bytes@.take(5)[i]);
            }
        }
        if fndsa_form {
            let key = slice_subrange(bytes, 5, bytes.len());
            assert(key@ == bytes@.skip(5));
            match fndsa::PublicKey::try_from_bytes(key) {
                Ok(key) => {
                    assert(bytes@ =~= fndsa_header() + key@) by {
                        assert(bytes@ =~= bytes@.take(5) + bytes@.skip(5));
                    }
                    Ok(IdentityPublicKey::FnDsa(key))
                },
                Err(e) => Err(e),
            }
        } else {
            match libp2p_decode(bytes) {
                Ok(key) => Ok(IdentityPublicKey::Libp2p(key)),
                Err(e) => Err(DecodingError::Identity(e)),
            }
        }
    }

    /// The peer that the key identifies.
    pub fn to_peer_id(&self) -> (r: PeerId)
        ensures
            r@ == self@.peer_id(),
            match *self {
                IdentityPublicKey::Libp2p(key) => r@ == seq![
                    0x00u8,
                    libp2p_key(key).len() as u8,
                ] + libp2p_key(key),
                IdentityPublicKey::FnDsa(key) => r@ == seq![0x12u8, 0x20u8] + sha256(
                    seq![0x08u8, 0x04u8, 0x12u8, 0x81u8, 0x07u8] + key@,
                ),
            },
    {
        match self {
            IdentityPublicKey::Libp2p(key) => PeerId { bytes: libp2p_peer_id(key) },
            IdentityPublicKey::FnDsa(_) => {
                let digest = sha256_digest(self.encode_protobuf().as_slice());
                let mut bytes: Vec<u8> = vec![0x12u8, 0x20u8];
                bytes.extend_from_slice(digest.as_slice());
                assert(bytes@ == hashed_peer_id(self@.encoding()));
                PeerId { bytes }
            },
        }
    }
}

} // verus!
