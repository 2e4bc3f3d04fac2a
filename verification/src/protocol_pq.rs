//! The static key pair of the `pqXX` handshake, bound to an identity.

use vstd::prelude::*;
use vstd::utf8::encode_utf8;
use crate::error::Error;
use crate::fndsa::signature_verifies;
use crate::fndsa::SIGNATURE_LENGTH;
use crate::identity::valid_identity;
use crate::identity::IdentityKeypair;
use crate::identity::libp2p_key;
use crate::identity::libp2p_pair_key;
use crate::identity::libp2p_verifies;
use crate::identity::IdentityPublicKey;
use crate::identity::IdentityView;
use crate::protocol::concat_domain;
use crate::protocol::domain_message;
use crate::protocol::KeypairIdentity;
use crate::protocol::STATIC_KEY_DOMAIN;
use crate::pq_session::genkey;
use crate::pq_session::genkey_makes;
use crate::secret::SecretBytes;

verus! {

/// Put before an ML-KEM-768 static key when it is signed. It differs from
/// [`STATIC_KEY_DOMAIN`], so that a signature made for the classic handshake
/// cannot be replayed in this one.
pub const STATIC_KEY_DOMAIN_PQ: &'static str = "noise-libp2p-static-key-pq:";

/// What an identity signs to bind an ML-KEM-768 static key to itself.
pub open spec fn pq_static_message(key: Seq<u8>) -> Seq<u8> {
    domain_message(STATIC_KEY_DOMAIN_PQ, key)
}

/// A static ML-KEM-768 key pair.
pub struct PqStaticKeypair {
    public: [u8; 1184],
    secret: SecretBytes<2400>,
}

/// A static key pair with the identity that vouches for it.
pub struct AuthenticPqKeypair {
    pub keypair: PqStaticKeypair,
    pub identity: KeypairIdentity,
}

impl Clone for PqStaticKeypair {
    fn clone(&self) -> (r: Self)
        ensures
            r.keys() == self.keys(),
    {
        PqStaticKeypair {
            public: self.public,
            secret: SecretBytes { bytes: self.secret.bytes },
        }
    }
}

impl Clone for AuthenticPqKeypair {
    fn clone(&self) -> (r: Self)
        ensures
            r.keypair.keys() == self.keypair.keys(),
            r.identity.public@ == self.identity.public@,
            r.identity.signature@ == self.identity.signature@,
    {
        AuthenticPqKeypair { keypair: self.keypair.clone(), identity: self.identity.clone() }
    }
}

impl PqStaticKeypair {
    /// The keys, public key first.
    pub closed spec fn keys(&self) -> (Seq<u8>, Seq<u8>) {
        (self.public@, self.secret.bytes@)
    }

    /// Makes a fresh key pair.
    pub fn new() -> (r: Result<PqStaticKeypair, Error>)
        ensures
            match r {
                Ok(pair) => genkey_makes(pair.keys().0, pair.keys().1),
                Err(_) => false,
            },
    {
        match genkey() {
            Ok((public, secret)) => Ok(
                PqStaticKeypair { public, secret: SecretBytes { bytes: secret } },
            ),
            Err(e) => Err(Error::PqHandshake("keygen failed: ".to_owned().concat(e.as_str()))),
        }
    }

    /// The public key.
    pub fn public(&self) -> (r: &[u8])
        ensures
            r@ == self.keys().0,
            r@.len() == 1184,
    {
        self.public.as_slice()
    }

    /// The keys, public key first.
    pub(crate) fn into_inner(self) -> (r: ([u8; 1184], SecretBytes<2400>))
        ensures
            (r.0@, r.1.bytes@) == self.keys(),
    {
        (self.public, self.secret)
    }

    /// Has an identity sign the public key. The identity must be able to sign.
    pub fn into_authentic(self, id_keys: &IdentityKeypair) -> (r: Result<AuthenticPqKeypair, Error>)
        requires
            id_keys.genuine(),
        ensures
            match r {
                Ok(authentic) => {
                    &&& authentic.keypair.keys() == self.keys()
                    &&& authentic.identity.public@ == id_keys.key()
                    &&& valid_identity(id_keys.key())
                    &&& match *id_keys {
                        IdentityKeypair::Libp2p(pair) => {
                            &&& authentic.identity.public@ == IdentityView::Libp2p(
                                libp2p_pair_key(pair),
                            )
                            &&& libp2p_verifies(
                                libp2p_pair_key(pair),
                                encode_utf8("noise-libp2p-static-key-pq:"@) + self.keys().0,
                                authentic.identity.signature@,
                            )
                        },
                        IdentityKeypair::FnDsa(pair) => {
                            &&& authentic.identity.public@ == IdentityView::FnDsa(
                                pair.public_bytes(),
                            )
                            &&& signature_verifies(
                                pair.public_bytes(),
                                encode_utf8("noise-libp2p-static-key-pq:"@) + self.keys().0,
                                authentic.identity.signature@,
                            )
                        },
                    }
                    &&& 0 < authentic.identity.signature@.len() <= SIGNATURE_LENGTH
                    &&& id_keys.signs(
                        pq_static_message(self.keys().0),
                        authentic.identity.signature@,
                    )
                    &&& id_keys.key().verifies(
                        pq_static_message(self.keys().0),
                        authentic.identity.signature@,
                    )
                },
                Err(_) => false,
            },
    {
        match id_keys.sign(concat_domain(STATIC_KEY_DOMAIN_PQ, self.public()).as_slice()) {
            Ok(signature) => Ok(
                AuthenticPqKeypair {
                    keypair: self,
                    identity: KeypairIdentity { public: id_keys.public(), signature },
                },
            ),
            Err(e) => Err(Error::SigningError(e)),
        }
    }
}

/// Checks that an identity has signed an ML-KEM-768 static key.
pub fn verify_pq_static_sig(
    id_pk: &IdentityPublicKey,
    pq_static_pubkey: &[u8],
    signature: &[u8],
) -> (r: Result<(), Error>)
    ensures
        match r {
            Ok(_) => id_pk@.verifies(pq_static_message(pq_static_pubkey@), signature@),
            Err(Error::BadSignature) => !id_pk@.verifies(
                pq_static_message(pq_static_pubkey@),
                signature@,
            ),
            Err(_) => false,
        },
        match *id_pk {
            IdentityPublicKey::Libp2p(key) => r is Ok <==> libp2p_verifies(
                libp2p_key(key),
                encode_utf8("noise-libp2p-static-key-pq:"@) + pq_static_pubkey@,
                signature@,
            ),
            IdentityPublicKey::FnDsa(key) => r is Ok <==> signature_verifies(
                key@,
                encode_utf8("noise-libp2p-static-key-pq:"@) + pq_static_pubkey@,
                signature@,
            ),
        },
{
    if id_pk.verify(
        concat_domain(STATIC_KEY_DOMAIN_PQ, pq_static_pubkey).as_slice(),
        signature,
    ) {
        Ok(())
    } else {
        Err(Error::BadSignature)
    }
}

/// An ML-KEM-768 static key is signed behind the text
/// `noise-libp2p-static-key-pq:`, which takes 27 bytes, and different keys never
/// lead to the same message.
pub proof fn lemma_pq_static_message(key: Seq<u8>, other: Seq<u8>)
    ensures
        pq_static_message(key) == encode_utf8("noise-libp2p-static-key-pq:"@) + key,
        pq_static_message(key).len() == 27 + key.len(),
        pq_static_message(key).skip(27) == key,
        pq_static_message(key) == pq_static_message(other) <==> key == other,
{
    reveal_strlit("noise-libp2p-static-key-pq:");
    let text = "noise-libp2p-static-key-pq:";
    assert(vstd::utf8::is_ascii_chars(text@));
    vstd::utf8::is_ascii_chars_encode_utf8(text@);
    assert(pq_static_message(key).skip(27) == key);
    assert(pq_static_message(other).skip(27) == other);
}

/// The two domains never lead to the same message, whatever the keys: what an
/// identity signs for the classic handshake is never what it signs for this
/// one.
pub proof fn lemma_domains_are_apart(classic_key: Seq<u8>, pq_key: Seq<u8>)
    ensures
        domain_message(STATIC_KEY_DOMAIN, classic_key) != pq_static_message(pq_key),
{
    reveal_strlit("noise-libp2p-static-key:");
    reveal_strlit("noise-libp2p-static-key-pq:");
    let classic = STATIC_KEY_DOMAIN;
    let pq = STATIC_KEY_DOMAIN_PQ;
    assert(vstd::utf8::is_ascii_chars(classic@));
    assert(vstd::utf8::is_ascii_chars(pq@));
    vstd::utf8::is_ascii_chars_encode_utf8(classic@);
    vstd::utf8::is_ascii_chars_encode_utf8(pq@);
    assert(domain_message(classic, classic_key)[23] == classic@[23] as u8);
    assert(pq_static_message(pq_key)[23] == pq@[23] as u8);
    assert(classic@[23] == ':');
    assert(pq@[23] == '-');
}

} // verus!
