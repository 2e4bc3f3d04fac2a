//! The identity that a static key is bound to, and the static key pair of the
//! classic handshake.

use vstd::prelude::*;
use vstd::utf8::encode_utf8;
use snow::params::NoiseParams;
use crate::classic_session::generate_keypair;
use crate::classic_session::keypair_makes;
use crate::classic_session::params_text;
use crate::classic_session::PARAMS_XX;
use crate::error::Error;
use crate::fndsa::signature_verifies;
use crate::fndsa::SIGNATURE_LENGTH;
use crate::identity::valid_identity;
use crate::identity::IdentityKeypair;
use crate::identity::libp2p_pair_key;
use crate::identity::libp2p_verifies;
use crate::identity::IdentityPublicKey;
use crate::identity::IdentityView;
use crate::secret::SecretBytes;

verus! {

/// Put before a classic static key when it is signed.
pub const STATIC_KEY_DOMAIN: &'static str = "noise-libp2p-static-key:";

/// An identity's public key, and its signature over a static key.
pub struct KeypairIdentity {
    pub public: IdentityPublicKey,
    pub signature: Vec<u8>,
}

impl Clone for KeypairIdentity {
    fn clone(&self) -> (r: Self)
        ensures
            r.public@ == self.public@,
            r.signature@ == self.signature@,
    {
        KeypairIdentity { public: self.public.clone(), signature: self.signature.clone() }
    }
}

/// What an identity signs: a domain, then a static key.
pub open spec fn domain_message(domain: &str, key: Seq<u8>) -> Seq<u8> {
    vstd::utf8::encode_utf8(domain@) + key
}

/// A domain followed by a static key.
pub fn concat_domain(domain: &str, key: &[u8]) -> (r: Vec<u8>)
    ensures
        r@ == domain_message(domain, key@),
        r@ == vstd::utf8::encode_utf8(domain@) + key@,
{
    let mut message: Vec<u8> = vstd::slice::slice_to_vec(domain.as_bytes());
    message.extend_from_slice(key);
    assert(message@ == domain_message(domain, key@));
    message
}

/// What an identity signs to bind an X25519 static key to itself.
pub open spec fn classic_static_message(key: Seq<u8>) -> Seq<u8> {
    domain_message(STATIC_KEY_DOMAIN, key)
}

/// What is signed is the domain, followed by the whole key: as long as the two
/// together, with the domain in front and every byte of the key after it.
pub proof fn lemma_message_is_domain_then_key(domain: &str, key: Seq<u8>)
    ensures
        ({
            let text = vstd::utf8::encode_utf8(domain@);
            let message = domain_message(domain, key);
            &&& message.len() == text.len() + key.len()
            &&& message.take(text.len() as int) == text
            &&& message.skip(text.len() as int) == key
            &&& forall|i: int| 0 <= i < key.len() ==> #[trigger] message[text.len() + i] == key[i]
        }),
{
    let text = vstd::utf8::encode_utf8(domain@);
    let message = domain_message(domain, key);
    assert(message.take(text.len() as int) == text);
    assert(message.skip(text.len() as int) == key);
}

/// Under one domain, different keys never lead to the same message: a signature
/// over one key says nothing of another.
pub proof fn lemma_message_tells_keys_apart(domain: &str, key: Seq<u8>, other: Seq<u8>)
    ensures
        domain_message(domain, key) == domain_message(domain, other) <==> key == other,
        classic_static_message(key) == classic_static_message(other) <==> key == other,
{
    lemma_message_is_domain_then_key(domain, key);
    lemma_message_is_domain_then_key(domain, other);
    lemma_message_is_domain_then_key(STATIC_KEY_DOMAIN, key);
    lemma_message_is_domain_then_key(STATIC_KEY_DOMAIN, other);
}

/// A classic static key is signed behind the text `noise-libp2p-static-key:`,
/// which takes 24 bytes.
pub proof fn lemma_classic_static_message(key: Seq<u8>)
    ensures
        classic_static_message(key) == vstd::utf8::encode_utf8("noise-libp2p-static-key:"@) + key,
        classic_static_message(key).len() == 24 + key.len(),
        classic_static_message(key).skip(24) == key,
{
    reveal_strlit("noise-libp2p-static-key:");
    let text = "noise-libp2p-static-key:";
    assert(vstd::utf8::is_ascii_chars(text@));
    vstd::utf8::is_ascii_chars_encode_utf8(text@);
    assert(classic_static_message(key).skip(24) == key);
}

/// A static X25519 key pair.
pub struct DhKeypair {
    public: [u8; 32],
    secret: SecretBytes<32>,
}

/// A static key pair with the identity that vouches for it.
pub struct AuthenticKeypair {
    pub keypair: DhKeypair,
    pub identity: KeypairIdentity,
}

impl Clone for DhKeypair {
    fn clone(&self) -> (r: Self)
        ensures
            r.keys() == self.keys(),
    {
        DhKeypair { public: self.public, secret: SecretBytes { bytes: self.secret.bytes } }
    }
}

impl Clone for AuthenticKeypair {
    fn clone(&self) -> (r: Self)
        ensures
            r.keypair.keys() == self.keypair.keys(),
            r.identity.public@ == self.identity.public@,
            r.identity.signature@ == self.identity.signature@,
    {
        AuthenticKeypair { keypair: self.keypair.clone(), identity: self.identity.clone() }
    }
}

impl DhKeypair {
    /// The keys, public key first.
    pub closed spec fn keys(&self) -> (Seq<u8>, Seq<u8>) {
        (self.public@, self.secret.bytes@)
    }

    /// Makes a fresh key pair.
    pub(crate) fn new(params: NoiseParams) -> (r: DhKeypair)
        requires
            params_text(params) == PARAMS_XX@,
        ensures
            keypair_makes(r.keys().0, r.keys().1),
    {
        let (public, secret) = generate_keypair(params);
        DhKeypair { public, secret: SecretBytes { bytes: secret } }
    }

    /// The secret key.
    pub(crate) fn secret(&self) -> (r: &[u8; 32])
        ensures
            r@ == self.keys().1,
    {
        &self.secret.bytes
    }

    /// Has an identity sign the public key. The identity must be able to sign.
    pub fn into_authentic(self, id_keys: &IdentityKeypair) -> (r: Result<AuthenticKeypair, Error>)
        requires
            id_keys.genuine(),
        ensures
            match r {
                Ok(authentic) => {
                    &&& authentic.keypair.keys() == self.keys()
                    &&& authentic.identity.public@ == id_keys.key()
                    &&& valid_identity(id_keys.key())
                    &&& match *id_keys {
                        IdentityKeypair::Libp2p(pair) => {
                            &&& authentic.identity.public@ == IdentityView::Libp2p(
                                libp2p_pair_key(pair),
                            )
                            &&& libp2p_verifies(
                                libp2p_pair_key(pair),
                                encode_utf8("noise-libp2p-static-key:"@) + self.keys().0,
                                authentic.identity.signature@,
                            )
                        },
                        IdentityKeypair::FnDsa(pair) => {
                            &&& authentic.identity.public@ == IdentityView::FnDsa(
                                pair.public_bytes(),
                            )
                            &&& signature_verifies(
                                pair.public_bytes(),
                                encode_utf8("noise-libp2p-static-key:"@) + self.keys().0,
                                authentic.identity.signature@,
                            )
                        },
                    }
                    &&& 0 < authentic.identity.signature@.len() <= SIGNATURE_LENGTH
                    &&& id_keys.signs(
                        classic_static_message(self.keys().0),
                        authentic.identity.signature@,
                    )
                    &&& id_keys.key().verifies(
                        classic_static_message(self.keys().0),
                        authentic.identity.signature@,
                    )
                },
                Err(_) => false,
            },
    {
        match id_keys.sign(concat_domain(STATIC_KEY_DOMAIN, self.public.as_slice()).as_slice()) {
            Ok(signature) => Ok(
                AuthenticKeypair {
                    keypair: self,
                    identity: KeypairIdentity { public: id_keys.public(), signature },
                },
            ),
            Err(e) => Err(Error::SigningError(e)),
        }
    }
}

} // verus!
