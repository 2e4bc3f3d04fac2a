//! FN-DSA-512 (Falcon-512) keys.
//!
//! Experimental: the keys and signatures are those of the unaudited `fn_dsa`
//! crate. The FN-DSA standard is still being drafted; encodings may change, so
//! the dependency is pinned exactly.

use vstd::prelude::*;
use vstd::slice::slice_subrange;
use fn_dsa::KeyPairGenerator;
use fn_dsa::KeyPairGeneratorStandard;
use fn_dsa::SigningKey;
use fn_dsa::SigningKeyStandard;
use fn_dsa::VerifyingKey;
use fn_dsa::VerifyingKeyStandard;
use fn_dsa::DOMAIN_NONE;
use fn_dsa::FN_DSA_LOGN_512;
use fn_dsa::HASH_ID_RAW;
use crate::buf::zeros;
use crate::error::DecodingError;
use crate::secret::zeroize_bytes;
use crate::secret::SecretBytes;

verus! {

/// Length of an encoded public key.
pub const PUBLIC_KEY_LENGTH: usize = 897;

/// Length of an encoded secret key.
pub const SECRET_KEY_LENGTH: usize = 1281;

/// Length of a signature.
pub const SIGNATURE_LENGTH: usize = 666;

/// Whether `SigningKeyStandard::decode` accepts the bytes.
pub uninterp spec fn signing_key_decodes(secret: Seq<u8>) -> bool;

/// The modulus of the coefficients of a public key.
pub const MODULUS: u64 = 12289;

/// The seven bytes from `at` on, as a number in big-endian order.
pub open spec fn seven_bytes(bytes: Seq<u8>, at: int) -> nat {
    (((((((bytes[at] * 256 + bytes[at + 1]) * 256 + bytes[at + 2]) * 256 + bytes[at + 3]) * 256
        + bytes[at + 4]) * 256 + bytes[at + 5]) * 256) + bytes[at + 6]) as nat
}

/// The four numbers of 14 bits that seven bytes hold are below the modulus.
pub open spec fn four_coefficients(seven: nat) -> bool {
    &&& seven / 0x400_0000_0000 < MODULUS
    &&& seven / 0x1000_0000 % 0x4000 < MODULUS
    &&& seven / 0x4000 % 0x4000 < MODULUS
    &&& seven % 0x4000 < MODULUS
}

/// The bytes are an encoded verifying key of degree 512: a header, then the
/// coefficients in 14 bits each.
pub open spec fn verifying_key_decodes(public: Seq<u8>) -> bool {
    &&& public.len() == PUBLIC_KEY_LENGTH
    &&& public[0] == 9
    &&& forall|i: int|
        0 <= i < 128 ==> four_coefficients(#[trigger] seven_bytes(public, 1 + 7 * i))
}

/// The verifying key that `SigningKey::to_verifying_key` computes.
pub uninterp spec fn verifying_key_of(secret: Seq<u8>) -> Seq<u8>;

/// Just those bytes are an encoded verifying key that are 897, begin with 9, and
/// hold, in what follows, 512 numbers of 14 bits each below 12289: every group
/// of seven bytes holds four of them, the first in its highest bits.
pub proof fn lemma_verifying_key_decodes(public: Seq<u8>)
    requires
        public.len() == 897,
    ensures
        verifying_key_decodes(public) <==> public[0] == 9 && forall|i: int|
            0 <= i < 128 ==> {
                let seven = #[trigger] seven_bytes(public, 1 + 7 * i);
                &&& seven / 0x400_0000_0000 < 12289
                &&& (seven / 0x1000_0000) % 0x4000 < 12289
                &&& (seven / 0x4000) % 0x4000 < 12289
                &&& seven % 0x4000 < 12289
            },
        forall|at: int|
            #[trigger] seven_bytes(public, at) == public[at] * 0x1_0000_0000_0000 + public[at + 1]
                * 0x100_0000_0000 + public[at + 2] * 0x1_0000_0000 + public[at + 3] * 0x100_0000
                + public[at + 4] * 0x1_0000 + public[at + 5] * 0x100 + public[at + 6],
{
}

/// Whether `VerifyingKey::verify` accepts the signature.
pub uninterp spec fn signature_verifies(
    public: Seq<u8>,
    message: Seq<u8>,
    signature: Seq<u8>,
) -> bool;

/// Whether `SigningKey::sign` can make the signature of a message.
pub uninterp spec fn signing_makes(
    secret: Seq<u8>,
    message: Seq<u8>,
    signature: Seq<u8>,
) -> bool;

/// Whether `SigningKey::sign` with the key comes to an end (the chance that it
/// does not is nil), and always with a signature that `VerifyingKey::verify`
/// accepts under the verifying key.
///
/// Signing samples until a signature is short enough. For that the parts of the
/// key must be a short basis of its lattice. `SigningKeyStandard::decode` does
/// not look at that: it accepts keys with which the search has no end.
pub uninterp spec fn sound_signing_key(secret: Seq<u8>) -> bool;

/// Whether the bytes are a signing key that `KeyPairGenerator::keygen` makes.
pub uninterp spec fn keygen_makes(secret: Seq<u8>) -> bool;

/// `KeyPairGenerator::keygen` with the operating system's random source. Both
/// encodings are accepted by the decoders, the second is the verifying key of
/// the first, and the first is a key to sign with. Which pair comes out is left
/// to chance.
#[verifier::external_body]
fn keygen() -> (r: ([u8; 1281], [u8; 897]))
    ensures
        keygen_makes(r.0@),
        sound_signing_key(r.0@),
        signing_key_decodes(r.0@),
        r.1@ == verifying_key_of(r.0@),
        verifying_key_decodes(r.1@),
{
    let mut sk = [0u8; SECRET_KEY_LENGTH];
    let mut pk = [0u8; PUBLIC_KEY_LENGTH];
    let mut kg = KeyPairGeneratorStandard::default();
    kg.keygen(FN_DSA_LOGN_512, &mut rand::rngs::OsRng, &mut sk, &mut pk);
    (sk, pk)
}

/// `SigningKeyStandard::decode`: whether it accepts the bytes.
#[verifier::external_body]
fn decodes_as_signing_key(secret: &[u8]) -> (r: bool)
    ensures
        r == signing_key_decodes(secret@),
{
    SigningKeyStandard::decode(secret).is_some()
}

/// `VerifyingKeyStandard::decode`: whether it accepts bytes of the length for
/// degree 512. It looks at the header and at the range of each coefficient.
#[verifier::external_body]
fn decodes_as_verifying_key(public: &[u8; 897]) -> (r: bool)
    ensures
        r == verifying_key_decodes(public@),
{
    VerifyingKeyStandard::decode(public).is_some()
}

/// `SigningKey::to_verifying_key`, for a key of degree 512. The encoding it
/// writes is accepted by the decoder for verifying keys.
#[verifier::external_body]
fn to_verifying_key(secret: &[u8; 1281]) -> (r: [u8; 897])
    requires
        signing_key_decodes(secret@),
    ensures
        r@ == verifying_key_of(secret@),
        verifying_key_decodes(r@),
{
    let signer = SigningKeyStandard::decode(secret).expect("the key decodes");
    let mut public = [0u8; PUBLIC_KEY_LENGTH];
    signer.to_verifying_key(&mut public);
    public
}

/// `SigningKey::sign` for a key of degree 512, on the raw message, with no
/// domain and the operating system's random source. A signature is always of
/// the one length for that degree, and is accepted under the verifying key.
/// Which signature comes out is left to chance.
///
/// Keys with which it need not come to an end are left out: see
/// [`sound_signing_key`].
#[verifier::external_body]
fn sign_raw(secret: &[u8; 1281], message: &[u8]) -> (r: Vec<u8>)
    requires
        sound_signing_key(secret@),
        signing_key_decodes(secret@),
    ensures
        r@.len() == SIGNATURE_LENGTH,
        signing_makes(secret@, message@, r@),
        signature_verifies(verifying_key_of(secret@), message@, r@),
{
    let mut signer = SigningKeyStandard::decode(secret).expect("the key decodes");
    let mut sig = vec![0u8; SIGNATURE_LENGTH];
    signer.sign(&mut rand::rngs::OsRng, &DOMAIN_NONE, &HASH_ID_RAW, message, &mut sig);
    sig
}

/// `VerifyingKey::verify` on the raw message, with no domain. Under a key of
/// degree 512 only signatures of the one length for that degree are accepted.
#[verifier::external_body]
fn verify_raw(public: &[u8; 897], message: &[u8], signature: &[u8]) -> (r: bool)
    requires
        verifying_key_decodes(public@),
    ensures
        r == signature_verifies(public@, message@, signature@),
        r ==> signature@.len() == SIGNATURE_LENGTH,
{
    let verifier = VerifyingKeyStandard::decode(public).expect("the key decodes");
    verifier.verify(signature, &DOMAIN_NONE, &HASH_ID_RAW, message)
}

/// `<[u8; N]>::try_from` on a slice: the slice as an array, where it has just
/// that length.
#[verifier::external_body]
fn array_from_slice<const N: usize>(bytes: &[u8]) -> (r: Option<[u8; N]>)
    ensures
        match r {
            Some(array) => array@ == bytes@,
            None => bytes@.len() != N,
        },
{
    <[u8; N]>::try_from(bytes).ok()
}

// ---------------------------------------------------------------------------
// Texts for debugging
// ---------------------------------------------------------------------------

#[verifier::external_type_specification]
#[verifier::external_body]
pub struct ExFormatter<'a>(core::fmt::Formatter<'a>);

#[verifier::external_type_specification]
#[verifier::external_body]
pub struct ExFmtError(core::fmt::Error);

/// The text that has been written to a `Formatter`.
pub uninterp spec fn formatted(f: core::fmt::Formatter<'_>) -> Seq<char>;

/// Whether the `#` flag was given to a `Formatter`.
pub uninterp spec fn wants_lines(f: core::fmt::Formatter<'_>) -> bool;

/// `Formatter::write_str`: where it succeeds, it has written the text as it is.
#[verifier::external_body]
fn write_text(f: &mut core::fmt::Formatter<'_>, text: &str) -> (r: Result<(), core::fmt::Error>)
    ensures
        r is Ok ==> formatted(*final(f)) == formatted(*old(f)) + text@,
{
    f.write_str(text)
}

/// `Formatter::alternate`: whether the `#` flag was given.
#[verifier::external_body]
fn alternate(f: &core::fmt::Formatter<'_>) -> (r: bool)
    ensures
        r == wants_lines(*f),
{
    f.alternate()
}

/// A hexadecimal digit.
pub open spec fn hex_digit(d: u8) -> char {
    if d < 10 {
        (0x30 + d) as char
    } else {
        (0x61 + d - 10) as char
    }
}

/// A byte as two hexadecimal digits.
pub open spec fn hex_byte(b: u8) -> Seq<char> {
    seq![hex_digit(b / 16), hex_digit(b % 16)]
}

/// Bytes as hexadecimal digits, with commas between them.
pub open spec fn hex_list(bytes: Seq<u8>) -> Seq<char>
    decreases bytes.len(),
{
    if bytes.len() == 0 {
        seq![]
    } else if bytes.len() == 1 {
        hex_byte(bytes[0])
    } else {
        hex_list(bytes.drop_last()) + ", "@ + hex_byte(bytes.last())
    }
}

/// A byte is written as two digits of `0123456789abcdef`, which give its value
/// back; a list has two digits for each byte, and a comma and a blank between
/// two bytes.
pub proof fn lemma_hex(b: u8, bytes: Seq<u8>)
    ensures
        hex_byte(b).len() == 2,
        hex_byte(b)[0] == "0123456789abcdef"@[(b / 16) as int],
        hex_byte(b)[1] == "0123456789abcdef"@[(b % 16) as int],
        hex_list(seq![]) == Seq::<char>::empty(),
        hex_list(seq![b]) == hex_byte(b),
        bytes.len() > 0 ==> hex_list(bytes.push(b)) == hex_list(bytes) + ", "@ + hex_byte(b),
{
    reveal_strlit("0123456789abcdef");
    assert(bytes.push(b).drop_last() =~= bytes);
}

/// Of a public key only its first eight bytes are shown, between
/// `FnDsaPublicKey([` and `]…)`.
pub proof fn lemma_public_debug_view(key: Seq<u8>)
    ensures
        public_debug_view(key) == "FnDsaPublicKey(["@ + hex_list(key.take(8)) + "]…)"@,
{
}

/// A public key for debugging: its first eight bytes.
pub open spec fn public_debug_view(key: Seq<u8>) -> Seq<char> {
    "FnDsaPublicKey(["@ + hex_list(key.take(8)) + "]…)"@
}

/// The text of a hexadecimal digit.
fn hex_digit_text(d: u8) -> (r: &'static str)
    requires
        d < 16,
    ensures
        r@ == seq![hex_digit(d)],
{
    proof {
        reveal_strlit("0");
        reveal_strlit("1");
        reveal_strlit("2");
        reveal_strlit("3");
        reveal_strlit("4");
        reveal_strlit("5");
        reveal_strlit("6");
        reveal_strlit("7");
        reveal_strlit("8");
        reveal_strlit("9");
        reveal_strlit("a");
        reveal_strlit("b");
        reveal_strlit("c");
        reveal_strlit("d");
        reveal_strlit("e");
        reveal_strlit("f");
    }
    match d {
        0 => "0",
        1 => "1",
        2 => "2",
        3 => "3",
        4 => "4",
        5 => "5",
        6 => "6",
        7 => "7",
        8 => "8",
        9 => "9",
        10 => "a",
        11 => "b",
        12 => "c",
        13 => "d",
        14 => "e",
        _ => "f",
    }
}

/// Bytes as hexadecimal digits, with commas between them.
fn hex_list_text(bytes: &[u8]) -> (r: String)
    ensures
        r@ == hex_list(bytes@),
{
    let mut r = String::new();
    let mut i: usize = 0;
    assert(bytes@.take(0) =~= Seq::<u8>::empty());
    while i < bytes.len()
        invariant
            i <= bytes@.len(),
            r@ == hex_list(bytes@.take(i as int)),
        decreases bytes@.len() - i,
    {
        let ghost next = bytes@.take(i + 1);
        assert(next.drop_last() =~= bytes@.take(i as int));
        if i > 0 {
            r.append(", ");
        }
        r.append(hex_digit_text(bytes[i] / 16));
        r.append(hex_digit_text(bytes[i] % 16));
        assert(r@ =~= hex_list(next));
        i = i + 1;
    }
    assert(bytes@.take(i as int) =~= bytes@);
    r
}

/// A public key. It only ever holds bytes that decode as a verifying key.
#[derive(PartialEq, Eq, PartialOrd, Ord, Hash)]
pub struct PublicKey {
    bytes: [u8; 897],
}

/// A secret key. It only ever holds bytes that decode as a signing key, and
/// overwrites them with zeros when it is dropped.
pub struct SecretKey {
    inner: SecretBytes<1281>,
}

/// A secret key with its public key.
pub struct Keypair {
    secret: SecretKey,
    public: PublicKey,
}

impl View for PublicKey {
    type V = Seq<u8>;

    closed spec fn view(&self) -> Seq<u8> {
        self.bytes@
    }
}

impl View for SecretKey {
    type V = Seq<u8>;

    closed spec fn view(&self) -> Seq<u8> {
        self.inner.bytes@
    }
}

impl core::fmt::Debug for PublicKey {
    fn fmt(&self, f: &mut core::fmt::Formatter<'_>) -> (r: Result<(), core::fmt::Error>)
        ensures
            r is Ok ==> formatted(*final(f)) == formatted(*old(f)) + self.debug_view(),
    {
        write_text(f, self.debug_text().as_str())
    }
}

impl core::fmt::Debug for SecretKey {
    fn fmt(&self, f: &mut core::fmt::Formatter<'_>) -> (r: Result<(), core::fmt::Error>)
        ensures
            r is Ok ==> formatted(*final(f)) == formatted(*old(f)) + "FnDsaSecretKey"@,
    {
        write_text(f, self.debug_text().as_str())
    }
}

impl core::fmt::Debug for Keypair {
    fn fmt(&self, f: &mut core::fmt::Formatter<'_>) -> (r: Result<(), core::fmt::Error>)
        ensures
            r is Ok ==> formatted(*final(f)) == formatted(*old(f)) + self.debug_view(
                wants_lines(*old(f)),
            ),
    {
        let lines = alternate(f);
        write_text(f, self.debug_text(lines).as_str())
    }
}

impl Clone for PublicKey {
    fn clone(&self) -> (r: Self)
        ensures
            r@ == self@,
    {
        proof {
            use_type_invariant(self);
        }
        PublicKey { bytes: self.bytes }
    }
}

impl Clone for SecretKey {
    fn clone(&self) -> (r: Self)
        ensures
            r@ == self@,
    {
        proof {
            use_type_invariant(self);
        }
        SecretKey { inner: SecretBytes { bytes: self.inner.bytes } }
    }
}

impl Clone for Keypair {
    fn clone(&self) -> (r: Self)
        ensures
            r.secret_bytes() == self.secret_bytes(),
            r.public_bytes() == self.public_bytes(),
    {
        proof {
            use_type_invariant(self);
        }
        Keypair { secret: self.secret.clone(), public: self.public.clone() }
    }
}

impl PublicKey {
    #[verifier::type_invariant]
    spec fn wf(self) -> bool {
        verifying_key_decodes(self.bytes@)
    }

    /// Whether `sig` is a signature of `msg` under this key.
    pub fn verify(&self, msg: &[u8], sig: &[u8]) -> (r: bool)
        ensures
            r == signature_verifies(self@, msg@, sig@),
            r ==> sig@.len() == SIGNATURE_LENGTH,
    {
        proof {
            use_type_invariant(self);
        }
        verify_raw(&self.bytes, msg, sig)
    }

    /// The encoded key.
    pub fn to_bytes(&self) -> (r: [u8; 897])
        ensures
            r@ == self@,
            verifying_key_decodes(r@),
    {
        proof {
            use_type_invariant(self);
        }
        self.bytes
    }

    /// The key for debugging: its first eight bytes.
    pub open spec fn debug_view(&self) -> Seq<char> {
        public_debug_view(self@)
    }

    /// The key for debugging: its first eight bytes.
    pub fn debug_text(&self) -> (r: String)
        ensures
            r@ == self.debug_view(),
    {
        let first = slice_subrange(self.bytes.as_slice(), 0, 8);
        assert(first@ =~= self@.take(8));
        "FnDsaPublicKey([".to_owned().concat(hex_list_text(first).as_str()).concat("]…)")
    }

    /// Reads an encoded key.
    pub fn try_from_bytes(k: &[u8]) -> (r: Result<PublicKey, DecodingError>)
        ensures
            match r {
                Ok(key) => k@.len() == PUBLIC_KEY_LENGTH && verifying_key_decodes(k@) && key@ == k@,
                Err(e) => if k@.len() != PUBLIC_KEY_LENGTH {
                    e.says("FN-DSA-512 public key"@, "could not convert slice to array"@)
                } else {
                    &&& !verifying_key_decodes(k@)
                    &&& e.says(
                        "FN-DSA-512 public key"@,
                        "not a valid FN-DSA-512 verifying key encoding"@,
                    )
                },
            },
    {
        match array_from_slice::<897>(k) {
            None => Err(
                DecodingError::failed_to_parse(
                    "FN-DSA-512 public key",
                    "could not convert slice to array",
                ),
            ),
            Some(bytes) => {
                // The length alone does not make an encoding.
                if !decodes_as_verifying_key(&bytes) {
                    return Err(
                        DecodingError::failed_to_parse(
                            "FN-DSA-512 public key",
                            "not a valid FN-DSA-512 verifying key encoding",
                        ),
                    );
                }
                Ok(PublicKey { bytes })
            },
        }
    }
}

impl SecretKey {
    #[verifier::type_invariant]
    spec fn wf(self) -> bool {
        signing_key_decodes(self.inner.bytes@)
    }

    /// Reads an encoded key, and overwrites the input with zeros where that
    /// succeeds.
    pub fn try_from_bytes(sk_bytes: &mut [u8]) -> (r: Result<SecretKey, DecodingError>)
        ensures
            match r {
                Ok(key) => {
                    &&& old(sk_bytes)@.len() == SECRET_KEY_LENGTH
                    &&& signing_key_decodes(old(sk_bytes)@)
                    &&& key@ == old(sk_bytes)@
                    &&& final(sk_bytes)@ == zeros(old(sk_bytes)@.len())
                },
                Err(e) => {
                    &&& if old(sk_bytes)@.len() != SECRET_KEY_LENGTH {
                        e.says("FN-DSA-512 secret key"@, "could not convert slice to array"@)
                    } else {
                        &&& !signing_key_decodes(old(sk_bytes)@)
                        &&& e.says(
                            "FN-DSA-512 secret key"@,
                            "not a valid FN-DSA-512 signing key encoding"@,
                        )
                    }
                    &&& final(sk_bytes)@ == old(sk_bytes)@
                },
            },
    {
        match array_from_slice::<1281>(sk_bytes) {
            None => Err(
                DecodingError::failed_to_parse(
                    "FN-DSA-512 secret key",
                    "could not convert slice to array",
                ),
            ),
            Some(bytes) => {
                if !decodes_as_signing_key(&bytes) {
                    return Err(
                        DecodingError::failed_to_parse(
                            "FN-DSA-512 secret key",
                            "not a valid FN-DSA-512 signing key encoding",
                        ),
                    );
                }
                zeroize_bytes(sk_bytes);
                Ok(SecretKey { inner: SecretBytes { bytes } })
            },
        }
    }

    /// The encoded key.
    pub fn to_bytes(&self) -> (r: [u8; 1281])
        ensures
            r@ == self@,
            signing_key_decodes(r@),
    {
        proof {
            use_type_invariant(self);
        }
        self.inner.bytes
    }

    /// The key for debugging: nothing of what it holds.
    pub fn debug_text(&self) -> (r: String)
        ensures
            r@ == "FnDsaSecretKey"@,
    {
        "FnDsaSecretKey".to_owned()
    }

    /// The encoded key, borrowed.
    pub fn as_ref(&self) -> (r: &[u8])
        ensures
            r@ == self@,
            signing_key_decodes(r@),
    {
        proof {
            use_type_invariant(self);
        }
        self.inner.bytes.as_slice()
    }
}

impl Keypair {
    #[verifier::type_invariant]
    spec fn wf(self) -> bool {
        &&& signing_key_decodes(self.secret@)
        &&& self.public@ == verifying_key_of(self.secret@)
    }

    /// The encoded secret key.
    pub closed spec fn secret_bytes(&self) -> Seq<u8> {
        self.secret@
    }

    /// The encoded public key.
    pub closed spec fn public_bytes(&self) -> Seq<u8> {
        self.public@
    }

    /// Makes a fresh key pair.
    pub fn generate() -> (r: Keypair)
        ensures
            keygen_makes(r.secret_bytes()),
            sound_signing_key(r.secret_bytes()),
            signing_key_decodes(r.secret_bytes()),
            r.public_bytes() == verifying_key_of(r.secret_bytes()),
            verifying_key_decodes(r.public_bytes()),
    {
        let (sk, pk) = keygen();
        Keypair {
            secret: SecretKey { inner: SecretBytes { bytes: sk } },
            public: PublicKey { bytes: pk },
        }
    }

    /// Signs a message. The public key accepts the signature.
    ///
    /// The secret key must be one to sign with, as every key is that was
    /// generated, here or elsewhere: with other bytes that decode as a signing
    /// key, signing need not come to an end.
    pub fn sign(&self, msg: &[u8]) -> (r: Vec<u8>)
        requires
            sound_signing_key(self.secret_bytes()),
        ensures
            r@.len() == SIGNATURE_LENGTH,
            signing_makes(self.secret_bytes(), msg@, r@),
            signature_verifies(self.public_bytes(), msg@, r@),
    {
        proof {
            use_type_invariant(self);
        }
        sign_raw(&self.secret.inner.bytes, msg)
    }

    /// Makes a fresh key pair and signs a message with it. The public key
    /// accepts the signature.
    pub fn generate_and_sign(msg: &[u8]) -> (r: (Keypair, Vec<u8>))
        ensures
            keygen_makes(r.0.secret_bytes()),
            sound_signing_key(r.0.secret_bytes()),
            r.0.public_bytes() == verifying_key_of(r.0.secret_bytes()),
            r.1@.len() == SIGNATURE_LENGTH,
            signing_makes(r.0.secret_bytes(), msg@, r.1@),
            signature_verifies(r.0.public_bytes(), msg@, r.1@),
    {
        let pair = Keypair::generate();
        let sig = pair.sign(msg);
        (pair, sig)
    }

    /// The public key.
    pub fn public(&self) -> (r: PublicKey)
        ensures
            r@ == self.public_bytes(),
            r@ == verifying_key_of(self.secret_bytes()),
            r@.len() == PUBLIC_KEY_LENGTH,
            verifying_key_decodes(r@),
    {
        proof {
            use_type_invariant(self);
            use_type_invariant(&self.public);
        }
        self.public.clone()
    }

    /// The pair for debugging: its public key alone, on a line of its own or not.
    pub open spec fn debug_view(&self, lines: bool) -> Seq<char> {
        if lines {
            "FnDsaKeypair {\n    public: "@ + public_debug_view(self.public_bytes()) + ",\n}"@
        } else {
            "FnDsaKeypair { public: "@ + public_debug_view(self.public_bytes()) + " }"@
        }
    }

    /// The pair for debugging: its public key alone, on a line of its own or not.
    pub fn debug_text(&self, lines: bool) -> (r: String)
        ensures
            r@ == self.debug_view(lines),
    {
        let public = self.public.debug_text();
        if lines {
            "FnDsaKeypair {\n    public: ".to_owned().concat(public.as_str()).concat(",\n}")
        } else {
            "FnDsaKeypair { public: ".to_owned().concat(public.as_str()).concat(" }")
        }
    }

    /// The secret key.
    pub fn secret(&self) -> (r: SecretKey)
        ensures
            r@ == self.secret_bytes(),
    {
        self.secret.clone()
    }
}

impl From<Keypair> for SecretKey {
    fn from(kp: Keypair) -> (r: SecretKey)
        ensures
            r@ == kp.secret_bytes(),
    {
        kp.secret
    }
}

impl vstd::std_specs::convert::FromSpecImpl<Keypair> for SecretKey {
    open spec fn obeys_from_spec() -> bool {
        true
    }

    closed spec fn from_spec(kp: Keypair) -> SecretKey {
        kp.secret
    }
}

impl From<SecretKey> for Keypair {
    fn from(sk: SecretKey) -> (r: Keypair)
        ensures
            r.secret_bytes() == sk@,
            r.public_bytes() == verifying_key_of(sk@),
    {
        proof {
            use_type_invariant(&sk);
        }
        let public = to_verifying_key(&sk.inner.bytes);
        Keypair { secret: sk, public: PublicKey { bytes: public } }
    }
}

impl vstd::std_specs::convert::FromSpecImpl<SecretKey> for Keypair {
    open spec fn obeys_from_spec() -> bool {
        false
    }

    open spec fn from_spec(sk: SecretKey) -> Keypair {
        arbitrary()
    }
}

} // verus!
