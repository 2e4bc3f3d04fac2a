//! Configurations: what a side brings to a handshake.

use vstd::prelude::*;
use vstd::utf8::encode_utf8;
use snow::params::NoiseParams;
use crate::certhash::distinct;
use crate::certhash::listed;
use crate::certhash::no_duplicates;
use crate::certhash::Certhash;
use crate::certhash::CerthashView;
use crate::classic_session::awaits_initiators;
use crate::classic_session::clone_params;
use crate::classic_session::classic_handshake;
use crate::classic_session::classic_transport_keys;
use crate::classic_session::exchanges;
use crate::classic_session::keypair_makes;
use crate::classic_session::lemma_honest_sessions_meet;
use crate::classic_session::params_text;
use crate::classic_session::parse_params;
use crate::classic_session::ClassicHandshakeSession;
use crate::classic_session::ClassicHandshakeView;
use crate::classic_session::opposite_ends;
use crate::classic_session::PARAMS_XX;
use crate::error::Error;
use crate::error::IoError;
use crate::fndsa::signature_verifies;
use crate::fndsa::SIGNATURE_LENGTH;
use crate::framed::Codec;
use crate::framed_pq::paired;
use crate::framed_pq::PqCodec;
use crate::handshake::certhashes_view;
use crate::handshake::classic_step;
use crate::handshake::lemma_honest_classic_remote_is_accepted;
use crate::handshake::State;
use crate::handshake::StateView;
use crate::handshake_pq::identity_payload;
use crate::handshake_pq::lemma_honest_remote_is_accepted;
use crate::handshake_pq::lemma_messages_are_short;
use crate::handshake_pq::pq_step;
use crate::handshake_pq::HandshakeStep;
use crate::handshake_pq::PqState;
use crate::handshake_pq::PqStateView;
use crate::identity::decoded_identity;
use crate::identity::libp2p_pair_key;
use crate::identity::libp2p_verifies;
use crate::identity::valid_identity;
use crate::identity::IdentityKeypair;
use crate::identity::IdentityView;
use crate::payload::empty_payload;
use crate::payload::lemma_empty_payload;
use crate::payload::lemma_payload_round_trip;
use crate::payload::lemma_short_payload_is_readable;
use crate::payload::parsed_payload;
use crate::payload::payload_encoding;
use crate::payload::PayloadView;
use crate::pq_session::fresh_transport;
use crate::pq_session::genkey_makes;
use crate::pq_session::handshake_new;
use crate::pq_session::pq_exchanges;
use crate::pq_session::pq_handshake;
use crate::pq_session::pq_transport_keys;
use crate::pq_session::PqHandshakeSession;
use crate::pq_session::PqHandshakeView;
use crate::protocol::classic_static_message;
use crate::protocol::AuthenticKeypair;
use crate::protocol::DhKeypair;
use crate::protocol_pq::pq_static_message;
use crate::protocol_pq::AuthenticPqKeypair;
use crate::protocol_pq::PqStaticKeypair;

verus! {

/// The protocol id of the post-quantum handshake.
pub const PROTO_PQ: &'static str = "/noise/pqxx/1.0.0";

/// The protocol id of the classic handshake.
pub const PROTO_CLASSIC: &'static str = "/noise";

// ---------------------------------------------------------------------------
// Classic
// ---------------------------------------------------------------------------

/// The configuration for the classic noise handshake.
pub struct Config {
    dh_keys: AuthenticKeypair,
    params: NoiseParams,
    webtransport_certhashes: Option<Vec<Certhash>>,
    /// Prologue to use in the noise handshake.
    ///
    /// The prologue can contain arbitrary data that will be hashed into the
    /// noise handshake. For the handshake to succeed, both parties must set the
    /// same prologue.
    prologue: Vec<u8>,
}

/// A classic configuration, as mathematical values.
pub struct ConfigView {
    /// The identity, and its signature over the static key.
    pub identity: IdentityView,
    pub signature: Seq<u8>,
    /// The static keys, public key first.
    pub keys: (Seq<u8>, Seq<u8>),
    pub certhashes: Option<Seq<Certhash>>,
    pub prologue: Seq<u8>,
}

impl View for Config {
    type V = ConfigView;

    closed spec fn view(&self) -> ConfigView {
        ConfigView {
            identity: self.dh_keys.identity.public@,
            signature: self.dh_keys.identity.signature@,
            keys: self.dh_keys.keypair.keys(),
            certhashes: certhashes_view(self.webtransport_certhashes),
            prologue: self.prologue@,
        }
    }
}

impl ConfigView {
    /// The state of the session that a handshake begins with.
    pub open spec fn session(self, initiator: bool) -> ClassicHandshakeView {
        ClassicHandshakeView {
            params: PARAMS_XX@,
            prologue: self.prologue,
            secret: self.keys.1,
            initiator,
            done: 0,
            remote_static: None,
        }
    }

    /// What a side knows at the beginning of a handshake.
    pub open spec fn state(self, initiator: bool) -> StateView {
        StateView {
            identity: self.identity,
            signature: self.signature,
            initiator,
            remote_sig: None,
            remote_key: None,
            certhashes: self.certhashes,
            remote_certhashes: None,
            done: 0,
        }
    }

    /// The identity has signed the static key.
    pub open spec fn authentic(self) -> bool {
        self.identity.verifies(classic_static_message(self.keys.0), self.signature)
    }

    /// What holds of every configuration that [`Config::new`] makes, with
    /// whatever is then set.
    pub open spec fn ready(self) -> bool {
        &&& valid_identity(self.identity)
        &&& keypair_makes(self.keys.0, self.keys.1)
        &&& self.authentic()
        &&& 0 < self.signature.len() <= SIGNATURE_LENGTH
    }
}

/// Hashes that may be absent are the same, one by one.
pub open spec fn same_hashes(a: Option<Seq<Certhash>>, b: Option<Seq<Certhash>>) -> bool {
    match (a, b) {
        (Some(a), Some(b)) => {
            &&& a.len() == b.len()
            &&& forall|i: int| 0 <= i < a.len() ==> (#[trigger] a[i])@ == b[i]@
        },
        (None, None) => true,
        _ => false,
    }
}

/// Copies of hashes that may be absent.
fn clone_certhashes(hashes: &Option<Vec<Certhash>>) -> (r: Option<Vec<Certhash>>)
    ensures
        same_hashes(certhashes_view(r), certhashes_view(*hashes)),
{
    match hashes {
        None => None,
        Some(h) => {
            let mut c: Vec<Certhash> = Vec::new();
            let mut i: usize = 0;
            while i < h.len()
                invariant
                    i <= h@.len(),
                    c@.len() == i,
                    forall|j: int| 0 <= j < i ==> (#[trigger] c@[j])@ == h@[j]@,
                decreases h@.len() - i,
            {
                c.push(h[i].clone());
                i = i + 1;
            }
            Some(c)
        },
    }
}

impl Clone for Config {
    fn clone(&self) -> (r: Self)
        ensures
            r@ == (ConfigView { certhashes: r@.certhashes, ..self@ }),
            same_hashes(r@.certhashes, self@.certhashes),
            match (r@.certhashes, self@.certhashes) {
                (Some(c), Some(h)) => {
                    &&& c.len() == h.len()
                    &&& forall|i: int| 0 <= i < h.len() ==> (#[trigger] c[i])@ == h[i]@
                },
                (None, None) => true,
                _ => false,
            },
    {
        proof {
            use_type_invariant(self);
        }
        Config {
            dh_keys: self.dh_keys.clone(),
            params: clone_params(&self.params),
            webtransport_certhashes: clone_certhashes(&self.webtransport_certhashes),
            prologue: self.prologue.clone(),
        }
    }
}

impl Config {
    #[verifier::type_invariant]
    spec fn wf(self) -> bool {
        params_text(self.params) == PARAMS_XX@
    }

    /// Construct a new configuration for the noise handshake using the XX
    /// handshake pattern: a fresh static key pair, signed by the identity.
    pub fn new(identity: &IdentityKeypair) -> (r: Result<Config, Error>)
        requires
            identity.genuine(),
        ensures
            match r {
                Ok(config) => {
                    &&& config@.identity == identity.key()
                    &&& valid_identity(identity.key())
                    &&& config@.ready()
                    &&& identity.signs(
                        classic_static_message(config@.keys.0),
                        config@.signature,
                    )
                    &&& match *identity {
                        IdentityKeypair::Libp2p(pair) => {
                            &&& config@.identity == IdentityView::Libp2p(libp2p_pair_key(pair))
                            &&& libp2p_verifies(
                                libp2p_pair_key(pair),
                                encode_utf8("noise-libp2p-static-key:"@) + config@.keys.0,
                                config@.signature,
                            )
                        },
                        IdentityKeypair::FnDsa(pair) => {
                            &&& config@.identity == IdentityView::FnDsa(pair.public_bytes())
                            &&& signature_verifies(
                                pair.public_bytes(),
                                encode_utf8("noise-libp2p-static-key:"@) + config@.keys.0,
                                config@.signature,
                            )
                        },
                    }
                    &&& keypair_makes(config@.keys.0, config@.keys.1)
                    &&& config@.certhashes is None
                    &&& config@.prologue == Seq::<u8>::empty()
                },
                Err(_) => false,
            },
    {
        let params = match parse_params(PARAMS_XX) {
            Ok(params) => params,
            Err(e) => {
                return Err(Error::Noise(e));
            },
        };
        match DhKeypair::new(clone_params(&params)).into_authentic(identity) {
            Ok(dh_keys) => Ok(
                Config { dh_keys, params, webtransport_certhashes: None, prologue: Vec::new() },
            ),
            Err(e) => Err(e),
        }
    }

    /// Set the noise prologue.
    pub fn with_prologue(self, prologue: Vec<u8>) -> (r: Config)
        ensures
            r@ == (ConfigView { prologue: prologue@, ..self@ }),
    {
        proof {
            use_type_invariant(&self);
        }
        Config { prologue, ..self }
    }

    /// Set WebTransport certhashes extension; none at all count as not set.
    ///
    /// In case of initiator, these certhashes will be used to validate the ones
    /// reported by responder.
    ///
    /// In case of responder, these certhashes will be reported to initiator.
    pub fn with_webtransport_certhashes(self, certhashes: Vec<Certhash>) -> (r: Config)
        ensures
            r@ == (ConfigView { certhashes: r@.certhashes, ..self@ }),
            match r@.certhashes {
                Some(hashes) => {
                    &&& certhashes@.len() > 0
                    &&& no_duplicates(hashes)
                    &&& forall|h: CerthashView| #[trigger]
                        listed(hashes, h) <==> listed(certhashes@, h)
                },
                None => certhashes@.len() == 0,
            },
            match r@.certhashes {
                Some(hashes) => {
                    &&& forall|i: int, j: int|
                        0 <= i < j < hashes.len() ==> (#[trigger] hashes[i])@ != (
                        #[trigger] hashes[j])@
                    &&& forall|i: int|
                        0 <= i < hashes.len() ==> certhashes@.map_values(
                            |h: Certhash| h@,
                        ).contains((#[trigger] hashes[i])@)
                    &&& forall|k: int|
                        0 <= k < certhashes@.len() ==> hashes.map_values(
                            |h: Certhash| h@,
                        ).contains((#[trigger] certhashes@[k])@)
                },
                None => certhashes@.len() == 0,
            },
    {
        proof {
            use_type_invariant(&self);
        }
        let hashes = distinct(&certhashes);
        let webtransport_certhashes = if hashes.len() == 0 {
            None
        } else {
            Some(hashes)
        };
        Config { webtransport_certhashes, ..self }
    }

    /// The protocols on offer.
    pub fn protocol_info(&self) -> (r: [&'static str; 1])
        ensures
            r@ == seq![PROTO_CLASSIC],
            r@[0]@ == "/noise"@,
    {
        [PROTO_CLASSIC]
    }

    /// The side of a handshake that receives the first message.
    pub fn into_responder(self) -> (r: Result<State<Codec<ClassicHandshakeSession>>, Error>)
        ensures
            match r {
                Ok(state) => {
                    &&& state@ == self@.state(false)
                    &&& state.handshake() == self@.session(false)
                    &&& state.link()@.wf()
                    &&& classic_handshake(state.link()@@) == (ClassicHandshakeView {
                        params: "Noise_XX_25519_ChaChaPoly_SHA256"@,
                        prologue: self@.prologue,
                        secret: self@.keys.1,
                        initiator: false,
                        done: 0,
                        remote_static: None,
                    })
                    &&& state@ == (StateView {
                        identity: self@.identity,
                        signature: self@.signature,
                        initiator: false,
                        remote_sig: None,
                        remote_key: None,
                        certhashes: self@.certhashes,
                        remote_certhashes: None,
                        done: 0,
                    })
                    &&& awaits_initiators(state.link()@@)
                },
                Err(_) => false,
            },
    {
        proof {
            use_type_invariant(&self);
        }
        match ClassicHandshakeSession::responder(
            self.params,
            self.prologue.as_slice(),
            self.dh_keys.keypair.secret(),
        ) {
            Ok(session) => Ok(
                State::new(
                    Codec::new(session),
                    self.dh_keys.identity,
                    false,
                    self.webtransport_certhashes,
                ),
            ),
            Err(e) => Err(Error::Noise(e)),
        }
    }

    /// The side of a handshake that sends the first message.
    pub fn into_initiator(self) -> (r: Result<State<Codec<ClassicHandshakeSession>>, Error>)
        ensures
            match r {
                Ok(state) => {
                    &&& state@ == self@.state(true)
                    &&& state.handshake() == self@.session(true)
                    &&& state.link()@.wf()
                    &&& classic_handshake(state.link()@@) == (ClassicHandshakeView {
                        params: "Noise_XX_25519_ChaChaPoly_SHA256"@,
                        prologue: self@.prologue,
                        secret: self@.keys.1,
                        initiator: true,
                        done: 0,
                        remote_static: None,
                    })
                    &&& state@ == (StateView {
                        identity: self@.identity,
                        signature: self@.signature,
                        initiator: true,
                        remote_sig: None,
                        remote_key: None,
                        certhashes: self@.certhashes,
                        remote_certhashes: None,
                        done: 0,
                    })
                },
                Err(_) => false,
            },
    {
        proof {
            use_type_invariant(&self);
        }
        match ClassicHandshakeSession::initiator(
            self.params,
            self.prologue.as_slice(),
            self.dh_keys.keypair.secret(),
        ) {
            Ok(session) => Ok(
                State::new(
                    Codec::new(session),
                    self.dh_keys.identity,
                    true,
                    self.webtransport_certhashes,
                ),
            ),
            Err(e) => Err(Error::Noise(e)),
        }
    }
}

// ---------------------------------------------------------------------------
// Post-quantum
// ---------------------------------------------------------------------------

/// Configuration for the post-quantum (`pqXX`) Noise handshake.
///
/// Drives the `Noise_pqXX_MLKEM768_ChaChaPoly_SHA256` pattern, negotiated as
/// the multistream protocol id `/noise/pqxx/1.0.0`. Sibling to [`Config`].
///
/// **Note on assurance.** The post-quantum path depends on the unaudited
/// `clatter` crate for the Noise framework with KEM extensions and on
/// RustCrypto's `ml-kem` for the underlying KEM. Treat this as experimental.
///
/// The identity flow is that of the classic handshake: the static key signed by
/// the identity is the ML-KEM-768 encapsulation key (instead of an X25519 public
/// key), and a distinct domain separator (`noise-libp2p-static-key-pq:`) is used
/// to prevent any cross-protocol confusion with `/noise`.
pub struct PqConfig {
    pq_keys: AuthenticPqKeypair,
    /// Prologue to use in the noise handshake. See [`Config::with_prologue`].
    prologue: Vec<u8>,
}

/// A post-quantum configuration, as mathematical values.
pub struct PqConfigView {
    /// The identity, and its signature over the static key.
    pub identity: IdentityView,
    pub signature: Seq<u8>,
    /// The static keys, public key first.
    pub keys: (Seq<u8>, Seq<u8>),
    pub prologue: Seq<u8>,
}

impl View for PqConfig {
    type V = PqConfigView;

    closed spec fn view(&self) -> PqConfigView {
        PqConfigView {
            identity: self.pq_keys.identity.public@,
            signature: self.pq_keys.identity.signature@,
            keys: self.pq_keys.keypair.keys(),
            prologue: self.prologue@,
        }
    }
}

impl PqConfigView {
    /// The state of the session that a handshake begins with.
    pub open spec fn session(self, initiator: bool) -> PqHandshakeView {
        PqHandshakeView {
            prologue: self.prologue,
            keys: self.keys,
            initiator,
            done: 0,
            failed: false,
            remote_static: None,
        }
    }

    /// What a side knows at the beginning of a handshake.
    pub open spec fn state(self, initiator: bool) -> PqStateView {
        PqStateView {
            identity: self.identity,
            signature: self.signature,
            initiator,
            remote_sig: None,
            remote_key: None,
            done: 0,
        }
    }

    /// The identity has signed the static key.
    pub open spec fn authentic(self) -> bool {
        self.identity.verifies(pq_static_message(self.keys.0), self.signature)
    }

    /// What holds of every configuration that [`PqConfig::new`] makes, with
    /// whatever is then set.
    pub open spec fn ready(self) -> bool {
        &&& valid_identity(self.identity)
        &&& genkey_makes(self.keys.0, self.keys.1)
        &&& self.authentic()
        &&& 0 < self.signature.len() <= SIGNATURE_LENGTH
    }

    /// The payload that carries the identity.
    pub open spec fn payload(self) -> PayloadView {
        identity_payload(self.identity, self.signature)
    }

    /// What a side knows at the end of a handshake with a remote that has sent
    /// the identity and the signature of `remote`.
    pub open spec fn end_state(self, initiator: bool, remote: PqConfigView) -> PqStateView {
        if initiator {
            self.state(true).advanced().with_identity(
                remote.identity,
                remote.signature,
            ).advanced().advanced()
        } else {
            self.state(false).advanced().advanced().with_identity(
                remote.identity,
                remote.signature,
            ).advanced()
        }
    }
}

impl Clone for PqConfig {
    fn clone(&self) -> (r: Self)
        ensures
            r@ == self@,
    {
        PqConfig { pq_keys: self.pq_keys.clone(), prologue: self.prologue.clone() }
    }
}

impl PqConfig {
    /// Construct a new configuration for the post-quantum `pqXX` handshake.
    /// Generates a fresh ML-KEM-768 static keypair signed by the identity.
    pub fn new(identity: &IdentityKeypair) -> (r: Result<PqConfig, Error>)
        requires
            identity.genuine(),
        ensures
            match r {
                Ok(config) => {
                    &&& config@.identity == identity.key()
                    &&& valid_identity(identity.key())
                    &&& config@.ready()
                    &&& identity.signs(pq_static_message(config@.keys.0), config@.signature)
                    &&& match *identity {
                        IdentityKeypair::Libp2p(pair) => {
                            &&& config@.identity == IdentityView::Libp2p(libp2p_pair_key(pair))
                            &&& libp2p_verifies(
                                libp2p_pair_key(pair),
                                encode_utf8("noise-libp2p-static-key-pq:"@) + config@.keys.0,
                                config@.signature,
                            )
                        },
                        IdentityKeypair::FnDsa(pair) => {
                            &&& config@.identity == IdentityView::FnDsa(pair.public_bytes())
                            &&& signature_verifies(
                                pair.public_bytes(),
                                encode_utf8("noise-libp2p-static-key-pq:"@) + config@.keys.0,
                                config@.signature,
                            )
                        },
                    }
                    &&& genkey_makes(config@.keys.0, config@.keys.1)
                    &&& config@.prologue == Seq::<u8>::empty()
                },
                Err(_) => false,
            },
    {
        let keypair = match PqStaticKeypair::new() {
            Ok(keypair) => keypair,
            Err(e) => {
                return Err(e);
            },
        };
        match keypair.into_authentic(identity) {
            Ok(pq_keys) => Ok(PqConfig { pq_keys, prologue: Vec::new() }),
            Err(e) => Err(e),
        }
    }

    /// Set the noise prologue. Both peers must agree on the same prologue.
    pub fn with_prologue(self, prologue: Vec<u8>) -> (r: PqConfig)
        ensures
            r@ == (PqConfigView { prologue: prologue@, ..self@ }),
    {
        PqConfig { prologue, ..self }
    }

    /// The protocols on offer.
    pub fn protocol_info(&self) -> (r: [&'static str; 1])
        ensures
            r@ == seq![PROTO_PQ],
            r@[0]@ == "/noise/pqxx/1.0.0"@,
    {
        [PROTO_PQ]
    }

    /// A side of a handshake.
    pub fn into_session(self, is_initiator: bool) -> (r: Result<
        PqState<PqCodec<PqHandshakeSession>>,
        Error,
    >)
        ensures
            match r {
                Ok(state) => {
                    &&& state@ == self@.state(is_initiator)
                    &&& state.handshake() == self@.session(is_initiator)
                    &&& pq_handshake(state.link()@) == (PqHandshakeView {
                        prologue: self@.prologue,
                        keys: self@.keys,
                        initiator: is_initiator,
                        done: 0,
                        failed: false,
                        remote_static: None,
                    })
                    &&& state@ == (PqStateView {
                        identity: self@.identity,
                        signature: self@.signature,
                        initiator: is_initiator,
                        remote_sig: None,
                        remote_key: None,
                        done: 0,
                    })
                },
                Err(_) => false,
            },
    {
        let (public, secret) = self.pq_keys.keypair.into_inner();
        match handshake_new(self.prologue.as_slice(), is_initiator, &public, &secret.bytes) {
            Ok(session) => Ok(
                PqState::new(PqCodec::new(session), self.pq_keys.identity, is_initiator),
            ),
            Err(e) => Err(Error::PqHandshake("session init: ".to_owned().concat(e.as_str()))),
        }
    }
}

// ---------------------------------------------------------------------------
// Both
// ---------------------------------------------------------------------------

/// Composition that advertises both the post-quantum (`/noise/pqxx/1.0.0`) and
/// the classic (`/noise`) handshakes on the same connection. The post-quantum
/// one is preferred; negotiation falls back to the classic one when the remote
/// does not advertise it.
///
/// Produced by [`pq_or_classic`].
pub struct PqOrClassic {
    pq: PqConfig,
    classic: Config,
}

/// The configuration for the protocol that was negotiated.
pub enum Arm {
    Pq(PqConfig),
    Classic(Config),
}

impl Clone for PqOrClassic {
    fn clone(&self) -> (r: Self)
        ensures
            r.pq_arm() == self.pq_arm(),
            r.classic_arm() == (ConfigView {
                certhashes: r.classic_arm().certhashes,
                ..self.classic_arm()
            }),
            same_hashes(r.classic_arm().certhashes, self.classic_arm().certhashes),
            match (r.classic_arm().certhashes, self.classic_arm().certhashes) {
                (Some(c), Some(h)) => {
                    &&& c.len() == h.len()
                    &&& forall|i: int| 0 <= i < h.len() ==> (#[trigger] c[i])@ == h[i]@
                },
                (None, None) => true,
                _ => false,
            },
    {
        PqOrClassic { pq: self.pq.clone(), classic: self.classic.clone() }
    }
}

/// What both arms are for a new configuration: bound to the same identity, with
/// fresh static keys that it has signed, and nothing set.
pub open spec fn made_for(identity: IdentityKeypair, both: PqOrClassic) -> bool {
    &&& both.pq_arm().identity == identity.key()
    &&& both.classic_arm().identity == identity.key()
    &&& genkey_makes(both.pq_arm().keys.0, both.pq_arm().keys.1)
    &&& keypair_makes(both.classic_arm().keys.0, both.classic_arm().keys.1)
    &&& identity.signs(
        pq_static_message(both.pq_arm().keys.0),
        both.pq_arm().signature,
    )
    &&& identity.signs(
        classic_static_message(both.classic_arm().keys.0),
        both.classic_arm().signature,
    )
    &&& valid_identity(identity.key())
    &&& 0 < both.pq_arm().signature.len() <= SIGNATURE_LENGTH
    &&& 0 < both.classic_arm().signature.len() <= SIGNATURE_LENGTH
    &&& both.pq_arm().authentic()
    &&& both.classic_arm().authentic()
    &&& both.pq_arm().prologue == Seq::<u8>::empty()
    &&& both.classic_arm().prologue == Seq::<u8>::empty()
    &&& both.classic_arm().certhashes is None
}

/// Build a [`PqOrClassic`] upgrade from a single identity. The resulting upgrade
/// advertises `/noise/pqxx/1.0.0` first, with `/noise` as a fallback for peers
/// that have not enabled it. Both arms bind the same identity, so that it does
/// not matter to others which arm wins negotiation.
pub fn pq_or_classic(identity: &IdentityKeypair) -> (r: Result<PqOrClassic, Error>)
    requires
        identity.genuine(),
    ensures
        match r {
            Ok(both) => {
                &&& made_for(*identity, both)
                &&& both.pq_arm().identity == both.classic_arm().identity
                &&& both.pq_arm().prologue.len() == 0 && both.classic_arm().prologue.len() == 0
                &&& both.classic_arm().certhashes is None
                &&& match *identity {
                    IdentityKeypair::Libp2p(pair) => {
                        &&& both.pq_arm().identity == IdentityView::Libp2p(libp2p_pair_key(pair))
                        &&& libp2p_verifies(
                            libp2p_pair_key(pair),
                            encode_utf8("noise-libp2p-static-key-pq:"@) + both.pq_arm().keys.0,
                            both.pq_arm().signature,
                        )
                        &&& libp2p_verifies(
                            libp2p_pair_key(pair),
                            encode_utf8("noise-libp2p-static-key:"@) + both.classic_arm().keys.0,
                            both.classic_arm().signature,
                        )
                    },
                    IdentityKeypair::FnDsa(pair) => {
                        &&& both.pq_arm().identity == IdentityView::FnDsa(pair.public_bytes())
                        &&& signature_verifies(
                            pair.public_bytes(),
                            encode_utf8("noise-libp2p-static-key-pq:"@) + both.pq_arm().keys.0,
                            both.pq_arm().signature,
                        )
                        &&& signature_verifies(
                            pair.public_bytes(),
                            encode_utf8("noise-libp2p-static-key:"@) + both.classic_arm().keys.0,
                            both.classic_arm().signature,
                        )
                    },
                }
            },
            Err(_) => false,
        },
{
    let pq = match PqConfig::new(identity) {
        Ok(pq) => pq,
        Err(e) => {
            return Err(e);
        },
    };
    match Config::new(identity) {
        Ok(classic) => Ok(PqOrClassic { pq, classic }),
        Err(e) => Err(e),
    }
}

/// Makes a fresh FN-DSA-512 identity, and a [`PqOrClassic`] upgrade from it.
pub fn fresh_pq_or_classic() -> (r: Result<(IdentityKeypair, PqOrClassic), Error>)
    ensures
        match r {
            Ok((identity, both)) => {
                &&& identity is FnDsa
                &&& identity.genuine()
                &&& made_for(identity, both)
            },
            Err(_) => false,
        },
{
    let identity = IdentityKeypair::generate_fndsa();
    match pq_or_classic(&identity) {
        Ok(both) => Ok((identity, both)),
        Err(e) => Err(e),
    }
}

impl PqOrClassic {
    /// The post-quantum arm.
    pub closed spec fn pq_arm(&self) -> PqConfigView {
        self.pq@
    }

    /// The classic arm.
    pub closed spec fn classic_arm(&self) -> ConfigView {
        self.classic@
    }

    /// The protocols on offer. The order matters: negotiation prefers earlier
    /// entries.
    pub fn protocol_info(&self) -> (r: [&'static str; 2])
        ensures
            r@ == seq![PROTO_PQ, PROTO_CLASSIC],
            r@[0]@ == "/noise/pqxx/1.0.0"@,
            r@[1]@ == "/noise"@,
    {
        [PROTO_PQ, PROTO_CLASSIC]
    }

    /// The arm for the protocol that was negotiated.
    pub fn into_arm(self, info: &str) -> (r: Result<Arm, Error>)
        ensures
            match r {
                Ok(Arm::Pq(config)) => info@ == PROTO_PQ@ && config@ == self.pq_arm(),
                Ok(Arm::Classic(config)) => info@ == PROTO_CLASSIC@ && config@
                    == self.classic_arm(),
                Err(Error::PqHandshake(text)) => {
                    &&& info@ != PROTO_PQ@
                    &&& info@ != PROTO_CLASSIC@
                    &&& text@ == "unexpected negotiated protocol: "@ + info@
                },
                Err(_) => false,
            },
            match r {
                Ok(Arm::Pq(_)) => info@ == "/noise/pqxx/1.0.0"@,
                Ok(Arm::Classic(_)) => info@ == "/noise"@,
                Err(_) => info@ != "/noise/pqxx/1.0.0"@ && info@ != "/noise"@,
            },
    {
        proof {
            lemma_protocols_differ();
        }
        let negotiated = info.to_owned();
        if negotiated == PROTO_PQ.to_owned() {
            Ok(Arm::Pq(self.pq))
        } else if negotiated == PROTO_CLASSIC.to_owned() {
            Ok(Arm::Classic(self.classic))
        } else {
            Err(
                Error::PqHandshake(
                    "unexpected negotiated protocol: ".to_owned().concat(info),
                ),
            )
        }
    }
}

/// Two honest ends complete a classic handshake: where an initiator and a
/// responder agree on the prologue, each with an identity that has signed its
/// static key, and their three messages get across unharmed, then each reads
/// what the other has sent, takes it for the other's identity, finds the other's
/// static key authentic, and what the one writes from then on the other reads.
///
/// The sessions are given as they are before and after each of the messages;
/// `knows` and `learns` are what the initiator and the responder know once they
/// have taken in the other's identity.
pub proof fn lemma_classic_handshake_completes(
    initiator: ConfigView,
    responder: ConfigView,
    initiator_sessions: Seq<ClassicHandshakeSession>,
    responder_sessions: Seq<ClassicHandshakeSession>,
    clear: Seq<Seq<u8>>,
    room: Seq<nat>,
    message: Seq<Seq<u8>>,
    out: Seq<Result<Seq<u8>, IoError>>,
    knows: StateView,
    learns: StateView,
)
    requires
        initiator.ready() && responder.ready(),
        classic_handshake(initiator_sessions[0]@) == initiator.session(true),
        classic_handshake(responder_sessions[0]@) == responder.session(false),
        exchanges(initiator_sessions, responder_sessions, clear, room, message, out),
        clear[0] == payload_encoding(empty_payload()),
        clear[1] == payload_encoding(responder.state(false).payload()),
        clear[2] == payload_encoding(initiator.state(true).payload()),
        initiator.state(true).advanced().takes_identity(
            responder.identity,
            responder.state(false).payload(),
            knows,
        ),
        responder.state(false).advanced().advanced().takes_identity(
            initiator.identity,
            initiator.state(true).payload(),
            learns,
        ),
    ensures
        forall|i: int|
            0 <= i < 3 ==> (#[trigger] out[i]) == Ok::<Seq<u8>, IoError>(clear[i]),
        clear[0].len() == 0,
        parsed_payload(clear[1]) == Some(responder.state(false).payload()),
        parsed_payload(clear[2]) == Some(initiator.state(true).payload()),
        decoded_identity(responder.state(false).payload().identity_key) == Some(
            responder.identity,
        ),
        decoded_identity(initiator.state(true).payload().identity_key) == Some(
            initiator.identity,
        ),
        knows.remote_key == Some(responder.identity),
        learns.remote_key == Some(initiator.identity),
        ({
            let i = classic_handshake(initiator_sessions[3]@);
            let r = classic_handshake(responder_sessions[3]@);
            let sender = fresh_transport(classic_transport_keys(initiator_sessions[3]@), true);
            let receiver = fresh_transport(classic_transport_keys(responder_sessions[3]@), false);
            &&& i.finished() && r.finished()
            &&& i.remote_static matches Some(key) && knows.authenticates(key)
            &&& r.remote_static matches Some(key) && learns.authenticates(key)
            &&& knows.advanced().finishes(i) <==> !knows.misses_certhashes()
            &&& learns.finishes(r)
            &&& paired(sender, receiver)
            &&& paired(receiver, sender)
        }),
{
    lemma_honest_sessions_meet(
        initiator_sessions,
        responder_sessions,
        clear,
        room,
        message,
        out,
        initiator.keys.0,
        responder.keys.0,
    );
    lemma_empty_payload(empty_payload());
    lemma_short_payload_is_readable(responder.state(false).payload());
    lemma_short_payload_is_readable(initiator.state(true).payload());
    lemma_honest_classic_remote_is_accepted(
        responder.state(false),
        initiator.state(true).advanced(),
        knows,
        responder.keys.0,
    );
    lemma_honest_classic_remote_is_accepted(
        initiator.state(true),
        responder.state(false).advanced().advanced(),
        learns,
        initiator.keys.0,
    );
}

/// Two honest ends complete a post-quantum handshake, as far as that does not
/// rest on chance: where the four messages are read as they were written, each
/// side comes to know the other's static key and both derive the same keys, then
/// each side takes what the other has sent for its identity, ends the handshake
/// with that identity, and what the one writes from then on the other reads.
///
/// The sessions are given as they are before and after each of the messages.
pub proof fn lemma_pq_handshake_completes(
    initiator: PqConfigView,
    responder: PqConfigView,
    initiator_sessions: Seq<PqHandshakeSession>,
    responder_sessions: Seq<PqHandshakeSession>,
    clear: Seq<Seq<u8>>,
    room: Seq<nat>,
    message: Seq<Seq<u8>>,
)
    requires
        initiator.ready() && responder.ready(),
        pq_handshake(initiator_sessions[0]) == initiator.session(true),
        pq_handshake(responder_sessions[0]) == responder.session(false),
        pq_exchanges(initiator_sessions, responder_sessions, clear, room, message),
        clear[0] == payload_encoding(empty_payload()),
        clear[1] == payload_encoding(responder.payload()),
        clear[2] == payload_encoding(initiator.payload()),
        clear[3] == payload_encoding(empty_payload()),
        pq_handshake(initiator_sessions[4]).remote_static == Some(responder.keys.0),
        pq_handshake(responder_sessions[4]).remote_static == Some(initiator.keys.0),
        pq_transport_keys(initiator_sessions[4]) == pq_transport_keys(responder_sessions[4]),
    ensures
        clear[0].len() == 0 && clear[3].len() == 0,
        parsed_payload(clear[0]) == Some(empty_payload()),
        parsed_payload(clear[1]) == Some(responder.payload()),
        parsed_payload(clear[2]) == Some(initiator.payload()),
        decoded_identity(responder.payload().identity_key) == Some(responder.identity),
        decoded_identity(initiator.payload().identity_key) == Some(initiator.identity),
        pq_step(true, initiator.end_state(true, responder).done) == HandshakeStep::Finish,
        pq_step(false, responder.end_state(false, initiator).done) == HandshakeStep::Finish,
        initiator.end_state(true, responder).remote_key == Some(responder.identity),
        responder.end_state(false, initiator).remote_key == Some(initiator.identity),
        initiator.end_state(true, responder).finishes(pq_handshake(initiator_sessions[4])),
        responder.end_state(false, initiator).finishes(pq_handshake(responder_sessions[4])),
        ({
            let i = fresh_transport(pq_transport_keys(initiator_sessions[4]), true);
            let r = fresh_transport(pq_transport_keys(responder_sessions[4]), false);
            paired(i, r) && paired(r, i)
        }),
{
    lemma_empty_payload(empty_payload());
    lemma_payload_round_trip(empty_payload());
    lemma_messages_are_short(responder.identity, responder.signature, 1);
    lemma_messages_are_short(initiator.identity, initiator.signature, 2);
    lemma_short_payload_is_readable(responder.payload());
    lemma_short_payload_is_readable(initiator.payload());
    lemma_honest_remote_is_accepted(
        responder.state(false),
        initiator.state(true).advanced(),
        responder.keys.0,
    );
    lemma_honest_remote_is_accepted(
        initiator.state(true),
        responder.state(false).advanced().advanced(),
        initiator.keys.0,
    );
}

/// The session that a classic configuration is turned into has the prologue that
/// was set, on either side: the sessions of an initiator and a responder can be
/// the two ends of one handshake if and only if the prologues that were set are
/// equal.
pub proof fn lemma_prologue_reaches_the_session(initiator: ConfigView, responder: ConfigView)
    ensures
        initiator.session(true).prologue == initiator.prologue,
        responder.session(false).prologue == responder.prologue,
        opposite_ends(initiator.session(true), responder.session(false)) <==> initiator.prologue
            == responder.prologue,
        initiator.session(true).secret == initiator.keys.1,
        initiator.session(true).initiator && !responder.session(false).initiator,
        initiator.session(true).params == "Noise_XX_25519_ChaChaPoly_SHA256"@,
        responder.session(false).params == "Noise_XX_25519_ChaChaPoly_SHA256"@,
{
}

/// The session that a post-quantum configuration is turned into has the prologue
/// that was set and the static keys of the configuration, on either side.
pub proof fn lemma_prologue_reaches_the_pq_session(config: PqConfigView, initiator: bool)
    ensures
        config.session(initiator).prologue == config.prologue,
        config.session(initiator).keys == config.keys,
        config.session(initiator).initiator == initiator,
        config.session(initiator).done == 0 && !config.session(initiator).failed,
        config.session(initiator).remote_static is None,
{
}

/// A side begins with its own identity and signature, knowing nothing of the
/// remote; a configuration is authentic just where the scheme of its identity
/// accepts the signature over the domain followed by the static key.
pub proof fn lemma_sides_begin_with_their_identity(
    classic: ConfigView,
    pq: PqConfigView,
    initiator: bool,
)
    ensures
        classic.state(initiator) == (StateView {
            identity: classic.identity,
            signature: classic.signature,
            initiator,
            remote_sig: None,
            remote_key: None,
            certhashes: classic.certhashes,
            remote_certhashes: None,
            done: 0,
        }),
        pq.state(initiator) == (PqStateView {
            identity: pq.identity,
            signature: pq.signature,
            initiator,
            remote_sig: None,
            remote_key: None,
            done: 0,
        }),
        classic.authentic() <==> match classic.identity {
            IdentityView::Libp2p(key) => libp2p_verifies(
                key,
                encode_utf8("noise-libp2p-static-key:"@) + classic.keys.0,
                classic.signature,
            ),
            IdentityView::FnDsa(key) => signature_verifies(
                key,
                encode_utf8("noise-libp2p-static-key:"@) + classic.keys.0,
                classic.signature,
            ),
        },
        pq.authentic() <==> match pq.identity {
            IdentityView::Libp2p(key) => libp2p_verifies(
                key,
                encode_utf8("noise-libp2p-static-key-pq:"@) + pq.keys.0,
                pq.signature,
            ),
            IdentityView::FnDsa(key) => signature_verifies(
                key,
                encode_utf8("noise-libp2p-static-key-pq:"@) + pq.keys.0,
                pq.signature,
            ),
        },
{
}

/// Two honest ends complete a classic handshake by taking the steps that
/// [`State::next_step`] names: where each message carries what the sender's step
/// says, an identity or nothing, the first payload is empty, as the responder's
/// first step asks, and each side reads the other's identity at the step that
/// asks for one and can end the handshake with it.
pub proof fn lemma_classic_steps_complete(
    initiator: ConfigView,
    responder: ConfigView,
    initiator_sessions: Seq<ClassicHandshakeSession>,
    responder_sessions: Seq<ClassicHandshakeSession>,
    clear: Seq<Seq<u8>>,
    room: Seq<nat>,
    message: Seq<Seq<u8>>,
    out: Seq<Result<Seq<u8>, IoError>>,
    knows: StateView,
    learns: StateView,
)
    requires
        initiator.ready() && responder.ready(),
        classic_handshake(initiator_sessions[0]@) == initiator.session(true),
        classic_handshake(responder_sessions[0]@) == responder.session(false),
        exchanges(initiator_sessions, responder_sessions, clear, room, message, out),
        forall|i: int|
            0 <= i < 3 ==> #[trigger] clear[i] == match classic_step(i % 2 == 0, i as nat) {
                HandshakeStep::SendEmpty => payload_encoding(empty_payload()),
                HandshakeStep::SendIdentity => payload_encoding(
                    if i % 2 == 0 {
                        initiator.state(true).payload()
                    } else {
                        responder.state(false).payload()
                    },
                ),
                _ => clear[i],
            },
        initiator.state(true).advanced().takes_identity(
            responder.identity,
            responder.state(false).payload(),
            knows,
        ),
        responder.state(false).advanced().advanced().takes_identity(
            initiator.identity,
            initiator.state(true).payload(),
            learns,
        ),
    ensures
        forall|i: int|
            0 <= i < 3 ==> match classic_step(i % 2 != 0, i as nat) {
                HandshakeStep::RecvEmpty => #[trigger] out[i] == Ok::<Seq<u8>, IoError>(seq![]),
                HandshakeStep::RecvIdentity => {
                    let sender = if i % 2 == 0 {
                        initiator.state(true)
                    } else {
                        responder.state(false)
                    };
                    &&& out[i] is Ok
                    &&& parsed_payload(out[i]->Ok_0) == Some(sender.payload())
                    &&& decoded_identity(sender.payload().identity_key) == Some(sender.identity)
                },
                _ => false,
            },
        out[0] == Ok::<Seq<u8>, IoError>(seq![]),
        message[0].len() == 32,
        classic_step(true, 3) == HandshakeStep::Finish,
        classic_step(false, 3) == HandshakeStep::Finish,
        knows.remote_key == Some(responder.identity),
        learns.remote_key == Some(initiator.identity),
        knows.advanced().finishes(classic_handshake(initiator_sessions[3]@))
            <==> !knows.misses_certhashes(),
        learns.finishes(classic_handshake(responder_sessions[3]@)),
{
    lemma_empty_payload(empty_payload());
    lemma_classic_handshake_completes(
        initiator,
        responder,
        initiator_sessions,
        responder_sessions,
        clear,
        room,
        message,
        out,
        knows,
        learns,
    );
    assert(out[0] == Ok::<Seq<u8>, IoError>(clear[0]));
    assert(clear[0] =~= seq![]);
    assert(out[1] == Ok::<Seq<u8>, IoError>(clear[1]));
    assert(out[2] == Ok::<Seq<u8>, IoError>(clear[2]));
}

/// Two honest ends complete a post-quantum handshake by taking the steps that
/// [`PqState::next_step`] names, as far as that does not rest on chance: where
/// each message carries what the sender's step says, an identity or nothing, is
/// read as it was written, and the static keys get across, then each receiver
/// gets at its step what that step asks for, no identity is carried by the first
/// or the last message, and both sides can end the handshake.
pub proof fn lemma_pq_steps_complete(
    initiator: PqConfigView,
    responder: PqConfigView,
    initiator_sessions: Seq<PqHandshakeSession>,
    responder_sessions: Seq<PqHandshakeSession>,
    clear: Seq<Seq<u8>>,
    room: Seq<nat>,
    message: Seq<Seq<u8>>,
)
    requires
        initiator.ready() && responder.ready(),
        pq_handshake(initiator_sessions[0]) == initiator.session(true),
        pq_handshake(responder_sessions[0]) == responder.session(false),
        pq_exchanges(initiator_sessions, responder_sessions, clear, room, message),
        forall|i: int|
            0 <= i < 4 ==> #[trigger] clear[i] == match pq_step(i % 2 == 0, i as nat) {
                HandshakeStep::SendEmpty => payload_encoding(empty_payload()),
                HandshakeStep::SendIdentity => payload_encoding(
                    if i % 2 == 0 {
                        initiator.payload()
                    } else {
                        responder.payload()
                    },
                ),
                _ => clear[i],
            },
        pq_handshake(initiator_sessions[4]).remote_static == Some(responder.keys.0),
        pq_handshake(responder_sessions[4]).remote_static == Some(initiator.keys.0),
        pq_transport_keys(initiator_sessions[4]) == pq_transport_keys(responder_sessions[4]),
    ensures
        forall|i: int|
            0 <= i < 4 ==> match pq_step(i % 2 != 0, i as nat) {
                HandshakeStep::RecvEmpty => #[trigger] clear[i] == Seq::<u8>::empty(),
                HandshakeStep::RecvIdentity => {
                    let sender = if i % 2 == 0 {
                        initiator
                    } else {
                        responder
                    };
                    &&& parsed_payload(clear[i]) == Some(sender.payload())
                    &&& decoded_identity(sender.payload().identity_key) == Some(sender.identity)
                    &&& sender.payload().identity_sig == sender.signature
                },
                _ => false,
            },
        clear[0].len() == 0 && clear[3].len() == 0,
        pq_step(true, 4) == HandshakeStep::Finish,
        pq_step(false, 4) == HandshakeStep::Finish,
        initiator.end_state(true, responder).remote_key == Some(responder.identity),
        responder.end_state(false, initiator).remote_key == Some(initiator.identity),
        initiator.end_state(true, responder).finishes(pq_handshake(initiator_sessions[4])),
        responder.end_state(false, initiator).finishes(pq_handshake(responder_sessions[4])),
{
    lemma_empty_payload(empty_payload());
    lemma_pq_handshake_completes(
        initiator,
        responder,
        initiator_sessions,
        responder_sessions,
        clear,
        room,
        message,
    );
    assert(clear[0] =~= seq![]);
    assert(clear[3] =~= seq![]);
}

/// The two protocol ids are different.
pub proof fn lemma_protocols_differ()
    ensures
        PROTO_PQ@ != PROTO_CLASSIC@,
{
    reveal_strlit("/noise/pqxx/1.0.0");
    reveal_strlit("/noise");
    assert(PROTO_PQ@.len() == 17);
    assert(PROTO_CLASSIC@.len() == 6);
}

} // verus!
