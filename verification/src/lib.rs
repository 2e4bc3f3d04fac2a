//! Noise handshakes and transport framing for peer-to-peer connections, in a
//! post-quantum (`pqXX`) and a classic (`XX`) flavour.
//!
//! A [`config::PqConfig`] or a [`config::Config`] (or both, as a
//! [`config::PqOrClassic`]) is made for an identity and turned into a side of a
//! handshake: a [`handshake_pq::PqState`] or a [`handshake::State`]. At the end
//! of the handshake stand the remote's identity and an [`output::Output`], the
//! byte stream over the established session.
//!
//! Nothing here performs input or output: a handshake and a stream say what to
//! do next and are told what came of it.

pub mod buf;
pub mod certhash;
pub mod classic_session;
pub mod config;
pub mod error;
pub mod fndsa;
pub mod framed;
pub mod framed_pq;
pub mod handshake;
pub mod handshake_pq;
pub mod identity;
pub mod output;
pub mod output_io;
pub mod payload;
pub mod pq_session;
pub mod protocol;
pub mod protocol_pq;
pub mod secret;
pub mod session;
pub mod varint;
